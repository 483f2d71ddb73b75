//! The lookback ring: the newest packets of a device, bounded both by the time they span
//! and by the bytes they hold, kept so that a recording can start with what came before
//! its trigger.
use vstd::prelude::*;

use crate::control;
use crate::decoder::DecoderState;

verus! {

/// One USB buffer held by the ring, with what is needed to write it to a recording later.
/// `configuration` is the epoch of the device configuration that was current when the
/// buffer arrived: two consecutive items differ in it exactly when the configuration
/// changed between them.
pub struct LookbackItem {
    pub datetime_us: i64,
    pub system_time: u64,
    pub system_timestamp: u64,
    pub first_after_overflow: bool,
    pub configuration: u64,
    pub state: DecoderState,
    pub end_t: u64,
    pub raw: Vec<u8>,
}

/// What the ring reports to the sampler and to the clients.
#[derive(Debug, Clone, Copy, PartialEq, Eq, Structural, Hash)]
pub struct LookbackState {
    pub maximum_duration_us: u64,
    pub duration_us: u64,
    pub size_bytes: usize,
}

/// The bytes held by a sequence of items.
pub open spec fn total_size(s: Seq<LookbackItem>) -> nat
    decreases s.len(),
{
    if s.len() == 0 {
        0
    } else {
        total_size(s.drop_last()) + s.last().raw@.len()
    }
}

/// Items ordered by end time.
pub open spec fn sorted_by_end(s: Seq<LookbackItem>) -> bool {
    forall|i: int, j: int| 0 <= i <= j < s.len() ==> s[i].end_t <= s[j].end_t
}

/// Each item starts (by its decoder state) no later than it ends.
pub open spec fn starts_before_ends(s: Seq<LookbackItem>) -> bool {
    forall|i: int| 0 <= i < s.len() ==> s[i].state.t <= s[i].end_t
}

/// The time spanned by a sequence of items: from the state of the oldest to the end of
/// the newest; nothing when empty.
pub open spec fn duration_of(s: Seq<LookbackItem>) -> int {
    if s.len() == 0 {
        0
    } else {
        s.last().end_t - s[0].state.t
    }
}

/// At most the `n` newest items of `s`, in order.
pub open spec fn keep_newest(s: Seq<LookbackItem>, n: int) -> Seq<LookbackItem> {
    if s.len() <= n {
        s
    } else {
        s.subrange(s.len() - n, s.len() as int)
    }
}

/// Drops the oldest items while at least two remain and the oldest ended at least
/// `maximum_duration_us` before the newest.
pub open spec fn trim_to_duration(s: Seq<LookbackItem>, maximum_duration_us: u64) -> Seq<
    LookbackItem,
>
    decreases s.len(),
{
    if s.len() <= 1 {
        s
    } else if s.last().end_t - s[0].end_t < maximum_duration_us {
        s
    } else {
        trim_to_duration(s.drop_first(), maximum_duration_us)
    }
}

/// `x` is the item built from these values.
pub open spec fn item_holds(
    x: LookbackItem,
    datetime_us: i64,
    system_time: u64,
    system_timestamp: u64,
    first_after_overflow: bool,
    configuration: u64,
    state: DecoderState,
    end_t: u64,
    raw: Seq<u8>,
) -> bool {
    &&& x.datetime_us == datetime_us
    &&& x.system_time == system_time
    &&& x.system_timestamp == system_timestamp
    &&& x.first_after_overflow == first_after_overflow
    &&& x.configuration == configuration
    &&& x.state == state
    &&& x.end_t == end_t
    &&& x.raw@ == raw
}

/// Position `i` of a ring that starts at `read`, with `len` slots.
pub open spec fn slot(read: int, i: int, len: int) -> int {
    if read + i < len {
        read + i
    } else {
        read + i - len
    }
}

/// The number of items between `read` (included) and `write` (excluded).
pub open spec fn ring_count(read: int, write: int, len: int) -> int {
    if write >= read {
        write - read
    } else {
        write + len - read
    }
}

pub open spec fn ring_seq(items: Seq<LookbackItem>, read: int, count: int) -> Seq<LookbackItem> {
    Seq::new(count as nat, |i: int| items[slot(read, i, items.len() as int)])
}

proof fn lemma_total_size_first(s: Seq<LookbackItem>)
    requires
        s.len() >= 1,
    ensures
        total_size(s) == s[0].raw@.len() + total_size(s.drop_first()),
    decreases s.len(),
{
    if s.len() > 1 {
        lemma_total_size_first(s.drop_last());
        assert(s.drop_last().drop_first() =~= s.drop_first().drop_last());
        assert(s.drop_first().last() == s.last());
        assert(total_size(s.drop_first()) == total_size(s.drop_first().drop_last())
            + s.drop_first().last().raw@.len());
    } else {
        assert(s.drop_first().len() == 0);
        assert(s.drop_last().len() == 0);
        assert(total_size(s.drop_first()) == 0);
        assert(total_size(s.drop_last()) == 0);
    }
}

proof fn lemma_total_size_bound(s: Seq<LookbackItem>, m: nat)
    requires
        forall|i: int| 0 <= i < s.len() ==> s[i].raw@.len() <= m,
    ensures
        total_size(s) <= s.len() * m,
    decreases s.len(),
{
    if s.len() > 0 {
        lemma_total_size_bound(s.drop_last(), m);
        assert(total_size(s) <= (s.len() - 1) * m + m);
        assert((s.len() - 1) * m + m == s.len() * m) by (nonlinear_arith);
    }
}

proof fn lemma_trim_suffix(s: Seq<LookbackItem>, m: u64)
    ensures
        trim_to_duration(s, m).len() <= s.len(),
        s.len() >= 1 ==> trim_to_duration(s, m).len() >= 1,
        trim_to_duration(s, m) == s.subrange(s.len() - trim_to_duration(s, m).len(), s.len() as int),
    decreases s.len(),
{
    if s.len() <= 1 {
        assert(s.subrange(0, s.len() as int) =~= s);
    } else if s.last().end_t - s[0].end_t < m {
        assert(s.subrange(0, s.len() as int) =~= s);
    } else {
        lemma_trim_suffix(s.drop_first(), m);
        let t = trim_to_duration(s.drop_first(), m);
        assert(s.drop_first().subrange(s.drop_first().len() - t.len(), s.drop_first().len() as int)
            =~= s.subrange(s.len() - t.len(), s.len() as int));
    }
}

proof fn lemma_trim_all_expired(s: Seq<LookbackItem>, m: u64)
    requires
        s.len() >= 1,
        forall|i: int| 0 <= i < s.len() - 1 ==> s.last().end_t - #[trigger] s[i].end_t >= m,
    ensures
        trim_to_duration(s, m) == seq![s.last()],
    decreases s.len(),
{
    if s.len() <= 1 {
        assert(s =~= seq![s.last()]);
    } else {
        assert(s.last().end_t - s[0].end_t >= m);
        assert forall|i: int| 0 <= i < s.drop_first().len() - 1 implies s.drop_first().last().end_t
            - #[trigger] s.drop_first()[i].end_t >= m by {
            assert(s.drop_first()[i] == s[i + 1]);
        }
        lemma_trim_all_expired(s.drop_first(), m);
    }
}

proof fn lemma_push_expired(live: Seq<LookbackItem>, x: LookbackItem, n: int, m: u64)
    requires
        n >= 1,
        forall|i: int| 0 <= i < live.len() ==> x.end_t - #[trigger] live[i].end_t >= m,
    ensures
        trim_to_duration(keep_newest(live.push(x), n), m) == seq![x],
{
    let pushed = live.push(x);
    let kept = keep_newest(pushed, n);
    assert forall|i: int| 0 <= i < kept.len() - 1 implies kept.last().end_t
        - #[trigger] kept[i].end_t >= m by {
        if kept.len() == pushed.len() {
            assert(kept[i] == live[i]);
        } else {
            assert(kept[i] == live[i + pushed.len() - n]);
        }
    }
    lemma_trim_all_expired(kept, m);
}

fn advance(i: usize, len: usize) -> (r: usize)
    requires
        i < len,
    ensures
        r == slot(i as int, 1, len as int),
        r < len,
{
    if i + 1 == len {
        0
    } else {
        i + 1
    }
}

/// The ring. Slots from `read_index` up to `write_index` (excluded, wrapping) hold the live
/// items; one slot always stays free, so a ring of capacity `n` holds at most `n - 1`.
pub struct Lookback {
    maximum_packet_size_bytes: usize,
    maximum_duration_us: u64,
    maximum_size_bytes: usize,
    duration_us: u64,
    size_bytes: usize,
    read_index: usize,
    write_index: usize,
    items: Vec<LookbackItem>,
    default_state: DecoderState,
    current_configuration: u64,
}

impl Lookback {
    /// The live items, oldest first.
    pub closed spec fn live(self) -> Seq<LookbackItem> {
        ring_seq(
            self.items@,
            self.read_index as int,
            ring_count(self.read_index as int, self.write_index as int, self.items@.len() as int),
        )
    }

    /// The number of slots: the maximum size over the maximum packet size.
    pub closed spec fn capacity(self) -> nat {
        self.items@.len()
    }

    pub closed spec fn spec_maximum_duration_us(self) -> u64 {
        self.maximum_duration_us
    }

    pub closed spec fn spec_maximum_size_bytes(self) -> usize {
        self.maximum_size_bytes
    }

    pub closed spec fn spec_maximum_packet_size_bytes(self) -> usize {
        self.maximum_packet_size_bytes
    }

    pub closed spec fn spec_duration_us(self) -> u64 {
        self.duration_us
    }

    pub closed spec fn spec_size_bytes(self) -> usize {
        self.size_bytes
    }

    /// The configuration epoch that the next pushed item will carry.
    pub closed spec fn spec_current_configuration(self) -> u64 {
        self.current_configuration
    }

    /// Everything but the duration bound and the cached duration.
    closed spec fn wf_core(self) -> bool {
        let live = self.live();
        &&& self.items@.len() >= 2
        &&& self.read_index < self.items@.len()
        &&& self.write_index < self.items@.len()
        &&& self.maximum_packet_size_bytes > 0
        &&& self.items@.len() == self.maximum_size_bytes / self.maximum_packet_size_bytes
        &&& self.size_bytes == total_size(live)
        &&& sorted_by_end(live)
        &&& starts_before_ends(live)
        &&& forall|i: int| 0 <= i < live.len() ==> live[i].raw@.len() <= self.maximum_packet_size_bytes
    }

    /// The ring's invariant.
    pub closed spec fn wf(self) -> bool {
        let live = self.live();
        &&& self.wf_core()
        &&& live.len() >= 2 ==> live.last().end_t - live[0].end_t < self.maximum_duration_us
        &&& self.duration_us == duration_of(live)
    }

    proof fn lemma_live_len(self)
        requires
            self.read_index < self.items@.len(),
            self.write_index < self.items@.len(),
        ensures
            self.live().len() < self.items@.len(),
    {
    }

    fn default_item(&self) -> (r: LookbackItem) {
        LookbackItem {
            datetime_us: 0,
            system_time: 0,
            system_timestamp: 0,
            first_after_overflow: false,
            configuration: self.current_configuration,
            state: self.default_state,
            end_t: 0,
            raw: Vec::new(),
        }
    }

    pub fn new(
        maximum_duration_us: u64,
        maximum_size_bytes: usize,
        maximum_packet_size_bytes: usize,
        default_state: DecoderState,
        configuration: u64,
    ) -> (r: Lookback)
        requires
            maximum_packet_size_bytes > 0,
            maximum_size_bytes / maximum_packet_size_bytes >= 2,
        ensures
            r.wf(),
            r.live() == Seq::<LookbackItem>::empty(),
            r.capacity() == maximum_size_bytes / maximum_packet_size_bytes,
            r.spec_maximum_duration_us() == maximum_duration_us,
            r.spec_maximum_size_bytes() == maximum_size_bytes,
            r.spec_maximum_packet_size_bytes() == maximum_packet_size_bytes,
            r.spec_duration_us() == 0,
            r.spec_size_bytes() == 0,
            r.spec_current_configuration() == configuration,
    {
        let items_length = maximum_size_bytes / maximum_packet_size_bytes;
        let mut r = Lookback {
            maximum_packet_size_bytes,
            maximum_duration_us,
            maximum_size_bytes,
            duration_us: 0,
            size_bytes: 0,
            read_index: 0,
            write_index: 0,
            items: Vec::with_capacity(items_length),
            default_state,
            current_configuration: configuration,
        };
        while r.items.len() < items_length
            invariant
                r.items@.len() <= items_length,
                items_length == maximum_size_bytes / maximum_packet_size_bytes,
                r.maximum_packet_size_bytes == maximum_packet_size_bytes,
                r.maximum_duration_us == maximum_duration_us,
                r.maximum_size_bytes == maximum_size_bytes,
                r.duration_us == 0,
                r.size_bytes == 0,
                r.read_index == 0,
                r.write_index == 0,
                r.current_configuration == configuration,
            decreases items_length - r.items@.len(),
        {
            let item = r.default_item();
            r.items.push(item);
        }
        assert(r.live() =~= Seq::<LookbackItem>::empty());
        r
    }

    /// Drops the oldest items while the duration bound is exceeded, then recomputes the
    /// duration.
    fn trim_oldest(&mut self)
        requires
            old(self).wf_core(),
            old(self).live().len() >= 1,
        ensures
            final(self).wf(),
            final(self).live() == trim_to_duration(old(self).live(), old(self).maximum_duration_us),
            final(self).items@.len() == old(self).items@.len(),
            final(self).maximum_duration_us == old(self).maximum_duration_us,
            final(self).maximum_size_bytes == old(self).maximum_size_bytes,
            final(self).maximum_packet_size_bytes == old(self).maximum_packet_size_bytes,
            final(self).current_configuration == old(self).current_configuration,
            final(self).default_state == old(self).default_state,
    {
        let len = self.items.len();
        let last = if self.write_index == 0 {
            len - 1
        } else {
            self.write_index - 1
        };
        let end_t = self.items[last].end_t;
        assert(end_t == self.live().last().end_t);
        let ghost target = trim_to_duration(old(self).live(), old(self).maximum_duration_us);
        let ghost whole = old(self).live();
        let mut trimming = true;
        while trimming
            invariant
                self.wf_core(),
                self.items@ == old(self).items@,
                self.write_index == old(self).write_index,
                self.maximum_duration_us == old(self).maximum_duration_us,
                self.maximum_size_bytes == old(self).maximum_size_bytes,
                self.maximum_packet_size_bytes == old(self).maximum_packet_size_bytes,
                self.current_configuration == old(self).current_configuration,
                self.default_state == old(self).default_state,
                len == self.items@.len(),
                whole.len() >= self.live().len(),
                self.live().len() >= 1,
                self.live() == whole.subrange(whole.len() - self.live().len(), whole.len() as int),
                end_t == whole.last().end_t,
                self.live().last().end_t == end_t,
                trim_to_duration(self.live(), self.maximum_duration_us) == target,
                !trimming ==> self.live() == target,
                !trimming ==> (self.live().len() == 1 || end_t - self.live()[0].end_t
                    < self.maximum_duration_us),
            decreases self.live().len() + if trimming {
                1int
            } else {
                0int
            },
        {
            let live = Ghost(self.live());
            let ghost n = live@.len();
            let next = advance(self.read_index, len);
            if next == self.write_index {
                trimming = false;
            } else if end_t - self.items[self.read_index].end_t < self.maximum_duration_us {
                assert(live@[0] == self.items@[self.read_index as int]);
                trimming = false;
            } else {
                assert(live@[0] == self.items@[self.read_index as int]);
                proof {
                    lemma_total_size_first(live@);
                }
                self.size_bytes = self.size_bytes - self.items[self.read_index].raw.len();
                self.read_index = next;
                assert(self.live() =~= live@.drop_first());
                assert(live@ == whole.subrange(whole.len() - n, whole.len() as int));
                assert forall|i: int| 0 <= i < n - 1 implies #[trigger] live@.drop_first()[i]
                    == whole[whole.len() - (n - 1) + i] by {
                    assert(live@[i + 1] == whole[whole.len() - n + i + 1]);
                }
                assert(live@.drop_first() =~= whole.subrange(
                    whole.len() - (n - 1),
                    whole.len() as int,
                ));
                assert(self.live().last() == live@.last());
            }
        }
        let first = self.read_index;
        assert(self.live()[0] == self.items@[first as int]);
        assert(self.live()[0].end_t <= self.live().last().end_t);
        self.duration_us = end_t - self.items[first].state.t;
    }

    /// Sets a new duration bound and drops the items that it excludes; the layout of the
    /// ring is not touched.
    pub fn update_maximum_duration_us(&mut self, new_maximum_duration_us: u64)
        requires
            old(self).wf(),
        ensures
            final(self).wf(),
            final(self).live() == trim_to_duration(old(self).live(), new_maximum_duration_us),
            final(self).capacity() == old(self).capacity(),
            final(self).spec_maximum_duration_us() == new_maximum_duration_us,
            final(self).spec_maximum_size_bytes() == old(self).spec_maximum_size_bytes(),
            final(self).spec_maximum_packet_size_bytes() == old(self).spec_maximum_packet_size_bytes(),
            final(self).spec_current_configuration() == old(self).spec_current_configuration(),
    {
        self.maximum_duration_us = new_maximum_duration_us;
        assert(self.live() == old(self).live());
        if self.read_index != self.write_index {
            self.trim_oldest();
        } else {
            assert(self.live().len() == 0);
        }
    }

    /// Sets a new size bound. Where it changes the capacity, the newest
    /// `min(live count, new capacity - 1)` items move, in order, to a new array.
    pub fn update_maximum_size_bytes(&mut self, new_maximum_size_bytes: usize)
        requires
            old(self).wf(),
            new_maximum_size_bytes / old(self).spec_maximum_packet_size_bytes() >= 2,
        ensures
            final(self).wf(),
            final(self).capacity() == new_maximum_size_bytes / old(self).spec_maximum_packet_size_bytes(),
            final(self).live() == keep_newest(old(self).live(), final(self).capacity() - 1),
            final(self).live().len() == if old(self).live().len() < final(self).capacity() - 1 {
                old(self).live().len() as int
            } else {
                final(self).capacity() - 1
            },
            final(self).live() == old(self).live().subrange(
                old(self).live().len() - final(self).live().len(),
                old(self).live().len() as int,
            ),
            final(self).spec_maximum_duration_us() == old(self).spec_maximum_duration_us(),
            final(self).spec_maximum_size_bytes() == new_maximum_size_bytes,
            final(self).spec_maximum_packet_size_bytes() == old(self).spec_maximum_packet_size_bytes(),
            final(self).spec_current_configuration() == old(self).spec_current_configuration(),
    {
        self.maximum_size_bytes = new_maximum_size_bytes;
        let new_items_length = new_maximum_size_bytes / self.maximum_packet_size_bytes;
        let len = self.items.len();
        if new_items_length == len {
            assert(self.live() == old(self).live());
            assert(self.live() =~= self.live().subrange(0, self.live().len() as int));
            return ;
        }
        let ghost live = old(self).live();
        let live_count = if self.write_index >= self.read_index {
            self.write_index - self.read_index
        } else {
            len - self.read_index + self.write_index
        };
        let count = if new_items_length - 1 < live_count {
            new_items_length - 1
        } else {
            live_count
        };
        let write = self.write_index;
        let ghost kept = keep_newest(live, count as int);
        let ghost start = if write >= count {
            write - count
        } else {
            len - count + write
        };
        let mut old_items: Vec<LookbackItem> = Vec::new();
        std::mem::swap(&mut old_items, &mut self.items);
        let mut new_items = newest_items(old_items, write, count);
        assert(new_items@ =~= kept) by {
            assert forall|i: int| 0 <= i < count implies new_items@[i] == kept[i] by {
                assert(slot(start, i, len as int) == slot(
                    old(self).read_index as int,
                    live.len() - count + i,
                    len as int,
                ));
            }
        }
        proof {
            lemma_total_size_bound(kept, self.maximum_packet_size_bytes as nat);
            old(self).lemma_capacity_bytes();
            assert(count * self.maximum_packet_size_bytes <= len * self.maximum_packet_size_bytes)
                by (nonlinear_arith)
                requires
                    count <= len,
            ;
            assert(new_items@.subrange(0, count as int) =~= kept);
        }
        let size_bytes = sum_sizes(&new_items, count);
        let ghost current_configuration = self.current_configuration;
        while new_items.len() < new_items_length
            invariant
                count <= new_items@.len() <= new_items_length,
                new_items@.subrange(0, count as int) == kept,
                self.current_configuration == current_configuration,
            decreases new_items_length - new_items@.len(),
        {
            let item = self.default_item();
            let ghost before = new_items@;
            new_items.push(item);
            assert(new_items@.subrange(0, count as int) =~= before.subrange(0, count as int));
        }
        self.items = new_items;
        self.read_index = 0;
        self.write_index = count;
        self.size_bytes = size_bytes;
        assert(self.live() =~= kept);
        assert(kept =~= live.subrange(live.len() - count, live.len() as int));
        if count == 0 {
            self.duration_us = 0;
        } else {
            assert(self.live()[0] == self.items@[0]);
            assert(self.live().last() == self.items@[count - 1]);
            assert(kept.last() == live.last());
            self.duration_us = self.items[count - 1].end_t - self.items[0].state.t;
        }
    }

    /// Appends one USB buffer. Where the ring is full the oldest item leaves; then the
    /// oldest items leave while the duration bound is exceeded.
    #[verifier::rlimit(40)]
    pub fn push(
        &mut self,
        datetime_us: i64,
        system_time: u64,
        system_timestamp: u64,
        first_after_overflow: bool,
        state: DecoderState,
        end_t: u64,
        buffer: &[u8],
        new_configuration: bool,
    )
        requires
            old(self).wf(),
            buffer@.len() <= old(self).spec_maximum_packet_size_bytes(),
            state.t <= end_t,
            old(self).live().len() >= 1 ==> old(self).live().last().end_t <= end_t,
        ensures
            final(self).wf(),
            final(self).spec_current_configuration() == if new_configuration {
                old(self).spec_current_configuration().wrapping_add(1)
            } else {
                old(self).spec_current_configuration()
            },
            final(self).live().len() >= 1,
            item_holds(
                final(self).live().last(),
                datetime_us,
                system_time,
                system_timestamp,
                first_after_overflow,
                final(self).spec_current_configuration(),
                state,
                end_t,
                buffer@,
            ),
            final(self).live() == trim_to_duration(
                keep_newest(old(self).live().push(final(self).live().last()), old(self).capacity() - 1),
                old(self).spec_maximum_duration_us(),
            ),
            (forall|i: int|
                0 <= i < old(self).live().len() ==> end_t - #[trigger] old(self).live()[i].end_t
                    >= old(self).spec_maximum_duration_us()) ==> final(self).live().len() == 1
                && final(self).spec_duration_us() == end_t - state.t,
            final(self).capacity() == old(self).capacity(),
            final(self).spec_maximum_duration_us() == old(self).spec_maximum_duration_us(),
            final(self).spec_maximum_size_bytes() == old(self).spec_maximum_size_bytes(),
            final(self).spec_maximum_packet_size_bytes() == old(self).spec_maximum_packet_size_bytes(),
    {
        let len = self.items.len();
        let write = self.write_index;
        let ghost live = old(self).live();
        proof {
            self.lemma_live_len();
        }
        let mut raw: Vec<u8> = Vec::new();
        let mut k: usize = 0;
        while k < buffer.len()
            invariant
                k <= buffer@.len(),
                raw@ == buffer@.subrange(0, k as int),
            decreases buffer@.len() - k,
        {
            raw.push(buffer[k]);
            k = k + 1;
            assert(raw@ =~= buffer@.subrange(0, k as int));
        }
        assert(buffer@.subrange(0, buffer@.len() as int) =~= buffer@);
        if new_configuration {
            self.current_configuration = self.current_configuration.wrapping_add(1);
        }
        let item = LookbackItem {
            datetime_us,
            system_time,
            system_timestamp,
            first_after_overflow,
            configuration: self.current_configuration,
            state,
            end_t,
            raw,
        };
        let ghost new_item = item;
        proof {
            lemma_total_size_bound(live, self.maximum_packet_size_bytes as nat);
            self.lemma_capacity_bytes();
            assert(live.len() * self.maximum_packet_size_bytes + self.maximum_packet_size_bytes
                <= len * self.maximum_packet_size_bytes) by (nonlinear_arith)
                requires
                    live.len() + 1 <= len,
            ;
        }
        self.items.set(write, item);
        self.size_bytes = self.size_bytes + buffer.len();
        self.write_index = advance(write, len);
        let ghost pushed = live.push(new_item);
        assert(pushed.drop_last() =~= live);
        assert(self.items@ == old(self).items@.update(write as int, new_item));
        if self.write_index == self.read_index {
            assert(self.live().len() == 0);
            assert(pushed[0] == self.items@[self.read_index as int]);
            proof {
                lemma_total_size_first(pushed);
            }
            self.size_bytes = self.size_bytes - self.items[self.read_index].raw.len();
            self.read_index = advance(self.read_index, len);
            assert(self.live() =~= pushed.drop_first());
            assert(pushed.drop_first() =~= keep_newest(pushed, len - 1));
        } else {
            assert(self.live() =~= pushed);
            assert(keep_newest(pushed, len - 1) == pushed);
        }
        let ghost kept = self.live();
        self.trim_oldest();
        proof {
            lemma_trim_suffix(kept, self.maximum_duration_us);
            assert(self.live().last() == kept.last());
            if forall|i: int|
                0 <= i < live.len() ==> end_t - #[trigger] live[i].end_t
                    >= self.maximum_duration_us {
                lemma_push_expired(live, new_item, len - 1, self.maximum_duration_us);
            }
        }
    }

    pub fn state(&self) -> (r: LookbackState)
        ensures
            r.maximum_duration_us == self.spec_maximum_duration_us(),
            r.duration_us == self.spec_duration_us(),
            r.size_bytes == self.spec_size_bytes(),
    {
        LookbackState {
            maximum_duration_us: self.maximum_duration_us,
            duration_us: self.duration_us,
            size_bytes: self.size_bytes,
        }
    }

    /// The configuration epoch that the next pushed item will carry.
    pub fn current_configuration(&self) -> (r: u64)
        ensures
            r == self.spec_current_configuration(),
    {
        self.current_configuration
    }

    pub fn maximum_duration_us(&self) -> (r: u64)
        ensures
            r == self.spec_maximum_duration_us(),
    {
        self.maximum_duration_us
    }

    pub fn maximum_size_bytes(&self) -> (r: usize)
        ensures
            r == self.spec_maximum_size_bytes(),
    {
        self.maximum_size_bytes
    }

    pub fn maximum_packet_size_bytes(&self) -> (r: usize)
        ensures
            r == self.spec_maximum_packet_size_bytes(),
    {
        self.maximum_packet_size_bytes
    }

    pub fn duration_us(&self) -> (r: u64)
        ensures
            r == self.spec_duration_us(),
    {
        self.duration_us
    }

    pub fn size_bytes(&self) -> (r: usize)
        ensures
            r == self.spec_size_bytes(),
    {
        self.size_bytes
    }

    /// The number of live items.
    pub fn len(&self) -> (r: usize)
        requires
            self.wf(),
        ensures
            r == self.live().len(),
    {
        if self.write_index >= self.read_index {
            self.write_index - self.read_index
        } else {
            self.items.len() - self.read_index + self.write_index
        }
    }

    pub fn is_empty(&self) -> (r: bool)
        requires
            self.wf(),
        ensures
            r == (self.live().len() == 0),
    {
        self.read_index == self.write_index
    }

    /// The `k`-th live item, oldest first.
    pub fn item(&self, k: usize) -> (r: &LookbackItem)
        requires
            self.wf(),
            k < self.live().len(),
        ensures
            *r == self.live()[k as int],
    {
        let len = self.items.len();
        let index = if k < len - self.read_index {
            self.read_index + k
        } else {
            k - (len - self.read_index)
        };
        &self.items[index]
    }

    /// Whether the configuration changed between the `k - 1`-th and the `k`-th live item:
    /// where it did, a recording that takes over the ring writes a configuration update
    /// before the `k`-th item.
    pub fn configuration_changed_at(&self, k: usize) -> (r: bool)
        requires
            self.wf(),
            k < self.live().len(),
        ensures
            r == (k > 0 && self.live()[k - 1].configuration != self.live()[k as int].configuration),
    {
        if k == 0 {
            false
        } else {
            self.item(k - 1).configuration != self.item(k).configuration
        }
    }

    /// Every ring that its operations produce stays within its bounds: its bytes within the
    /// maximum size (at least one packet's worth below it), its duration within the
    /// maximum duration plus the span of its oldest item, its items in the order of their
    /// end times, and its cached size and duration equal to what its items hold.
    pub proof fn lemma_bounds(self)
        requires
            self.wf(),
        ensures
            self.spec_size_bytes() <= (self.capacity() - 1) * self.spec_maximum_packet_size_bytes(),
            (self.capacity() - 1) * self.spec_maximum_packet_size_bytes()
                <= self.spec_maximum_size_bytes(),
            self.spec_size_bytes() + self.spec_maximum_packet_size_bytes()
                <= self.spec_maximum_size_bytes(),
            self.spec_size_bytes() == total_size(self.live()),
            self.spec_duration_us() == duration_of(self.live()),
            self.live().len() >= 1 ==> self.spec_duration_us() <= self.spec_maximum_duration_us()
                + (self.live()[0].end_t - self.live()[0].state.t),
            sorted_by_end(self.live()),
            self.live().len() < self.capacity(),
    {
        let m = self.maximum_packet_size_bytes;
        let n = self.live().len();
        let c = self.items@.len();
        lemma_total_size_bound(self.live(), m as nat);
        self.lemma_capacity_bytes();
        assert(n * m + m <= c * m && n * m <= (c - 1) * m && (c - 1) * m + m == c * m)
            by (nonlinear_arith)
            requires
                n + 1 <= c,
        ;
    }

    proof fn lemma_capacity_bytes(self)
        requires
            self.maximum_packet_size_bytes > 0,
            self.items@.len() == self.maximum_size_bytes / self.maximum_packet_size_bytes,
        ensures
            self.items@.len() * self.maximum_packet_size_bytes <= self.maximum_size_bytes,
    {
        vstd::arithmetic::div_mod::lemma_fundamental_div_mod(
            self.maximum_size_bytes as int,
            self.maximum_packet_size_bytes as int,
        );
        vstd::arithmetic::div_mod::lemma_mod_pos_bound(
            self.maximum_size_bytes as int,
            self.maximum_packet_size_bytes as int,
        );
        vstd::arithmetic::mul::lemma_mul_is_commutative(
            self.items@.len() as int,
            self.maximum_packet_size_bytes as int,
        );
    }
}

/// The `count` items that end just before slot `write`, in ring order.
fn newest_items(items: Vec<LookbackItem>, write: usize, count: usize) -> (r: Vec<LookbackItem>)
    requires
        write < items@.len(),
        count < items@.len(),
    ensures
        r@ == Seq::new(
            count as nat,
            |i: int|
                items@[slot(
                    if write >= count {
                        write - count
                    } else {
                        items@.len() - count + write
                    },
                    i,
                    items@.len() as int,
                )],
        ),
{
    let len = items.len();
    let mut items = items;
    if write >= count {
        let ghost all = items@;
        let mut r = items.split_off(write - count);
        r.truncate(count);
        assert(r@ =~= Seq::new(count as nat, |i: int| all[slot((write - count) as int, i, len as int)]));
        r
    } else {
        let start = len - count + write;
        let ghost all = items@;
        let mut r = items.split_off(start);
        items.truncate(write);
        r.append(&mut items);
        assert(r@ =~= Seq::new(count as nat, |i: int| all[slot(start as int, i, len as int)]));
        r
    }
}

/// The bytes held by the first `count` items.
fn sum_sizes(items: &Vec<LookbackItem>, count: usize) -> (r: usize)
    requires
        count <= items@.len(),
        total_size(items@.subrange(0, count as int)) <= usize::MAX,
    ensures
        r == total_size(items@.subrange(0, count as int)),
{
    let ghost s = items@.subrange(0, count as int);
    let mut r: usize = 0;
    let mut k: usize = 0;
    while k < count
        invariant
            k <= count,
            count <= items@.len(),
            s == items@.subrange(0, count as int),
            r == total_size(s.subrange(0, k as int)),
            total_size(s) <= usize::MAX,
        decreases count - k,
    {
        proof {
            lemma_total_size_prefix(s, k as int);
        }
        r = r + items[k].raw.len();
        k = k + 1;
    }
    assert(s.subrange(0, count as int) =~= s);
    r
}

proof fn lemma_total_size_prefix(s: Seq<LookbackItem>, k: int)
    requires
        0 <= k < s.len(),
    ensures
        total_size(s.subrange(0, k + 1)) == total_size(s.subrange(0, k)) + s[k].raw@.len(),
        total_size(s.subrange(0, k + 1)) <= total_size(s),
    decreases s.len(),
{
    assert(s.subrange(0, k + 1).drop_last() =~= s.subrange(0, k));
    if k + 1 < s.len() {
        lemma_total_size_prefix(s.drop_last(), k);
        assert(s.drop_last().subrange(0, k + 1) =~= s.subrange(0, k + 1));
    } else {
        assert(s.subrange(0, k + 1) =~= s);
    }
}

/// Brings a device's ring in line with its lookback settings, once per tick: creates it
/// when lookback is turned on, applies a new duration, then a new size, and drops it when
/// lookback is turned off.
pub fn reconcile_lookback(
    ring: &mut Option<Lookback>,
    setting: &control::Lookback,
    maximum_packet_size_bytes: usize,
    default_state: DecoderState,
    configuration: u64,
)
    requires
        maximum_packet_size_bytes > 0,
        setting.enabled ==> setting.maximum_size_bytes / maximum_packet_size_bytes >= 2,
        *old(ring) matches Some(l) ==> l.wf() && l.spec_maximum_packet_size_bytes()
            == maximum_packet_size_bytes,
    ensures
        final(ring).is_some() == setting.enabled,
        *final(ring) matches Some(l) ==> {
            &&& l.wf()
            &&& l.spec_maximum_duration_us() == setting.maximum_duration_us
            &&& l.spec_maximum_size_bytes() == setting.maximum_size_bytes
            &&& l.spec_maximum_packet_size_bytes() == maximum_packet_size_bytes
            &&& l.capacity() == setting.maximum_size_bytes / maximum_packet_size_bytes
            &&& l.live() == match *old(ring) {
                Some(o) => keep_newest(
                    trim_to_duration(o.live(), setting.maximum_duration_us),
                    l.capacity() - 1,
                ),
                None => Seq::<LookbackItem>::empty(),
            }
        },
{
    if !setting.enabled {
        *ring = None;
        return ;
    }
    match ring {
        Some(lookback) => {
            lookback.update_maximum_duration_us(setting.maximum_duration_us);
            let ghost trimmed = lookback.live();
            if lookback.maximum_size_bytes() != setting.maximum_size_bytes {
                lookback.update_maximum_size_bytes(setting.maximum_size_bytes);
            } else {
                proof {
                    lookback.lemma_bounds();
                    vstd::arithmetic::div_mod::lemma_fundamental_div_mod(
                        lookback.maximum_size_bytes as int,
                        lookback.maximum_packet_size_bytes as int,
                    );
                }
                assert(keep_newest(trimmed, lookback.capacity() - 1) == trimmed);
            }
        },
        None => {
            *ring = Some(
                Lookback::new(
                    setting.maximum_duration_us,
                    setting.maximum_size_bytes,
                    maximum_packet_size_bytes,
                    default_state,
                    configuration,
                ),
            );
        },
    }
}

} // verus!
