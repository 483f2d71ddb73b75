//! A pool of reusable byte buffers. Producers take a buffer, fill it and hand it on; the
//! receiver gives it back. An empty pool makes the producer drop the data rather than
//! allocate. Capacity that stayed unused over a time window is released.
use vstd::prelude::*;

verus! {

pub struct Stack {
    inner: Vec<Vec<u8>>,
    shrunk: usize,
    latest_minimum_us: u64,
    minimum_time_window_us: u64,
    minimum_samples: Vec<usize>,
    minimum_samples_index: usize,
    initial_length: Ghost<nat>,
    popped: Ghost<nat>,
    pushed: Ghost<nat>,
}

/// The smallest of the samples.
pub open spec fn seq_min(s: Seq<usize>) -> int
    decreases s.len(),
{
    if s.len() == 0 {
        0
    } else if s.len() == 1 {
        s[0] as int
    } else {
        let m = seq_min(s.drop_last());
        if s.last() < m {
            s.last() as int
        } else {
            m
        }
    }
}

/// The number of whole time windows of `window_us` from `latest_us` to `now_us`.
pub open spec fn windows_elapsed(latest_us: u64, window_us: u64, now_us: u64) -> nat {
    if now_us >= latest_us && window_us > 0 {
        ((now_us - latest_us) / (window_us as int)) as nat
    } else {
        0
    }
}

/// The samples after `k` more windows ended, each recording the pool length `length` in the
/// slot after the current one (wrapping), with the new current slot.
pub open spec fn advance_samples(samples: Seq<usize>, slot: int, k: nat, length: usize) -> (
    Seq<usize>,
    int,
)
    decreases k,
{
    if k == 0 {
        (samples, slot)
    } else {
        let (before, current) = advance_samples(samples, slot, (k - 1) as nat, length);
        let next = if current + 1 == before.len() {
            0
        } else {
            current + 1
        };
        (before.update(next, length), next)
    }
}

impl Stack {
    /// The pool length recorded for each time window, as slots.
    pub closed spec fn samples(self) -> Seq<usize> {
        self.minimum_samples@
    }

    /// The slot of the current time window.
    pub closed spec fn sample_slot(self) -> int {
        self.minimum_samples_index as int
    }

    /// The start of the current time window.
    pub closed spec fn window_start_us(self) -> u64 {
        self.latest_minimum_us
    }

    pub closed spec fn window_us(self) -> u64 {
        self.minimum_time_window_us
    }

    /// The samples once the windows that ended by `now_us` are recorded.
    pub open spec fn samples_at(self, now_us: u64) -> (Seq<usize>, int) {
        advance_samples(
            self.samples(),
            self.sample_slot(),
            windows_elapsed(self.window_start_us(), self.window_us(), now_us),
            self.pool().len() as usize,
        )
    }

    /// The buffers in the pool, the next one to leave last.
    pub closed spec fn pool(self) -> Seq<Vec<u8>> {
        self.inner@
    }

    /// The pool size at creation.
    pub closed spec fn initial_length(self) -> nat {
        self.initial_length@
    }

    /// How many buffers `pop` has handed out since creation.
    pub closed spec fn popped(self) -> nat {
        self.popped@
    }

    /// How many buffers `push` has taken back since creation.
    pub closed spec fn pushed(self) -> nat {
        self.pushed@
    }

    /// The buffers below this position have had their capacity released, or have been
    /// handed out since.
    pub closed spec fn frontier(self) -> nat {
        self.shrunk as nat
    }

    /// The smallest pool length seen over the recorded time windows.
    pub closed spec fn running_minimum(self) -> int {
        seq_min(self.minimum_samples@)
    }

    pub closed spec fn wf(self) -> bool {
        &&& self.minimum_samples@.len() >= 1
        &&& self.minimum_samples_index < self.minimum_samples@.len()
        &&& self.minimum_samples@[self.minimum_samples_index as int] <= self.inner@.len()
        &&& self.shrunk <= self.inner@.len()
        &&& self.minimum_time_window_us > 0
        &&& self.inner@.len() + self.popped@ == self.initial_length@ + self.pushed@
    }

    /// A pool of `length` empty buffers. `now_us` is the current time, in microseconds
    /// since any fixed reference.
    pub fn new(length: usize, minimum_time_window_us: u64, minimum_samples: usize, now_us: u64) -> (r:
        Stack)
        requires
            minimum_time_window_us > 0,
            minimum_samples >= 1,
        ensures
            r.wf(),
            r.pool().len() == length,
            forall|i: int| 0 <= i < length ==> (#[trigger] r.pool()[i])@.len() == 0,
            r.initial_length() == length,
            r.popped() == 0,
            r.pushed() == 0,
            r.frontier() == length,
            r.running_minimum() == length,
    {
        let mut inner: Vec<Vec<u8>> = Vec::with_capacity(length);
        while inner.len() < length
            invariant
                inner@.len() <= length,
                forall|i: int| 0 <= i < inner@.len() ==> (#[trigger] inner@[i])@.len() == 0,
            decreases length - inner@.len(),
        {
            inner.push(Vec::new());
        }
        let mut samples: Vec<usize> = Vec::with_capacity(minimum_samples);
        while samples.len() < minimum_samples
            invariant
                samples@.len() <= minimum_samples,
                forall|i: int| 0 <= i < samples@.len() ==> #[trigger] samples@[i] == length,
            decreases minimum_samples - samples@.len(),
        {
            samples.push(length);
        }
        proof {
            lemma_seq_min_constant(samples@, length);
        }
        Stack {
            inner,
            shrunk: length,
            latest_minimum_us: now_us,
            minimum_time_window_us,
            minimum_samples: samples,
            minimum_samples_index: 0,
            initial_length: Ghost(length as nat),
            popped: Ghost(0),
            pushed: Ghost(0),
        }
    }

    /// Records the pool length once for each time window that has ended by `now_us`.
    fn update_samples(&mut self, now_us: u64)
        requires
            old(self).wf(),
        ensures
            final(self).wf(),
            final(self).inner@ == old(self).inner@,
            final(self).shrunk == old(self).shrunk,
            final(self).initial_length == old(self).initial_length,
            final(self).popped == old(self).popped,
            final(self).pushed == old(self).pushed,
            (final(self).samples(), final(self).sample_slot()) == old(self).samples_at(now_us),
            final(self).window_us() == old(self).window_us(),
    {
        let ghost mut done: nat = 0;
        let pool_length = self.inner.len();
        while now_us >= self.latest_minimum_us && now_us - self.latest_minimum_us
            >= self.minimum_time_window_us
            invariant
                self.wf(),
                self.inner@ == old(self).inner@,
                self.shrunk == old(self).shrunk,
                self.initial_length == old(self).initial_length,
                self.popped == old(self).popped,
                self.pushed == old(self).pushed,
                self.minimum_time_window_us == old(self).minimum_time_window_us,
                pool_length == old(self).inner@.len(),
                self.latest_minimum_us == old(self).latest_minimum_us + done
                    * old(self).minimum_time_window_us,
                done > 0 ==> self.latest_minimum_us <= now_us,
                (self.minimum_samples@, self.minimum_samples_index as int) == advance_samples(
                    old(self).minimum_samples@,
                    old(self).minimum_samples_index as int,
                    done,
                    pool_length,
                ),
            decreases now_us - self.latest_minimum_us,
        {
            proof {
                let w = old(self).minimum_time_window_us as int;
                assert((done + 1) * w == done * w + w) by (nonlinear_arith);
            }
            let samples_length = self.minimum_samples.len();
            self.minimum_samples_index = if self.minimum_samples_index == samples_length - 1 {
                0
            } else {
                self.minimum_samples_index + 1
            };
            let length = self.inner.len();
            self.minimum_samples.set(self.minimum_samples_index, length);
            self.latest_minimum_us = self.latest_minimum_us + self.minimum_time_window_us;
            proof {
                done = done + 1;
            }
        }
        proof {
            let w = old(self).minimum_time_window_us as int;
            let start = old(self).latest_minimum_us as int;
            if now_us >= start {
                assert(done * w <= now_us - start < (done + 1) * w) by (nonlinear_arith)
                    requires
                        self.latest_minimum_us == start + done * w,
                        now_us < self.latest_minimum_us || now_us - self.latest_minimum_us < w,
                        done > 0 ==> self.latest_minimum_us <= now_us,
                        now_us >= start,
                        w > 0,
                ;
                assert((now_us - start) / w == done as int) by (nonlinear_arith)
                    requires
                        done * w <= now_us - start < (done + 1) * w,
                        w > 0,
                ;
            } else {
                assert(done == 0) by (nonlinear_arith)
                    requires
                        self.latest_minimum_us == start + done * w,
                        done > 0 ==> self.latest_minimum_us <= now_us,
                        now_us < start,
                        w > 0,
                ;
            }
        }
    }

    /// Gives a buffer back to the pool.
    pub fn push(&mut self, buffer: Vec<u8>, now_us: u64)
        requires
            old(self).wf(),
        ensures
            final(self).wf(),
            final(self).pool() == old(self).pool().push(buffer),
            final(self).initial_length() == old(self).initial_length(),
            final(self).popped() == old(self).popped(),
            final(self).pushed() == old(self).pushed() + 1,
            final(self).frontier() == old(self).frontier(),
            (final(self).samples(), final(self).sample_slot()) == old(self).samples_at(now_us),
    {
        self.update_samples(now_us);
        self.inner.push(buffer);
        self.pushed = Ghost(self.pushed@ + 1);
    }

    /// Takes the top buffer, if any.
    pub fn pop(&mut self, now_us: u64) -> (r: Option<Vec<u8>>)
        requires
            old(self).wf(),
        ensures
            final(self).wf(),
            old(self).pool().len() == 0 ==> r.is_none() && final(self).pool() == old(self).pool()
                && final(self).popped() == old(self).popped(),
            old(self).pool().len() > 0 ==> r == Some(old(self).pool().last()) && final(self).pool()
                == old(self).pool().drop_last() && final(self).popped() == old(self).popped() + 1,
            final(self).initial_length() == old(self).initial_length(),
            final(self).pushed() == old(self).pushed(),
            final(self).sample_slot() == old(self).samples_at(now_us).1,
            old(self).pool().len() == 0 ==> final(self).frontier() == old(self).frontier()
                && final(self).samples() == old(self).samples_at(now_us).0,
            old(self).pool().len() > 0 ==> {
                let length = (old(self).pool().len() - 1) as usize;
                let (samples, slot) = old(self).samples_at(now_us);
                &&& final(self).frontier() == if length < old(self).frontier() {
                    length as nat
                } else {
                    old(self).frontier()
                }
                &&& final(self).samples() == samples.update(
                    slot,
                    if length < samples[slot] {
                        length
                    } else {
                        samples[slot]
                    },
                )
            },
    {
        self.update_samples(now_us);
        let buffer = self.inner.pop();
        if buffer.is_some() {
            let length = self.inner.len();
            if length < self.shrunk {
                self.shrunk = length;
            }
            let index = self.minimum_samples_index;
            if length < self.minimum_samples[index] {
                self.minimum_samples.set(index, length);
            }
            self.popped = Ghost(self.popped@ + 1);
        }
        buffer
    }

    /// Releases the capacity of the buffers that stayed in the pool over all recorded
    /// windows and are not released yet.
    pub fn shrink_unused(&mut self, now_us: u64)
        requires
            old(self).wf(),
        ensures
            final(self).wf(),
            final(self).pool().len() == old(self).pool().len(),
            final(self).frontier() == if final(self).running_minimum() > old(self).frontier() {
                final(self).running_minimum()
            } else {
                old(self).frontier() as int
            },
            forall|i: int|
                #![trigger final(self).pool()[i]]
                0 <= i < old(self).pool().len() && old(self).frontier() <= i < final(self).frontier()
                    ==> final(self).pool()[i]@.len() == 0,
            forall|i: int|
                #![trigger final(self).pool()[i]]
                0 <= i < old(self).pool().len() && !(old(self).frontier() <= i < final(self).frontier())
                    ==> final(self).pool()[i] == old(self).pool()[i],
            final(self).initial_length() == old(self).initial_length(),
            final(self).popped() == old(self).popped(),
            final(self).pushed() == old(self).pushed(),
            (final(self).samples(), final(self).sample_slot()) == old(self).samples_at(now_us),
            final(self).running_minimum() == seq_min(old(self).samples_at(now_us).0),
    {
        self.update_samples(now_us);
        let running_minimum = self.running_minimum_now();
        if running_minimum > self.shrunk {
            let ghost samples = self.minimum_samples@;
            let ghost slot = self.minimum_samples_index;
            let mut i: usize = self.shrunk;
            while i < running_minimum
                invariant
                    self.wf(),
                    old(self).shrunk <= i <= running_minimum,
                    running_minimum <= self.inner@.len(),
                    self.inner@.len() == old(self).inner@.len(),
                    self.shrunk == old(self).shrunk,
                    self.minimum_samples@ == samples,
                    self.minimum_samples_index == slot,
                    running_minimum == seq_min(self.minimum_samples@),
                    self.initial_length == old(self).initial_length,
                    self.popped == old(self).popped,
                    self.pushed == old(self).pushed,
                    forall|k: int|
                        #![trigger self.inner@[k]]
                        0 <= k < old(self).inner@.len() && old(self).shrunk <= k < i
                            ==> self.inner@[k]@.len() == 0,
                    forall|k: int|
                        #![trigger self.inner@[k]]
                        0 <= k < old(self).inner@.len() && !(old(self).shrunk <= k < i)
                            ==> self.inner@[k] == old(self).inner@[k],
                decreases running_minimum - i,
            {
                self.inner.set(i, Vec::new());
                i = i + 1;
            }
            self.shrunk = running_minimum;
        }
    }

    /// The smallest recorded sample.
    fn running_minimum_now(&self) -> (r: usize)
        requires
            self.wf(),
        ensures
            r == self.running_minimum(),
            r <= self.inner@.len(),
    {
        let mut m = self.minimum_samples[0];
        let mut k: usize = 1;
        proof {
            assert(self.minimum_samples@.subrange(0, 1).drop_last().len() == 0);
        }
        while k < self.minimum_samples.len()
            invariant
                1 <= k <= self.minimum_samples@.len(),
                m == seq_min(self.minimum_samples@.subrange(0, k as int)),
            decreases self.minimum_samples@.len() - k,
        {
            let ghost s = self.minimum_samples@.subrange(0, k as int + 1);
            assert(s.drop_last() =~= self.minimum_samples@.subrange(0, k as int));
            if self.minimum_samples[k] < m {
                m = self.minimum_samples[k];
            }
            k = k + 1;
        }
        assert(self.minimum_samples@.subrange(0, k as int) =~= self.minimum_samples@);
        proof {
            lemma_seq_min_le(self.minimum_samples@, self.minimum_samples_index as int);
        }
        m
    }

    /// Buffers handed out and not given back never outnumber the pool's initial size: the
    /// pool cannot leak more than it was given.
    pub proof fn lemma_outstanding_bounded(self)
        requires
            self.wf(),
        ensures
            self.popped() <= self.initial_length() + self.pushed(),
            self.pool().len() == self.initial_length() + self.pushed() - self.popped(),
    {
    }
}

proof fn lemma_seq_min_constant(s: Seq<usize>, v: usize)
    requires
        s.len() >= 1,
        forall|i: int| 0 <= i < s.len() ==> #[trigger] s[i] == v,
    ensures
        seq_min(s) == v,
    decreases s.len(),
{
    if s.len() > 1 {
        lemma_seq_min_constant(s.drop_last(), v);
    }
}

proof fn lemma_seq_min_le(s: Seq<usize>, i: int)
    requires
        0 <= i < s.len(),
    ensures
        seq_min(s) <= s[i],
    decreases s.len(),
{
    if s.len() > 1 && i < s.len() - 1 {
        lemma_seq_min_le(s.drop_last(), i);
    }
}

} // verus!
