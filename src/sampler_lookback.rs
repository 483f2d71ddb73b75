//! The sampler's lookback ring: the newest samples over a duration, written at the start of
//! a samples file so that it covers the same lookback as the events.
use vstd::prelude::*;

use crate::format::Evk4FileSample;
use crate::lookback::{ring_count, slot, LookbackState};

verus! {

/// The sampling period of the sampler, in microseconds.
pub const SAMPLING_PERIOD_US: u64 = 100_000;

/// The number of slots for a duration: one more than the samples it spans, rounded up.
pub open spec fn sampler_capacity(maximum_duration_us: u64) -> int {
    1 + (maximum_duration_us - 1) / (SAMPLING_PERIOD_US as int)
}

/// At most the `n` newest samples of `s`, in order.
pub open spec fn newest_samples(s: Seq<Evk4FileSample>, n: int) -> Seq<Evk4FileSample> {
    if s.len() <= n {
        s
    } else {
        s.subrange(s.len() - n, s.len() as int)
    }
}

pub struct SamplerLookback {
    maximum_duration_us: u64,
    read_index: usize,
    write_index: usize,
    items: Vec<Evk4FileSample>,
    default_sample: Evk4FileSample,
}

fn next_slot(i: usize, len: usize) -> (r: usize)
    requires
        i < len,
    ensures
        r == slot(i as int, 1, len as int),
{
    if i + 1 == len {
        0
    } else {
        i + 1
    }
}

fn capacity_for(maximum_duration_us: u64) -> (r: usize)
    requires
        maximum_duration_us >= 1,
        sampler_capacity(maximum_duration_us) <= usize::MAX,
    ensures
        r == sampler_capacity(maximum_duration_us),
{
    (1 + (maximum_duration_us - 1) / SAMPLING_PERIOD_US) as usize
}

impl SamplerLookback {
    /// The live samples, oldest first.
    pub closed spec fn live(self) -> Seq<Evk4FileSample> {
        let len = self.items@.len() as int;
        Seq::new(
            ring_count(self.read_index as int, self.write_index as int, len) as nat,
            |i: int| self.items@[slot(self.read_index as int, i, len)],
        )
    }

    pub closed spec fn capacity(self) -> nat {
        self.items@.len()
    }

    pub closed spec fn spec_maximum_duration_us(self) -> u64 {
        self.maximum_duration_us
    }

    pub closed spec fn wf(self) -> bool {
        &&& self.maximum_duration_us >= 1
        &&& self.items@.len() == sampler_capacity(self.maximum_duration_us)
        &&& self.read_index < self.items@.len()
        &&& self.write_index < self.items@.len()
    }

    pub fn new(maximum_duration_us: u64, default_sample: Evk4FileSample) -> (r: SamplerLookback)
        requires
            maximum_duration_us >= 1,
            sampler_capacity(maximum_duration_us) <= usize::MAX,
        ensures
            r.wf(),
            r.live() == Seq::<Evk4FileSample>::empty(),
            r.spec_maximum_duration_us() == maximum_duration_us,
    {
        let length = capacity_for(maximum_duration_us);
        let mut items: Vec<Evk4FileSample> = Vec::new();
        while items.len() < length
            invariant
                items@.len() <= length,
            decreases length - items@.len(),
        {
            items.push(default_sample);
        }
        let r = SamplerLookback {
            maximum_duration_us,
            read_index: 0,
            write_index: 0,
            items,
            default_sample,
        };
        assert(r.live() =~= Seq::<Evk4FileSample>::empty());
        r
    }

    /// Sets a new duration; where it changes the capacity, the newest
    /// `min(live count, new capacity - 1)` samples move, in order, to a new array.
    pub fn update_maximum_duration_us(&mut self, new_maximum_duration_us: u64)
        requires
            old(self).wf(),
            new_maximum_duration_us >= 1,
            sampler_capacity(new_maximum_duration_us) <= usize::MAX,
        ensures
            final(self).wf(),
            final(self).spec_maximum_duration_us() == new_maximum_duration_us,
            final(self).capacity() == sampler_capacity(new_maximum_duration_us),
            final(self).live() == newest_samples(old(self).live(), final(self).capacity() - 1),
    {
        self.maximum_duration_us = new_maximum_duration_us;
        let new_length = capacity_for(new_maximum_duration_us);
        let len = self.items.len();
        let ghost live = old(self).live();
        if new_length == len {
            assert(self.live() == live);
            return ;
        }
        let live_count = if self.write_index >= self.read_index {
            self.write_index - self.read_index
        } else {
            len - self.read_index + self.write_index
        };
        let count = if new_length - 1 < live_count {
            new_length - 1
        } else {
            live_count
        };
        let mut index = if self.write_index >= count {
            self.write_index - count
        } else {
            len - count + self.write_index
        };
        let ghost kept = newest_samples(live, count as int);
        let mut new_items: Vec<Evk4FileSample> = Vec::new();
        while new_items.len() < count
            invariant
                new_items@.len() <= count,
                count <= live.len(),
                live == old(self).live(),
                self.items@ == old(self).items@,
                self.read_index == old(self).read_index,
                self.write_index == old(self).write_index,
                len == self.items@.len(),
                live.len() < len,
                self.read_index < len,
                index < len,
                index == slot(
                    self.read_index as int,
                    live.len() - count + new_items@.len(),
                    len as int,
                ),
                kept == live.subrange(live.len() - count, live.len() as int),
                new_items@ == kept.subrange(0, new_items@.len() as int),
            decreases count - new_items@.len(),
        {
            let ghost k = new_items@.len();
            assert(live[live.len() - count + k] == self.items@[index as int]);
            new_items.push(self.items[index]);
            index = next_slot(index, len);
            assert(new_items@ =~= kept.subrange(0, new_items@.len() as int));
        }
        while new_items.len() < new_length
            invariant
                count <= new_items@.len() <= new_length,
                new_items@.subrange(0, count as int) == kept,
            decreases new_length - new_items@.len(),
        {
            let ghost before = new_items@;
            new_items.push(self.default_sample);
            assert(new_items@.subrange(0, count as int) =~= before.subrange(0, count as int));
        }
        self.items = new_items;
        self.read_index = 0;
        self.write_index = count;
        assert(self.live() =~= kept);
    }

    /// Appends a sample; where the ring is full, the oldest leaves.
    pub fn push(&mut self, sample: Evk4FileSample)
        requires
            old(self).wf(),
        ensures
            final(self).wf(),
            final(self).spec_maximum_duration_us() == old(self).spec_maximum_duration_us(),
            final(self).capacity() == old(self).capacity(),
            final(self).live() == newest_samples(old(self).live().push(sample), old(self).capacity() - 1),
    {
        let len = self.items.len();
        let ghost live = old(self).live();
        let ghost pushed = live.push(sample);
        self.items.set(self.write_index, sample);
        self.write_index = next_slot(self.write_index, len);
        if self.write_index == self.read_index {
            self.read_index = next_slot(self.read_index, len);
            assert(self.live() =~= pushed.drop_first());
            assert(pushed.drop_first() =~= newest_samples(pushed, len - 1));
        } else {
            assert(self.live() =~= pushed);
        }
    }

    /// The number of live samples.
    pub fn len(&self) -> (r: usize)
        requires
            self.wf(),
        ensures
            r == self.live().len(),
    {
        if self.write_index >= self.read_index {
            self.write_index - self.read_index
        } else {
            self.items.len() - self.read_index + self.write_index
        }
    }

    /// The `k`-th live sample, oldest first.
    pub fn sample(&self, k: usize) -> (r: Evk4FileSample)
        requires
            self.wf(),
            k < self.live().len(),
        ensures
            r == self.live()[k as int],
    {
        let len = self.items.len();
        let index = if k < len - self.read_index {
            self.read_index + k
        } else {
            k - (len - self.read_index)
        };
        self.items[index]
    }
}

/// Brings the sampler's ring in line with the event ring's state, once per tick: follows
/// its duration, creates the ring when the event ring appears and drops it when it goes.
pub fn reconcile_sampler_lookback(
    ring: &mut Option<SamplerLookback>,
    lookback_state: &Option<LookbackState>,
    default_sample: Evk4FileSample,
)
    requires
        *old(ring) matches Some(l) ==> l.wf(),
        *lookback_state matches Some(state) ==> state.maximum_duration_us >= 1 && sampler_capacity(
            state.maximum_duration_us,
        ) <= usize::MAX,
    ensures
        final(ring).is_some() == lookback_state.is_some(),
        *final(ring) matches Some(l) ==> {
            &&& l.wf()
            &&& l.spec_maximum_duration_us() == lookback_state.unwrap().maximum_duration_us
            &&& l.live() == match *old(ring) {
                Some(o) => newest_samples(o.live(), l.capacity() - 1),
                None => Seq::<Evk4FileSample>::empty(),
            }
        },
{
    match lookback_state {
        None => {
            *ring = None;
        },
        Some(state) => match ring {
            Some(sampler_lookback) => {
                let ghost before = sampler_lookback.live();
                if sampler_lookback.maximum_duration_us != state.maximum_duration_us {
                    sampler_lookback.update_maximum_duration_us(state.maximum_duration_us);
                } else {
                    assert(newest_samples(before, sampler_lookback.capacity() - 1) == before);
                }
            },
            None => {
                *ring = Some(SamplerLookback::new(state.maximum_duration_us, default_sample));
            },
        },
    }
}

} // verus!
