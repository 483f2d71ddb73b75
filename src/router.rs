//! The fan-out router: for each stream, the clients that subscribed to it, each with the
//! sender that feeds that client's queue for the stream.
use vstd::prelude::*;

use crate::ids::{ClientId, StreamId};

verus! {

/// `s` without the entries of client `c`, in order.
pub open spec fn without_client<S>(s: Seq<(ClientId, S)>, c: ClientId) -> Seq<(ClientId, S)>
    decreases s.len(),
{
    if s.len() == 0 {
        s
    } else {
        let rest = without_client(s.drop_last(), c);
        if s.last().0 == c {
            rest
        } else {
            rest.push(s.last())
        }
    }
}

/// Whether client `c` appears in `s`.
pub open spec fn has_client<S>(s: Seq<(ClientId, S)>, c: ClientId) -> bool {
    exists|i: int| 0 <= i < s.len() && (#[trigger] s[i]).0 == c
}

/// Whether a stream that sends only changes sends `packet`, given the last packet it sent.
pub fn differs_from_last(last_sent: &Option<Vec<u8>>, packet: &[u8]) -> (r: bool)
    ensures
        r == (last_sent.is_none() || last_sent.unwrap()@ != packet@),
{
    match last_sent {
        None => true,
        Some(last) => {
            if last.len() != packet.len() {
                assert(last@.len() != packet@.len());
                return true;
            }
            let mut k: usize = 0;
            while k < packet.len()
                invariant
                    k <= packet@.len(),
                    last@.len() == packet@.len(),
                    last_sent.is_some() && last_sent.unwrap()@ == last@,
                    forall|i: int| 0 <= i < k ==> last@[i] == packet@[i],
                decreases packet@.len() - k,
            {
                if last[k] != packet[k] {
                    assert(last@[k as int] != packet@[k as int]);
                    return true;
                }
                k = k + 1;
            }
            assert(last@ =~= packet@);
            false
        },
    }
}

pub struct StreamEntry<S> {
    pub stream_id: StreamId,
    pub subscribers: Vec<(ClientId, S)>,
}

pub struct Router<S> {
    streams: Vec<StreamEntry<S>>,
    model: Ghost<Map<u32, Seq<(ClientId, S)>>>,
}

proof fn lemma_without_client_absent<S>(s: Seq<(ClientId, S)>, c: ClientId)
    ensures
        !has_client(without_client(s, c), c),
    decreases s.len(),
{
    if s.len() > 0 {
        lemma_without_client_absent(s.drop_last(), c);
        let rest = without_client(s.drop_last(), c);
        if s.last().0 != c {
            assert forall|i: int| 0 <= i < rest.push(s.last()).len() implies (#[trigger] rest.push(
                s.last(),
            )[i]).0 != c by {
                if i < rest.len() {
                    assert(rest.push(s.last())[i] == rest[i]);
                }
            }
        }
    }
}

/// Removes the entries of client `c` from `v`, keeping the others in order.
fn remove_client_entries<S>(v: &mut Vec<(ClientId, S)>, c: ClientId) -> (removed: usize)
    ensures
        final(v)@ == without_client(old(v)@, c),
        removed == old(v)@.len() - final(v)@.len(),
{
    let ghost entries = old(v)@;
    let old_length = v.len();
    let mut i: usize = 0;
    let mut j: Ghost<int> = Ghost(0);
    while i < v.len()
        invariant
            0 <= j@ <= entries.len(),
            i as int == without_client(entries.take(j@), c).len(),
            v@ == without_client(entries.take(j@), c) + entries.skip(j@),
        decreases v@.len() - i,
    {
        let ghost before = v@;
        assert(entries.take(j@ + 1).drop_last() =~= entries.take(j@));
        assert(entries.take(j@ + 1).last() == entries[j@]);
        assert(before[i as int] == entries[j@]);
        if v[i].0 == c {
            v.remove(i);
            assert(v@ =~= without_client(entries.take(j@ + 1), c) + entries.skip(j@ + 1));
        } else {
            i = i + 1;
            assert(v@ =~= without_client(entries.take(j@ + 1), c) + entries.skip(j@ + 1));
        }
        j = Ghost(j@ + 1);
    }
    assert(j@ == entries.len()) by {
        if j@ < entries.len() {
            assert(v@.len() == i + entries.len() - j@);
        }
    }
    assert(entries.take(j@) =~= entries);
    assert(v@ =~= without_client(entries, c));
    proof {
        lemma_without_client_len(entries, c);
    }
    let before_length = old_length;
    before_length - v.len()
}

proof fn lemma_without_client_len<S>(s: Seq<(ClientId, S)>, c: ClientId)
    ensures
        without_client(s, c).len() <= s.len(),
    decreases s.len(),
{
    if s.len() > 0 {
        lemma_without_client_len(s.drop_last(), c);
    }
}

impl<S> Router<S> {
    /// For each registered stream, its subscribers in the order they subscribed.
    pub closed spec fn view(self) -> Map<u32, Seq<(ClientId, S)>> {
        self.model@
    }

    pub closed spec fn wf(self) -> bool {
        &&& forall|i: int, j: int|
            0 <= i < j < self.streams@.len() ==> (#[trigger] self.streams@[i]).stream_id.0
                != (#[trigger] self.streams@[j]).stream_id.0
        &&& forall|i: int|
            0 <= i < self.streams@.len() ==> self.model@.contains_key(
                (#[trigger] self.streams@[i]).stream_id.0,
            ) && self.model@[self.streams@[i].stream_id.0] == self.streams@[i].subscribers@
        &&& forall|id: u32|
            self.model@.contains_key(id) ==> exists|i: int|
                0 <= i < self.streams@.len() && (#[trigger] self.streams@[i]).stream_id.0 == id
    }

    pub fn new() -> (r: Router<S>)
        ensures
            r.wf(),
            r@ == Map::<u32, Seq<(ClientId, S)>>::empty(),
    {
        Router { streams: Vec::new(), model: Ghost(Map::empty()) }
    }

    fn find(&self, stream_id: StreamId) -> (r: Option<usize>)
        requires
            self.wf(),
        ensures
            r.is_none() ==> !self@.contains_key(stream_id.0),
            r.is_some() ==> r.unwrap() < self.streams@.len() && self.streams@[r.unwrap() as int].stream_id.0
                == stream_id.0,
    {
        let mut i: usize = 0;
        while i < self.streams.len()
            invariant
                self.wf(),
                i <= self.streams@.len(),
                forall|k: int| 0 <= k < i ==> (#[trigger] self.streams@[k]).stream_id.0 != stream_id.0,
            decreases self.streams@.len() - i,
        {
            if self.streams[i].stream_id.0 == stream_id.0 {
                return Some(i);
            }
            i = i + 1;
        }
        None
    }

    /// Registers a stream with no subscribers; a stream already registered loses its
    /// subscribers.
    pub fn add_stream(&mut self, stream_id: StreamId)
        requires
            old(self).wf(),
        ensures
            final(self).wf(),
            final(self)@ == old(self)@.insert(stream_id.0, Seq::empty()),
    {
        let ghost mut w: int = 0;
        match self.find(stream_id) {
            Some(i) => {
                self.streams.set(i, StreamEntry { stream_id, subscribers: Vec::new() });
                proof {
                    w = i as int;
                }
            },
            None => {
                self.streams.push(StreamEntry { stream_id, subscribers: Vec::new() });
                proof {
                    w = self.streams@.len() - 1;
                }
            },
        }
        assert(self.streams@[w].stream_id.0 == stream_id.0);
        self.model = Ghost(self.model@.insert(stream_id.0, Seq::empty()));
        assert forall|id: u32| self.model@.contains_key(id) implies exists|i: int|
            0 <= i < self.streams@.len() && (#[trigger] self.streams@[i]).stream_id.0 == id by {
            if id != stream_id.0 {
                let i = choose|i: int|
                    0 <= i < old(self).streams@.len() && (#[trigger] old(self).streams@[i]).stream_id.0 == id;
                assert(self.streams@[i] == old(self).streams@[i]);
            } else {
                assert(self.streams@[w].stream_id.0 == id);
            }
        }
        assert(self.model@ =~= old(self)@.insert(stream_id.0, Seq::empty()));
    }

    /// Unregisters a stream, with its subscribers.
    pub fn remove_stream(&mut self, stream_id: StreamId)
        requires
            old(self).wf(),
        ensures
            final(self).wf(),
            final(self)@ == old(self)@.remove(stream_id.0),
    {
        if let Some(i) = self.find(stream_id) {
            let _ = self.streams.remove(i);
        }
        self.model = Ghost(self.model@.remove(stream_id.0));
        assert forall|id: u32| self.model@.contains_key(id) implies exists|k: int|
            0 <= k < self.streams@.len() && (#[trigger] self.streams@[k]).stream_id.0 == id by {
            let k = choose|k: int|
                0 <= k < old(self).streams@.len() && (#[trigger] old(self).streams@[k]).stream_id.0
                    == id;
            assert(old(self).streams@[k].stream_id.0 != stream_id.0);
            if old(self).streams@.len() > self.streams@.len() {
                let i = choose|i: int|
                    0 <= i < old(self).streams@.len() && old(self).streams@[i].stream_id.0
                        == stream_id.0;
                if k < i {
                    assert(self.streams@[k] == old(self).streams@[k]);
                } else {
                    assert(self.streams@[k - 1] == old(self).streams@[k]);
                }
            } else {
                assert(self.streams@[k] == old(self).streams@[k]);
            }
        }
    }

    /// Subscribes a client to a registered stream, once: returns whether the subscription
    /// was added (the stream exists and the client was not subscribed to it yet).
    pub fn subscribe(&mut self, stream_id: StreamId, client_id: ClientId, sender: S) -> (added:
        bool)
        requires
            old(self).wf(),
        ensures
            final(self).wf(),
            added == (old(self)@.contains_key(stream_id.0) && !has_client(
                old(self)@[stream_id.0],
                client_id,
            )),
            added ==> final(self)@ == old(self)@.insert(
                stream_id.0,
                old(self)@[stream_id.0].push((client_id, sender)),
            ),
            !added ==> final(self)@ == old(self)@,
    {
        match self.find(stream_id) {
            None => false,
            Some(i) => {
                let mut subscribed = false;
                let mut k: usize = 0;
                while k < self.streams[i].subscribers.len()
                    invariant
                        self.wf(),
                        i < self.streams@.len(),
                        self.streams@[i as int].stream_id.0 == stream_id.0,
                        k <= self.streams@[i as int].subscribers@.len(),
                        subscribed == exists|m: int|
                            0 <= m < k && (#[trigger] self.streams@[i as int].subscribers@[m]).0
                                == client_id,
                    decreases self.streams@[i as int].subscribers@.len() - k,
                {
                    if self.streams[i].subscribers[k].0 == client_id {
                        subscribed = true;
                    }
                    k = k + 1;
                }
                if subscribed {
                    false
                } else {
                    let mut entry = StreamEntry { stream_id, subscribers: Vec::new() };
                    std::mem::swap(&mut entry, &mut self.streams[i]);
                    entry.subscribers.push((client_id, sender));
                    let ghost subscribers = entry.subscribers@;
                    self.streams.set(i, entry);
                    self.model = Ghost(self.model@.insert(stream_id.0, subscribers));
                    assert forall|id: u32| self.model@.contains_key(id) implies exists|m: int|
                        0 <= m < self.streams@.len() && (#[trigger] self.streams@[m]).stream_id.0
                            == id by {
                        let m = choose|m: int|
                            0 <= m < old(self).streams@.len() && (#[trigger] old(self).streams@[m]).stream_id.0 == id;
                        assert(self.streams@[m].stream_id == old(self).streams@[m].stream_id);
                    }
                    true
                }
            },
        }
    }

    /// Removes the subscriptions of a client to one stream; returns how many there were.
    pub fn unsubscribe(&mut self, stream_id: StreamId, client_id: ClientId) -> (removed: usize)
        requires
            old(self).wf(),
        ensures
            final(self).wf(),
            old(self)@.contains_key(stream_id.0) ==> final(self)@ == old(self)@.insert(
                stream_id.0,
                without_client(old(self)@[stream_id.0], client_id),
            ) && removed == old(self)@[stream_id.0].len() - final(self)@[stream_id.0].len(),
            !old(self)@.contains_key(stream_id.0) ==> final(self)@ == old(self)@ && removed == 0,
    {
        match self.find(stream_id) {
            None => 0,
            Some(i) => {
                let removed = self.remove_client_at(i, client_id);
                removed
            },
        }
    }

    fn remove_client_at(&mut self, i: usize, client_id: ClientId) -> (removed: usize)
        requires
            old(self).wf(),
            i < old(self).streams@.len(),
        ensures
            final(self).wf(),
            final(self).streams@.len() == old(self).streams@.len(),
            forall|k: int|
                0 <= k < old(self).streams@.len() ==> (#[trigger] final(self).streams@[k]).stream_id
                    == old(self).streams@[k].stream_id,
            forall|k: int|
                0 <= k < old(self).streams@.len() && k != i ==> (#[trigger] final(self).streams@[k]) == old(self).streams@[k],
            final(self).streams@[i as int].subscribers@ == without_client(
                old(self).streams@[i as int].subscribers@,
                client_id,
            ),
            final(self)@ == old(self)@.insert(
                old(self).streams@[i as int].stream_id.0,
                without_client(old(self).streams@[i as int].subscribers@, client_id),
            ),
            removed == old(self).streams@[i as int].subscribers@.len() - final(self).streams@[i as int].subscribers@.len(),
    {
        let stream_id = self.streams[i].stream_id;
        let mut entry = StreamEntry { stream_id, subscribers: Vec::new() };
        std::mem::swap(&mut entry, &mut self.streams[i]);
        let removed = remove_client_entries(&mut entry.subscribers, client_id);
        let ghost subscribers = entry.subscribers@;
        self.streams.set(i, entry);
        self.model = Ghost(self.model@.insert(stream_id.0, subscribers));
        assert forall|id: u32| self.model@.contains_key(id) implies exists|m: int|
            0 <= m < self.streams@.len() && (#[trigger] self.streams@[m]).stream_id.0 == id by {
            let m = choose|m: int|
                0 <= m < old(self).streams@.len() && (#[trigger] old(self).streams@[m]).stream_id.0
                    == id;
            assert(self.streams@[m].stream_id == old(self).streams@[m].stream_id);
        }
        removed
    }

    /// Removes every subscription of a client, from every stream.
    pub fn remove_client(&mut self, client_id: ClientId)
        requires
            old(self).wf(),
        ensures
            final(self).wf(),
            final(self)@.dom() == old(self)@.dom(),
            forall|id: u32|
                #[trigger] final(self)@.contains_key(id) ==> final(self)@[id] == without_client(
                    old(self)@[id],
                    client_id,
                ),
            forall|id: u32|
                #[trigger] final(self)@.contains_key(id) ==> !has_client(final(self)@[id], client_id),
    {
        let mut e: usize = 0;
        while e < self.streams.len()
            invariant
                self.wf(),
                e <= self.streams@.len(),
                self.streams@.len() == old(self).streams@.len(),
                self@.dom() == old(self)@.dom(),
                forall|k: int|
                    0 <= k < self.streams@.len() ==> (#[trigger] self.streams@[k]).stream_id
                        == old(self).streams@[k].stream_id,
                forall|k: int|
                    0 <= k < e ==> (#[trigger] self.streams@[k]).subscribers@ == without_client(
                        old(self).streams@[k].subscribers@,
                        client_id,
                    ),
                forall|k: int|
                    e <= k < self.streams@.len() ==> (#[trigger] self.streams@[k]).subscribers@
                        == old(self).streams@[k].subscribers@,
            decreases self.streams@.len() - e,
        {
            let _ = self.remove_client_at(e, client_id);
            assert(self@.dom() =~= old(self)@.dom());
            e = e + 1;
        }
        assert forall|id: u32| #[trigger] self@.contains_key(id) implies self@[id] == without_client(
            old(self)@[id],
            client_id,
        ) by {
            let k = choose|k: int|
                0 <= k < self.streams@.len() && (#[trigger] self.streams@[k]).stream_id.0 == id;
            assert(old(self).streams@[k].stream_id.0 == id);
        }
        assert forall|id: u32| #[trigger] self@.contains_key(id) implies !has_client(
            self@[id],
            client_id,
        ) by {
            lemma_without_client_absent(old(self)@[id], client_id);
        }
    }

    /// The number of subscribers of a stream (none where it is not registered).
    pub fn subscriber_count(&self, stream_id: StreamId) -> (r: usize)
        requires
            self.wf(),
        ensures
            self@.contains_key(stream_id.0) ==> r == self@[stream_id.0].len(),
            !self@.contains_key(stream_id.0) ==> r == 0,
    {
        match self.find(stream_id) {
            None => 0,
            Some(i) => self.streams[i].subscribers.len(),
        }
    }

    /// The `k`-th subscriber of a stream.
    pub fn subscriber(&self, stream_id: StreamId, k: usize) -> (r: &(ClientId, S))
        requires
            self.wf(),
            self@.contains_key(stream_id.0),
            k < self@[stream_id.0].len(),
        ensures
            *r == self@[stream_id.0][k as int],
    {
        let i = self.find(stream_id).unwrap();
        &self.streams[i].subscribers[k]
    }
}

} // verus!
