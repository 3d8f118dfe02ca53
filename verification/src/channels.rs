//! The channel registry: channel name to broadcast hub.
//!
//! Hubs are created lazily, on a channel's first subscriber or first
//! publish, and never deleted. Creation on publish and creation on
//! subscribe converge on the same hub, and a hub created by a publish
//! starts with a message count of one — the publish that created it.

use vstd::prelude::*;
use crate::hub::{Hub, HubModel, RecvOutcome};
use crate::text::eq_str;

verus! {

/// A projection of one channel for the stats surface.
pub struct ChannelStats {
    /// The channel's name.
    pub channel_id: String,
    /// How many receivers are currently attached.
    pub connections: usize,
    /// Successful publishes into the channel so far.
    pub messages: u64,
    /// When the last message was published, in milliseconds since the
    /// Unix epoch.
    pub last_message: Option<i64>,
}

/// Channel-name-to-hub mapping with lazy, convergent creation.
pub struct ChannelRegistry {
    entries: Vec<(String, Hub)>,
}

impl ChannelRegistry {
    /// Names are unique and non-empty, and every hub is well-formed.
    pub open spec fn wf(self) -> bool {
        &&& forall|i: int, j: int|
            0 <= i < j < self.entries().len() ==> self.entries()[i].0@ != self.entries()[j].0@
        &&& forall|i: int|
            0 <= i < self.entries().len() ==> (#[trigger] self.entries()[i]).0@.len() > 0
        &&& forall|i: int| 0 <= i < self.entries().len() ==> (#[trigger] self.entries()[i]).1@.wf()
    }

    pub closed spec fn entries(self) -> Seq<(String, Hub)> {
        self.entries@
    }

    /// Does a hub for `name` exist?
    pub open spec fn has(self, name: Seq<char>) -> bool {
        exists|i: int| 0 <= i < self.entries().len() && (#[trigger] self.entries()[i]).0@ == name
    }

    pub open spec fn index_of(self, name: Seq<char>) -> int {
        choose|i: int| 0 <= i < self.entries().len() && (#[trigger] self.entries()[i]).0@ == name
    }

    /// The model of the hub registered under `name`.
    pub open spec fn hub_of(self, name: Seq<char>) -> HubModel {
        self.entries()[self.index_of(name)].1@
    }

    /// The hub `name` will act on: the registered one, or a fresh one if
    /// none is registered yet.
    pub open spec fn hub_or_new(self, name: Seq<char>) -> HubModel {
        if self.has(name) {
            self.hub_of(name)
        } else {
            HubModel::init()
        }
    }

    /// Everything away from `name` is untouched, and `name` holds `h`.
    pub open spec fn updated(self, prior: ChannelRegistry, name: Seq<char>, h: HubModel) -> bool {
        &&& forall|n: Seq<char>| self.has(n) <==> prior.has(n) || n == name
        &&& forall|n: Seq<char>|
            n != name && prior.has(n) ==> #[trigger] self.hub_of(n) == prior.hub_of(n)
        &&& self.hub_of(name) == h
    }

    pub fn new() -> (r: ChannelRegistry)
        ensures
            r.wf(),
            forall|n: Seq<char>| !r.has(n),
    {
        ChannelRegistry { entries: Vec::new() }
    }

    /// How many channels exist.
    pub fn channel_count(&self) -> (r: usize)
        ensures
            r == self.entries().len(),
    {
        self.entries.len()
    }

    /// Find the slot holding `name`, if any.
    fn find(&self, name: &str) -> (r: Option<usize>)
        requires
            self.wf(),
        ensures
            match r {
                Some(i) => i < self.entries().len() && self.entries()[i as int].0@ == name@
                    && self.index_of(name@) == i && self.has(name@),
                None => !self.has(name@),
            },
    {
        let n = self.entries.len();
        let mut i: usize = 0;
        while i < n
            invariant
                self.wf(),
                n == self.entries().len(),
                i <= n,
                forall|j: int| 0 <= j < i ==> (#[trigger] self.entries()[j]).0@ != name@,
            decreases n - i,
        {
            if eq_str(self.entries[i].0.as_str(), name) {
                proof {
                    lemma_channel_index(*self, name@, i as int);
                }
                return Some(i);
            }
            i = i + 1;
        }
        None
    }

    /// Find-or-create the hub for `name` and attach a fresh receiver to
    /// it; the receiver sees only messages published after this call.
    pub fn subscribe(&mut self, name: &str) -> (rid: u64)
        requires
            old(self).wf(),
            name@.len() > 0,
            old(self).has(name@) ==> old(self).hub_of(name@).next_rid < u64::MAX,
        ensures
            final(self).wf(),
            final(self).updated(*old(self), name@, old(self).hub_or_new(name@).subscribe_m()),
            rid == old(self).hub_or_new(name@).next_rid,
            final(self).hub_of(name@).has_receiver(rid),
            final(self).hub_of(name@).cursor_of(rid) == old(self).hub_or_new(name@).total,
    {
        match self.find(name) {
            Some(i) => {
                let (key, mut h) = self.entries.remove(i);
                let rid = h.subscribe();
                self.entries.insert(i, (key, h));
                proof {
                    lemma_update_at(*old(self), *self, i as int);
                }
                rid
            },
            None => {
                let mut h = Hub::new();
                let rid = h.subscribe();
                self.entries.push((String::from_str(name), h));
                proof {
                    lemma_insert_new(*old(self), *self, name@);
                }
                rid
            },
        }
    }

    /// Find-or-create the hub for `name` and record one published
    /// message in it.
    pub fn publish(&mut self, name: &str, msg: String, now_ms: i64)
        requires
            old(self).wf(),
            name@.len() > 0,
            old(self).has(name@) ==> old(self).hub_of(name@).total < u64::MAX,
        ensures
            final(self).wf(),
            final(self).updated(
                *old(self),
                name@,
                old(self).hub_or_new(name@).publish_m(msg@, now_ms),
            ),
    {
        match self.find(name) {
            Some(i) => {
                let (key, mut h) = self.entries.remove(i);
                h.publish(msg, now_ms);
                self.entries.insert(i, (key, h));
                proof {
                    lemma_update_at(*old(self), *self, i as int);
                }
            },
            None => {
                let mut h = Hub::new();
                h.publish(msg, now_ms);
                self.entries.push((String::from_str(name), h));
                proof {
                    lemma_insert_new(*old(self), *self, name@);
                }
            },
        }
    }

    /// One receive step for receiver `rid` on channel `name`. On a
    /// channel that does not exist the receiver is simply gone.
    pub fn recv(&mut self, name: &str, rid: u64) -> (r: RecvOutcome)
        requires
            old(self).wf(),
        ensures
            final(self).wf(),
            !old(self).has(name@) ==> *final(self) == *old(self) && r is Gone,
            old(self).has(name@) ==> final(self).updated(
                *old(self),
                name@,
                old(self).hub_of(name@).recv_step(rid).0,
            ) && r.fits(old(self).hub_of(name@).recv_step(rid).1),
    {
        match self.find(name) {
            Some(i) => {
                let (key, mut h) = self.entries.remove(i);
                let r = h.recv(rid);
                self.entries.insert(i, (key, h));
                proof {
                    assert(self.entries() =~= old(self).entries().update(
                        i as int,
                        self.entries()[i as int],
                    ));
                    lemma_update_at(*old(self), *self, i as int);
                }
                r
            },
            None => RecvOutcome::Gone,
        }
    }

    /// Detach receiver `rid` from channel `name`, if both exist.
    pub fn unsubscribe(&mut self, name: &str, rid: u64)
        requires
            old(self).wf(),
        ensures
            final(self).wf(),
            !old(self).has(name@) ==> *final(self) == *old(self),
            old(self).has(name@) ==> final(self).updated(
                *old(self),
                name@,
                old(self).hub_of(name@).unsubscribe_m(rid),
            ),
    {
        match self.find(name) {
            Some(i) => {
                let (key, mut h) = self.entries.remove(i);
                h.unsubscribe(rid);
                self.entries.insert(i, (key, h));
                proof {
                    lemma_update_at(*old(self), *self, i as int);
                }
            },
            None => {},
        }
    }

    /// Project every channel for the stats surface, in registration
    /// order.
    pub fn stats(&self) -> (r: Vec<ChannelStats>)
        requires
            self.wf(),
        ensures
            r@.len() == self.entries().len(),
            forall|i: int|
                0 <= i < r@.len() ==> {
                    let e = #[trigger] self.entries()[i];
                    &&& r@[i].channel_id@ == e.0@
                    &&& r@[i].connections == e.1@.cursors.len()
                    &&& r@[i].messages == e.1@.total
                    &&& r@[i].last_message == e.1@.last_message_at
                },
    {
        let n = self.entries.len();
        let mut r: Vec<ChannelStats> = Vec::new();
        let mut i: usize = 0;
        while i < n
            invariant
                self.wf(),
                n == self.entries().len(),
                i <= n,
                r@.len() == i,
                forall|j: int|
                    0 <= j < i ==> {
                        let e = #[trigger] self.entries()[j];
                        &&& r@[j].channel_id@ == e.0@
                        &&& r@[j].connections == e.1@.cursors.len()
                        &&& r@[j].messages == e.1@.total
                        &&& r@[j].last_message == e.1@.last_message_at
                    },
            decreases n - i,
        {
            let entry = &self.entries[i];
            r.push(
                ChannelStats {
                    channel_id: entry.0.clone(),
                    connections: entry.1.receiver_count(),
                    messages: entry.1.message_count(),
                    last_message: entry.1.last_message_at_ms(),
                },
            );
            i = i + 1;
        }
        r
    }
}

/// A publish observed by a subscriber: when a registry moves from
/// `prior` to `now` by publishing `msg` into `name`, any receiver of
/// that channel that had seen everything published before receives, on
/// its next step, exactly `msg` — the bytes the publisher handed in.
pub proof fn lemma_publish_observed(
    prior: ChannelRegistry,
    now: ChannelRegistry,
    name: Seq<char>,
    msg: Seq<char>,
    now_ms: i64,
    rid: u64,
)
    requires
        prior.wf(),
        prior.has(name),
        now.updated(prior, name, prior.hub_or_new(name).publish_m(msg, now_ms)),
        prior.hub_of(name).wf(),
        prior.hub_of(name).has_receiver(rid),
        prior.hub_of(name).cursor_of(rid) == prior.hub_of(name).total,
        prior.hub_of(name).total < u64::MAX,
    ensures
        now.hub_of(name).recv_step(rid).1 == crate::hub::RecvModel::Msg(msg),
{
    crate::hub::lemma_publish_delivers_to_current(prior.hub_of(name), rid, msg, now_ms);
}

/// With unique names, the slot found for a name is the one `index_of`
/// denotes.
proof fn lemma_channel_index(r: ChannelRegistry, name: Seq<char>, i: int)
    requires
        r.wf(),
        0 <= i < r.entries().len(),
        r.entries()[i].0@ == name,
    ensures
        r.has(name),
        r.index_of(name) == i,
{
    assert(r.has(name));
    let j = r.index_of(name);
    if i != j {
        assert(r.entries()[i].0@ != r.entries()[j].0@);
    }
}

/// Replacing the hub in one slot, keeping its name, updates that name
/// alone.
proof fn lemma_update_at(prior: ChannelRegistry, now: ChannelRegistry, i: int)
    requires
        prior.wf(),
        0 <= i < prior.entries().len(),
        now.entries().len() == prior.entries().len(),
        forall|j: int| 0 <= j < prior.entries().len() && j != i ==> now.entries()[j] == prior.entries()[j],
        now.entries()[i].0@ == prior.entries()[i].0@,
        now.entries()[i].1@.wf(),
    ensures
        now.wf(),
        forall|n: Seq<char>| now.has(n) <==> prior.has(n),
        forall|n: Seq<char>|
            n != prior.entries()[i].0@ && prior.has(n) ==> #[trigger] now.hub_of(n) == prior.hub_of(
                n,
            ),
        now.hub_of(prior.entries()[i].0@) == now.entries()[i].1@,
{
    assert forall|n: Seq<char>| now.has(n) <==> prior.has(n) by {
        if prior.has(n) {
            let j = prior.index_of(n);
            assert(now.entries()[j].0@ == n);
        }
        if now.has(n) {
            let j = now.index_of(n);
            assert(prior.entries()[j].0@ == n);
        }
    }
    assert forall|n: Seq<char>|
        n != prior.entries()[i].0@ && prior.has(n) implies #[trigger] now.hub_of(n)
        == prior.hub_of(n) by {
        let j = prior.index_of(n);
        lemma_channel_index(prior, n, j);
        lemma_channel_index(now, n, j);
    }
    lemma_channel_index(now, prior.entries()[i].0@, i);
}

/// Appending a slot under a fresh name registers that name alone.
proof fn lemma_insert_new(prior: ChannelRegistry, now: ChannelRegistry, name: Seq<char>)
    requires
        prior.wf(),
        !prior.has(name),
        name.len() > 0,
        now.entries().len() == prior.entries().len() + 1,
        forall|j: int| 0 <= j < prior.entries().len() ==> now.entries()[j] == prior.entries()[j],
        now.entries().last().0@ == name,
        now.entries().last().1@.wf(),
    ensures
        now.wf(),
        forall|n: Seq<char>| now.has(n) <==> prior.has(n) || n == name,
        forall|n: Seq<char>|
            n != name && prior.has(n) ==> #[trigger] now.hub_of(n) == prior.hub_of(n),
        now.hub_of(name) == now.entries().last().1@,
{
    let m = prior.entries().len() as int;
    assert forall|i: int, j: int|
        0 <= i < j < now.entries().len() implies now.entries()[i].0@ != now.entries()[j].0@ by {
        if j < m {
            assert(prior.entries()[i].0@ != prior.entries()[j].0@);
        } else {
            if now.entries()[i].0@ == name {
                assert(prior.entries()[i].0@ == name);
                assert(prior.has(name));
            }
        }
    }
    assert forall|n: Seq<char>| now.has(n) <==> prior.has(n) || n == name by {
        if now.has(n) {
            let j = now.index_of(n);
            if j < m {
                assert(prior.entries()[j].0@ == n);
            }
        }
        if prior.has(n) {
            let j = prior.index_of(n);
            assert(now.entries()[j].0@ == n);
        }
        if n == name {
            assert(now.entries()[m].0@ == n);
        }
    }
    assert forall|n: Seq<char>|
        n != name && prior.has(n) implies #[trigger] now.hub_of(n) == prior.hub_of(n) by {
        let j = prior.index_of(n);
        lemma_channel_index(prior, n, j);
        lemma_channel_index(now, n, j);
    }
    lemma_channel_index(now, name, m);
}

} // verus!
