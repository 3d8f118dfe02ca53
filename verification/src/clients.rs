//! The client registry: connection id to connection record.
//!
//! The authoritative index for stats and forced disconnect. Ids are
//! unique; a record never stays registered with an empty channel set —
//! detaching the last channel removes the record. A duplicate id on
//! insert is rejected and reported to the caller, never silently
//! replaced: the caller treats it as a fatal invariant violation.

use vstd::prelude::*;
use crate::errors::ApiError;
use crate::text::eq_str;

verus! {

/// One live connection.
pub struct ClientData {
    /// The minted connection id.
    pub id: String,
    /// The peer address, rendered `host:port`.
    pub ip: String,
    /// The `user-agent` header, when the peer sent one.
    pub user_agent: Option<String>,
    /// The channels the connection is subscribed to: non-empty, no
    /// duplicates.
    pub channels: Vec<String>,
    /// When the connection was registered, in milliseconds since the
    /// Unix epoch.
    pub connected_at: i64,
    /// Metadata handed back by the delegated authenticator.
    pub metadata: Vec<(String, String)>,
}

/// A projection of one connection for the stats surface.
pub struct ClientStats {
    pub id: String,
    pub ip: String,
    pub user_agent: Option<String>,
    pub channels: Vec<String>,
    pub connected_at: i64,
    pub metadata: Vec<(String, String)>,
}

/// The body of a forced-disconnect request.
pub struct DisconnectPayload {
    pub id: String,
    pub channel: String,
}

impl ClientData {
    /// At least one channel, and no channel twice.
    pub open spec fn wf(self) -> bool {
        &&& self.channels@.len() > 0
        &&& forall|i: int, j: int|
            0 <= i < j < self.channels@.len() ==> self.channels@[i]@ != self.channels@[j]@
    }

    /// The channel names as sequences of characters.
    pub open spec fn channel_names(self) -> Seq<Seq<char>> {
        self.channels.deep_view()
    }

    /// Is the connection subscribed to `name`?
    pub open spec fn subscribed_to(self, name: Seq<char>) -> bool {
        self.channel_names().contains(name)
    }
}

/// Does `s` carry the same values as `c`?
pub open spec fn reflects(s: ClientStats, c: ClientData) -> bool {
    &&& s.id@ == c.id@
    &&& s.ip@ == c.ip@
    &&& s.user_agent.deep_view() == c.user_agent.deep_view()
    &&& s.channels.deep_view() == c.channels.deep_view()
    &&& s.connected_at == c.connected_at
    &&& s.metadata.deep_view() == c.metadata.deep_view()
}

/// Connection-id-to-record mapping.
pub struct ClientRegistry {
    entries: Vec<ClientData>,
}

impl ClientRegistry {
    pub closed spec fn entries(self) -> Seq<ClientData> {
        self.entries@
    }

    /// Ids are unique and every record is well-formed — in particular,
    /// no registered record has an empty channel set.
    pub open spec fn wf(self) -> bool {
        &&& forall|i: int, j: int|
            0 <= i < j < self.entries().len() ==> self.entries()[i].id@ != self.entries()[j].id@
        &&& forall|i: int| 0 <= i < self.entries().len() ==> (#[trigger] self.entries()[i]).wf()
    }

    pub open spec fn has(self, id: Seq<char>) -> bool {
        exists|i: int| 0 <= i < self.entries().len() && (#[trigger] self.entries()[i]).id@ == id
    }

    pub open spec fn index_of(self, id: Seq<char>) -> int {
        choose|i: int| 0 <= i < self.entries().len() && (#[trigger] self.entries()[i]).id@ == id
    }

    /// The record registered under `id`.
    pub open spec fn record_of(self, id: Seq<char>) -> ClientData {
        self.entries()[self.index_of(id)]
    }

    /// Away from `id`, nothing changed.
    pub open spec fn same_except(self, prior: ClientRegistry, id: Seq<char>) -> bool {
        &&& forall|n: Seq<char>| n != id ==> (self.has(n) <==> prior.has(n))
        &&& forall|n: Seq<char>|
            n != id && prior.has(n) ==> #[trigger] self.record_of(n) == prior.record_of(n)
    }

    pub fn new() -> (r: ClientRegistry)
        ensures
            r.wf(),
            forall|n: Seq<char>| !r.has(n),
            r.entries().len() == 0,
    {
        ClientRegistry { entries: Vec::new() }
    }

    /// How many connections are registered.
    pub fn len(&self) -> (r: usize)
        ensures
            r == self.entries().len(),
    {
        self.entries.len()
    }

    /// Is a record registered under `id`?
    pub fn contains(&self, id: &str) -> (r: bool)
        requires
            self.wf(),
        ensures
            r == self.has(id@),
    {
        match self.find(id) {
            Some(_) => true,
            None => false,
        }
    }

    fn find(&self, id: &str) -> (r: Option<usize>)
        requires
            self.wf(),
        ensures
            match r {
                Some(i) => i < self.entries().len() && self.entries()[i as int].id@ == id@
                    && self.index_of(id@) == i && self.has(id@),
                None => !self.has(id@),
            },
    {
        let n = self.entries.len();
        let mut i: usize = 0;
        while i < n
            invariant
                self.wf(),
                n == self.entries().len(),
                i <= n,
                forall|j: int| 0 <= j < i ==> (#[trigger] self.entries()[j]).id@ != id@,
            decreases n - i,
        {
            if eq_str(self.entries[i].id.as_str(), id) {
                proof {
                    lemma_client_index(*self, id@, i as int);
                }
                return Some(i);
            }
            i = i + 1;
        }
        None
    }

    /// Insert a record under its id. A duplicate id is rejected — the
    /// registry is left untouched and `false` comes back, which the
    /// caller must treat as a fatal programming error.
    pub fn register(&mut self, rec: ClientData) -> (r: bool)
        requires
            old(self).wf(),
            rec.wf(),
        ensures
            final(self).wf(),
            r == !old(self).has(rec.id@),
            !r ==> *final(self) == *old(self),
            r ==> {
                &&& final(self).has(rec.id@)
                &&& final(self).record_of(rec.id@) == rec
                &&& final(self).same_except(*old(self), rec.id@)
                &&& final(self).entries().len() == old(self).entries().len() + 1
            },
    {
        match self.find(rec.id.as_str()) {
            Some(_) => false,
            None => {
                let ghost prior = *self;
                self.entries.push(rec);
                proof {
                    let m = prior.entries().len() as int;
                    assert forall|i: int, j: int|
                        0 <= i < j < self.entries().len() implies self.entries()[i].id@
                        != self.entries()[j].id@ by {
                        if j < m {
                            assert(prior.entries()[i].id@ != prior.entries()[j].id@);
                        } else if self.entries()[i].id@ == rec.id@ {
                            assert(prior.has(rec.id@));
                        }
                    }
                    lemma_client_index(*self, rec.id@, m);
                    assert forall|n: Seq<char>| n != rec.id@ implies (self.has(n) <==> prior.has(
                        n,
                    )) by {
                        if self.has(n) {
                            let j = self.index_of(n);
                            assert(prior.entries()[j].id@ == n);
                        }
                        if prior.has(n) {
                            let j = prior.index_of(n);
                            assert(self.entries()[j].id@ == n);
                        }
                    }
                    assert forall|n: Seq<char>|
                        n != rec.id@ && prior.has(n) implies #[trigger] self.record_of(n)
                        == prior.record_of(n) by {
                        let j = prior.index_of(n);
                        lemma_client_index(prior, n, j);
                        lemma_client_index(*self, n, j);
                    }
                }
                true
            },
        }
    }

    /// Delete the record under `id` if it is present; on an absent id
    /// nothing changes, so a second call is harmless.
    pub fn remove(&mut self, id: &str)
        requires
            old(self).wf(),
        ensures
            final(self).wf(),
            remove_post(*old(self), *final(self), id@),
    {
        match self.find(id) {
            Some(i) => {
                let ghost prior = *self;
                self.entries.remove(i);
                proof {
                    lemma_remove_at(prior, *self, i as int);
                }
            },
            None => {},
        }
    }

    /// Remove `channel` from the record under `id`; a record left with
    /// no channels is deleted outright. `NotFound` when the id is
    /// unknown or the record is not subscribed to the channel, and then
    /// nothing changes.
    pub fn detach(&mut self, id: &str, channel: &str) -> (r: Result<(), ApiError>)
        requires
            old(self).wf(),
        ensures
            final(self).wf(),
            detach_post(*old(self), *final(self), id@, channel@, r),
    {
        let found = self.find(id);
        match found {
            Some(i) => {
                let ghost prior = *self;
                let nch = self.entries[i].channels.len();
                let mut j: usize = 0;
                while j < nch
                    invariant
                        *self == prior,
                        prior == *old(self),
                        prior.wf(),
                        i < prior.entries().len(),
                        prior.entries()[i as int].id@ == id@,
                        prior.index_of(id@) == i,
                        nch == prior.entries()[i as int].channels@.len(),
                        j <= nch,
                        forall|k: int|
                            0 <= k < j ==> prior.entries()[i as int].channels@[k]@ != channel@,
                    decreases nch - j,
                {
                    if eq_str(self.entries[i].channels[j].as_str(), channel) {
                        // The record is subscribed: drop this channel.
                        proof {
                            assert(prior.record_of(id@).subscribed_to(channel@)) by {
                                assert(prior.entries()[i as int].channel_names()[j as int]
                                    == channel@);
                            }
                        }
                        if nch == 1 {
                            self.entries.remove(i);
                            proof {
                                lemma_remove_at(prior, *self, i as int);
                            }
                            return Ok(());
                        }
                        let mut rec = self.entries.remove(i);
                        rec.channels.remove(j);
                        proof {
                            assert forall|a: int, b: int|
                                0 <= a < b < rec.channels@.len() implies rec.channels@[a]@
                                != rec.channels@[b]@ by {
                                let pa = if a < j as int { a } else { a + 1 };
                                let pb = if b < j as int { b } else { b + 1 };
                                assert(prior.entries()[i as int].channels@[pa]@
                                    != prior.entries()[i as int].channels@[pb]@);
                            }
                            assert forall|n: Seq<char>|
                                n != channel@ implies (rec.channel_names().contains(n)
                                <==> prior.entries()[i as int].channel_names().contains(n)) by {
                                let old_names = prior.entries()[i as int].channel_names();
                                if old_names.contains(n) {
                                    let k = choose|k: int|
                                        0 <= k < old_names.len() && old_names[k] == n;
                                    if k < j as int {
                                        assert(rec.channel_names()[k] == n);
                                    } else if k > j as int {
                                        assert(rec.channel_names()[k - 1] == n);
                                    }
                                }
                                if rec.channel_names().contains(n) {
                                    let k = choose|k: int|
                                        0 <= k < rec.channel_names().len() && rec.channel_names()[k]
                                            == n;
                                    if k < j as int {
                                        assert(old_names[k] == n);
                                    } else {
                                        assert(old_names[k + 1] == n);
                                    }
                                }
                            }
                            assert forall|k: int|
                                0 <= k < rec.channels@.len() implies rec.channels@[k]@
                                != channel@ by {
                                let pk = if k < j as int { k } else { k + 1 };
                                if prior.entries()[i as int].channels@[pk]@ == channel@ {
                                    assert(pk != j as int);
                                    assert(prior.entries()[i as int].channels@[pk]@
                                        != prior.entries()[i as int].channels@[j as int]@);
                                }
                            }
                            assert(!rec.subscribed_to(channel@)) by {
                                if rec.channel_names().contains(channel@) {
                                    let k = choose|k: int|
                                        0 <= k < rec.channel_names().len() && rec.channel_names()[k]
                                            == channel@;
                                    assert(rec.channels@[k]@ == channel@);
                                }
                            }
                        }
                        self.entries.insert(i, rec);
                        proof {
                            lemma_replace_at(prior, *self, i as int);
                            assert(prior.entries()[i as int].channel_names()[j as int]
                                == channel@);
                        }
                        return Ok(());
                    }
                    j = j + 1;
                }
                proof {
                    assert(!prior.entries()[i as int].subscribed_to(channel@)) by {
                        let names = prior.entries()[i as int].channel_names();
                        if names.contains(channel@) {
                            let k = choose|k: int| 0 <= k < names.len() && names[k] == channel@;
                            assert(prior.entries()[i as int].channels@[k]@ == channel@);
                        }
                    }
                }
                Err(ApiError::NotFound)
            },
            None => Err(ApiError::NotFound),
        }
    }

    /// The ids of every record subscribed to `channel`, in registration
    /// order: the advisory fan-out list a publish reports.
    pub fn ids_in_channel(&self, channel: &str) -> (r: Vec<String>)
        requires
            self.wf(),
        ensures
            r.deep_view() == self.entries().filter(
                |c: ClientData| c.subscribed_to(channel@),
            ).map_values(|c: ClientData| c.id@),
    {
        let ghost pred = |c: ClientData| c.subscribed_to(channel@);
        let ghost f = |c: ClientData| c.id@;
        let n = self.entries.len();
        let mut r: Vec<String> = Vec::new();
        proof {
            reveal(Seq::filter);
            assert(r.deep_view() =~= self.entries().take(0).filter(pred).map_values(f));
        }
        let mut i: usize = 0;
        while i < n
            invariant
                self.wf(),
                n == self.entries().len(),
                i <= n,
                r.deep_view() == self.entries().take(i as int).filter(pred).map_values(f),
                pred == (|c: ClientData| c.subscribed_to(channel@)),
                f == (|c: ClientData| c.id@),
            decreases n - i,
        {
            let rec = &self.entries[i];
            let nch = rec.channels.len();
            let mut j: usize = 0;
            let mut found = false;
            while j < nch
                invariant
                    self.wf(),
                    i < self.entries().len(),
                    rec == self.entries()[i as int],
                    nch == rec.channels@.len(),
                    j <= nch,
                    found == exists|k: int| 0 <= k < j && rec.channels@[k]@ == channel@,
                decreases nch - j,
            {
                if eq_str(rec.channels[j].as_str(), channel) {
                    found = true;
                }
                j = j + 1;
            }
            proof {
                assert(found == pred(self.entries()[i as int])) by {
                    if found {
                        let k = choose|k: int| 0 <= k < nch && rec.channels@[k]@ == channel@;
                        assert(rec.channel_names()[k] == channel@);
                    }
                    if pred(self.entries()[i as int]) {
                        let k = choose|k: int|
                            0 <= k < rec.channel_names().len() && rec.channel_names()[k]
                                == channel@;
                        assert(rec.channels@[k]@ == channel@);
                    }
                }
                reveal(Seq::filter);
                assert(self.entries().take(i + 1).drop_last() =~= self.entries().take(i as int));
                assert(self.entries().take(i + 1).last() == self.entries()[i as int]);
            }
            if found {
                r.push(rec.id.clone());
                proof {
                    reveal(Seq::filter);
                    let t1 = self.entries().take(i + 1);
                    let t0 = self.entries().take(i as int);
                    assert(t1.drop_last() =~= t0);
                    assert(t1.last() == self.entries()[i as int]);
                    assert(t1.filter(pred) == t0.filter(pred).push(t1.last()));
                    assert(t1.filter(pred).map_values(f) =~= t0.filter(pred).map_values(f).push(
                        f(t1.last()),
                    ));
                    assert(r.deep_view() =~= t0.filter(pred).map_values(f).push(f(t1.last())));
                }
            } else {
                proof {
                    reveal(Seq::filter);
                    let t1 = self.entries().take(i + 1);
                    let t0 = self.entries().take(i as int);
                    assert(t1.drop_last() =~= t0);
                    assert(t1.last() == self.entries()[i as int]);
                    assert(t1.filter(pred) == t0.filter(pred));
                }
            }
            i = i + 1;
        }
        proof {
            assert(self.entries().take(n as int) =~= self.entries());
        }
        r
    }

    /// Project every record for the stats surface, in registration
    /// order.
    pub fn snapshot(&self) -> (r: Vec<ClientStats>)
        requires
            self.wf(),
        ensures
            r@.len() == self.entries().len(),
            forall|i: int| 0 <= i < r@.len() ==> reflects(r@[i], self.entries()[i]),
    {
        let n = self.entries.len();
        let mut r: Vec<ClientStats> = Vec::new();
        let mut i: usize = 0;
        while i < n
            invariant
                self.wf(),
                n == self.entries().len(),
                i <= n,
                r@.len() == i,
                forall|j: int| 0 <= j < i ==> reflects(r@[j], self.entries()[j]),
            decreases n - i,
        {
            let rec = &self.entries[i];
            let stats = ClientStats {
                id: rec.id.clone(),
                ip: rec.ip.clone(),
                user_agent: clone_opt_string(&rec.user_agent),
                channels: clone_strings(&rec.channels),
                connected_at: rec.connected_at,
                metadata: clone_pairs(&rec.metadata),
            };
            r.push(stats);
            i = i + 1;
        }
        r
    }
}

/// What `remove` promises: the id is gone, everything else is intact,
/// and on an id that was already absent the registry is unchanged.
pub open spec fn remove_post(prior: ClientRegistry, now: ClientRegistry, id: Seq<char>) -> bool {
    &&& !now.has(id)
    &&& now.same_except(prior, id)
    &&& !prior.has(id) ==> now == prior
    &&& now.entries().len() == prior.entries().len() - (
    if prior.has(id) {
        1int
    } else {
        0int
    })
}

/// Removing an id is idempotent: once it is gone, removing it again
/// changes nothing.
pub proof fn lemma_remove_idempotent(
    a: ClientRegistry,
    b: ClientRegistry,
    c: ClientRegistry,
    id: Seq<char>,
)
    requires
        remove_post(a, b, id),
        remove_post(b, c, id),
    ensures
        c == b,
{
}

/// What `detach` promises. `NotFound` exactly when the id is unknown or
/// the record is not subscribed to the channel, and then nothing
/// changes; on success the subscription is gone, and the whole record is
/// gone when that channel was its last.
pub open spec fn detach_post(
    prior: ClientRegistry,
    now: ClientRegistry,
    id: Seq<char>,
    channel: Seq<char>,
    r: Result<(), ApiError>,
) -> bool {
    &&& r is Err <==> (!prior.has(id) || !prior.record_of(id).subscribed_to(channel))
    &&& r is Err ==> r == Result::<(), ApiError>::Err(ApiError::NotFound) && now == prior
    &&& r is Ok ==> {
        &&& now.same_except(prior, id)
        &&& (prior.record_of(id).channel_names().len() == 1 ==> !now.has(id))
        &&& (prior.record_of(id).channel_names().len() > 1 ==> {
            let before = prior.record_of(id);
            let after = now.record_of(id);
            &&& now.has(id)
            &&& after.id@ == before.id@
            &&& after.ip@ == before.ip@
            &&& after.user_agent.deep_view() == before.user_agent.deep_view()
            &&& after.connected_at == before.connected_at
            &&& after.metadata.deep_view() == before.metadata.deep_view()
            &&& !after.subscribed_to(channel)
            &&& forall|n: Seq<char>|
                n != channel ==> (after.subscribed_to(n) <==> before.subscribed_to(n))
            &&& after.channel_names().len() == before.channel_names().len() - 1
        })
    }
}

/// Detaching the same subscription twice yields `NotFound` the second
/// time, and the second call changes nothing.
pub proof fn lemma_detach_twice(
    a: ClientRegistry,
    b: ClientRegistry,
    c: ClientRegistry,
    id: Seq<char>,
    channel: Seq<char>,
    r1: Result<(), ApiError>,
    r2: Result<(), ApiError>,
)
    requires
        detach_post(a, b, id, channel, r1),
        detach_post(b, c, id, channel, r2),
        r1 is Ok,
    ensures
        r2 == Result::<(), ApiError>::Err(ApiError::NotFound),
        c == b,
{
}

/// Every record a well-formed registry holds has at least one channel.
pub proof fn lemma_registered_channels_nonempty(r: ClientRegistry, id: Seq<char>)
    requires
        r.wf(),
        r.has(id),
    ensures
        r.record_of(id).channel_names().len() > 0,
{
    let i = r.index_of(id);
    assert(r.entries()[i].wf());
}

/// With unique ids, the slot found for an id is the one `index_of`
/// denotes.
proof fn lemma_client_index(r: ClientRegistry, id: Seq<char>, i: int)
    requires
        r.wf(),
        0 <= i < r.entries().len(),
        r.entries()[i].id@ == id,
    ensures
        r.has(id),
        r.index_of(id) == i,
{
    assert(r.has(id));
    let j = r.index_of(id);
    if i != j {
        assert(r.entries()[i].id@ != r.entries()[j].id@);
    }
}

/// Deleting one slot removes its id and leaves every other id's record
/// in place.
proof fn lemma_remove_at(prior: ClientRegistry, now: ClientRegistry, i: int)
    requires
        prior.wf(),
        0 <= i < prior.entries().len(),
        now.entries() == prior.entries().remove(i),
    ensures
        now.wf(),
        !now.has(prior.entries()[i].id@),
        now.same_except(prior, prior.entries()[i].id@),
        now.entries().len() == prior.entries().len() - 1,
{
    let id = prior.entries()[i].id@;
    assert forall|a: int, b: int|
        0 <= a < b < now.entries().len() implies now.entries()[a].id@ != now.entries()[b].id@ by {
        let pa = if a < i { a } else { a + 1 };
        let pb = if b < i { b } else { b + 1 };
        assert(prior.entries()[pa].id@ != prior.entries()[pb].id@);
    }
    assert forall|k: int| 0 <= k < now.entries().len() implies (#[trigger] now.entries()[k]).wf() by {
        let pk = if k < i { k } else { k + 1 };
        assert(prior.entries()[pk].wf());
    }
    assert(!now.has(id)) by {
        if now.has(id) {
            let k = now.index_of(id);
            let pk = if k < i { k } else { k + 1 };
            assert(prior.entries()[pk].id@ == id);
            if pk != i {
                assert(prior.entries()[pk].id@ != prior.entries()[i].id@);
            }
        }
    }
    assert forall|n: Seq<char>| n != id implies (now.has(n) <==> prior.has(n)) by {
        if now.has(n) {
            let k = now.index_of(n);
            let pk = if k < i { k } else { k + 1 };
            assert(prior.entries()[pk].id@ == n);
        }
        if prior.has(n) {
            let k = prior.index_of(n);
            assert(k != i);
            let nk = if k < i { k } else { k - 1 };
            assert(now.entries()[nk].id@ == n);
        }
    }
    assert forall|n: Seq<char>|
        n != id && prior.has(n) implies #[trigger] now.record_of(n) == prior.record_of(n) by {
        let k = prior.index_of(n);
        lemma_client_index(prior, n, k);
        assert(k != i);
        let nk = if k < i { k } else { k - 1 };
        assert(now.entries()[nk] == prior.entries()[k]);
        lemma_client_index(now, n, nk);
    }
}

/// Replacing one slot with a well-formed record under the same id keeps
/// the registry well-formed and touches that id alone.
proof fn lemma_replace_at(prior: ClientRegistry, now: ClientRegistry, i: int)
    requires
        prior.wf(),
        0 <= i < prior.entries().len(),
        now.entries().len() == prior.entries().len(),
        forall|j: int| 0 <= j < prior.entries().len() && j != i ==> now.entries()[j] == prior.entries()[j],
        now.entries()[i].id@ == prior.entries()[i].id@,
        now.entries()[i].wf(),
    ensures
        now.wf(),
        now.has(prior.entries()[i].id@),
        now.record_of(prior.entries()[i].id@) == now.entries()[i],
        now.same_except(prior, prior.entries()[i].id@),
{
    let id = prior.entries()[i].id@;
    assert forall|a: int, b: int|
        0 <= a < b < now.entries().len() implies now.entries()[a].id@ != now.entries()[b].id@ by {
        assert(prior.entries()[a].id@ != prior.entries()[b].id@);
    }
    lemma_client_index(now, id, i);
    assert forall|n: Seq<char>| n != id implies (now.has(n) <==> prior.has(n)) by {
        if now.has(n) {
            let j = now.index_of(n);
            assert(prior.entries()[j].id@ == n);
        }
        if prior.has(n) {
            let j = prior.index_of(n);
            assert(now.entries()[j].id@ == n);
        }
    }
    assert forall|n: Seq<char>|
        n != id && prior.has(n) implies #[trigger] now.record_of(n) == prior.record_of(n) by {
        let j = prior.index_of(n);
        lemma_client_index(prior, n, j);
        lemma_client_index(now, n, j);
    }
}

/// Copy an optional string, value for value.
fn clone_opt_string(s: &Option<String>) -> (r: Option<String>)
    ensures
        r.deep_view() == s.deep_view(),
{
    match s {
        Some(v) => Some(v.clone()),
        None => None,
    }
}

/// Copy a list of strings, value for value.
fn clone_strings(v: &Vec<String>) -> (r: Vec<String>)
    ensures
        r.deep_view() == v.deep_view(),
        r@.len() == v@.len(),
        forall|i: int| 0 <= i < v@.len() ==> r@[i]@ == v@[i]@,
{
    let n = v.len();
    let mut r: Vec<String> = Vec::new();
    let mut i: usize = 0;
    while i < n
        invariant
            n == v@.len(),
            i <= n,
            r@.len() == i,
            forall|j: int| 0 <= j < i ==> r@[j]@ == v@[j]@,
        decreases n - i,
    {
        r.push(v[i].clone());
        i = i + 1;
    }
    proof {
        assert(r.deep_view() =~= v.deep_view());
    }
    r
}

/// Copy a list of string pairs, value for value.
fn clone_pairs(v: &Vec<(String, String)>) -> (r: Vec<(String, String)>)
    ensures
        r.deep_view() == v.deep_view(),
        r@.len() == v@.len(),
        forall|i: int| 0 <= i < v@.len() ==> r@[i].0@ == v@[i].0@ && r@[i].1@ == v@[i].1@,
{
    let n = v.len();
    let mut r: Vec<(String, String)> = Vec::new();
    let mut i: usize = 0;
    while i < n
        invariant
            n == v@.len(),
            i <= n,
            r@.len() == i,
            forall|j: int| 0 <= j < i ==> r@[j].0@ == v@[j].0@ && r@[j].1@ == v@[j].1@,
        decreases n - i,
    {
        let p = &v[i];
        r.push((p.0.clone(), p.1.clone()));
        i = i + 1;
    }
    proof {
        assert(r.deep_view() =~= v.deep_view());
    }
    r
}

} // verus!
