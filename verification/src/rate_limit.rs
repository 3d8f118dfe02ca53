//! Fixed-window rate limiting, one counter per remote address.
//!
//! Every decision runs under exclusive access to the
//! address's entry: if the entry is missing or its window has elapsed
//! the counter resets to zero at the current instant; a counter already
//! at the limit denies without incrementing; otherwise the counter
//! rises by one and the request is granted. At the end of every
//! decision each counter is at most the limit.

use vstd::prelude::*;
use crate::text::eq_str;

verus! {

/// One address's window: how many requests were granted since
/// `last_reset`, in milliseconds of a monotonic clock.
#[derive(Clone, Copy, PartialEq, Eq, Structural, Debug)]
pub struct RateLimitEntry {
    pub count: u32,
    pub last_reset: u64,
}

/// Has the window that started at `e.last_reset` elapsed at `now_ms`?
pub open spec fn window_expired(e: RateLimitEntry, now_ms: u64, window_ms: u64) -> bool {
    now_ms >= e.last_reset + window_ms
}

/// One decision over a single address's entry: whether the
/// request is granted, and the entry written back.
pub open spec fn entry_step(
    e: Option<RateLimitEntry>,
    now_ms: u64,
    limit: u32,
    window_ms: u64,
) -> (bool, RateLimitEntry) {
    let base = match e {
        Option::None => RateLimitEntry { count: 0, last_reset: now_ms },
        Option::Some(v) => if window_expired(v, now_ms, window_ms) {
            RateLimitEntry { count: 0, last_reset: now_ms }
        } else {
            v
        },
    };
    if base.count >= limit {
        (false, base)
    } else {
        (true, RateLimitEntry { count: (base.count + 1) as u32, last_reset: base.last_reset })
    }
}

/// The decisions, in order, of a run of requests against one address,
/// together with the entry left behind.
pub open spec fn run_requests(
    e: Option<RateLimitEntry>,
    times: Seq<u64>,
    limit: u32,
    window_ms: u64,
) -> (Seq<bool>, Option<RateLimitEntry>)
    decreases times.len(),
{
    if times.len() == 0 {
        (Seq::empty(), e)
    } else {
        let prefix = run_requests(e, times.drop_last(), limit, window_ms);
        let step = entry_step(prefix.1, times.last(), limit, window_ms);
        (prefix.0.push(step.0), Option::Some(step.1))
    }
}

/// Starting with no entry, requests all falling inside one window are
/// granted exactly while the counter is below the limit: the first
/// `limit` of them pass and every later one is denied.
pub proof fn lemma_fixed_window(times: Seq<u64>, limit: u32, window_ms: u64)
    requires
        times.len() > 0,
        times.len() <= u32::MAX,
        forall|i: int|
            0 <= i < times.len() ==> times[0] <= #[trigger] times[i] < times[0] + window_ms,
    ensures
        ({
            let (decisions, fin) = run_requests(Option::None, times, limit, window_ms);
            &&& decisions.len() == times.len()
            &&& forall|i: int| 0 <= i < times.len() ==> decisions[i] == (i < limit)
            &&& fin == Option::Some(
                RateLimitEntry {
                    count: if times.len() <= limit {
                        times.len() as u32
                    } else {
                        limit
                    },
                    last_reset: times[0],
                },
            )
        }),
    decreases times.len(),
{
    let head = times.drop_last();
    let prefix = run_requests(Option::None, head, limit, window_ms);
    let step = entry_step(prefix.1, times.last(), limit, window_ms);
    if times.len() == 1 {
        assert(head.len() == 0);
        assert(prefix == (Seq::<bool>::empty(), Option::<RateLimitEntry>::None));
        assert(run_requests(Option::None, times, limit, window_ms) == (
            prefix.0.push(step.0),
            Option::Some(step.1),
        ));
    } else {
        assert(head[0] == times[0]);
        assert forall|i: int| 0 <= i < head.len() implies head[0] <= #[trigger] head[i] < head[0]
            + window_ms by {
            assert(head[i] == times[i]);
        }
        lemma_fixed_window(head, limit, window_ms);
        let held = prefix.1.unwrap();
        assert(held.last_reset == times[0]);
        assert(times.last() == times[times.len() - 1]);
        assert(!window_expired(held, times.last(), window_ms));
        let (decisions, fin) = run_requests(Option::None, times, limit, window_ms);
        assert(decisions == prefix.0.push(step.0));
        assert forall|i: int| 0 <= i < times.len() implies decisions[i] == (i < limit) by {
            if i < times.len() - 1 {
                assert(decisions[i] == prefix.0[i]);
            }
        }
    }
}

/// Once the window has elapsed, the next request resets the counter:
/// it is granted (the limit permitting anything at all) and the new
/// window starts at its instant.
pub proof fn lemma_window_reset(e: RateLimitEntry, now_ms: u64, limit: u32, window_ms: u64)
    requires
        limit > 0,
        now_ms >= e.last_reset + window_ms,
    ensures
        entry_step(Option::Some(e), now_ms, limit, window_ms) == (
            true,
            RateLimitEntry { count: 1, last_reset: now_ms },
        ),
{
}

/// At any moment, the counter tracked for any address is at most the
/// limit.
pub proof fn lemma_counter_bounded(rl: RateLimiter, addr: Seq<char>)
    requires
        rl.wf(),
        rl.has(addr),
    ensures
        rl.entries()[rl.index_of(addr)].1.count <= rl.limit_spec(),
{
}

/// The per-address fixed-window limiter.
pub struct RateLimiter {
    limit: u32,
    window_ms: u64,
    entries: Vec<(String, RateLimitEntry)>,
}

impl RateLimiter {
    pub closed spec fn limit_spec(self) -> u32 {
        self.limit
    }

    pub closed spec fn window_spec(self) -> u64 {
        self.window_ms
    }

    pub closed spec fn entries(self) -> Seq<(String, RateLimitEntry)> {
        self.entries@
    }

    /// Addresses are unique and no counter exceeds the limit.
    pub open spec fn wf(self) -> bool {
        &&& forall|i: int, j: int|
            0 <= i < j < self.entries().len() ==> self.entries()[i].0@ != self.entries()[j].0@
        &&& forall|i: int|
            0 <= i < self.entries().len() ==> (#[trigger] self.entries()[i]).1.count
                <= self.limit_spec()
    }

    pub open spec fn has(self, addr: Seq<char>) -> bool {
        exists|i: int| 0 <= i < self.entries().len() && (#[trigger] self.entries()[i]).0@ == addr
    }

    pub open spec fn index_of(self, addr: Seq<char>) -> int {
        choose|i: int| 0 <= i < self.entries().len() && (#[trigger] self.entries()[i]).0@ == addr
    }

    /// The entry tracked for `addr`, if one exists.
    pub open spec fn opt_entry(self, addr: Seq<char>) -> Option<RateLimitEntry> {
        if self.has(addr) {
            Option::Some(self.entries()[self.index_of(addr)].1)
        } else {
            Option::None
        }
    }

    pub fn new(limit: u32, window_ms: u64) -> (r: RateLimiter)
        ensures
            r.wf(),
            r.limit_spec() == limit,
            r.window_spec() == window_ms,
            forall|a: Seq<char>| !r.has(a),
    {
        RateLimiter { limit, window_ms, entries: Vec::new() }
    }

    /// Decide one request from `addr` at instant `now_ms`: `true` lets it through
    /// The address's entry afterwards is exactly what
    /// [`entry_step`] computes; every other address is untouched.
    pub fn check(&mut self, addr: &str, now_ms: u64) -> (r: bool)
        requires
            old(self).wf(),
        ensures
            final(self).wf(),
            final(self).limit_spec() == old(self).limit_spec(),
            final(self).window_spec() == old(self).window_spec(),
            r == entry_step(
                old(self).opt_entry(addr@),
                now_ms,
                old(self).limit_spec(),
                old(self).window_spec(),
            ).0,
            final(self).opt_entry(addr@) == Option::Some(
                entry_step(
                    old(self).opt_entry(addr@),
                    now_ms,
                    old(self).limit_spec(),
                    old(self).window_spec(),
                ).1,
            ),
            forall|a: Seq<char>| a != addr@ ==> final(self).opt_entry(a) == old(self).opt_entry(a),
    {
        let n = self.entries.len();
        let mut i: usize = 0;
        while i < n
            invariant
                *self == *old(self),
                old(self).wf(),
                n == self.entries().len(),
                i <= n,
                forall|j: int| 0 <= j < i ==> (#[trigger] self.entries()[j]).0@ != addr@,
            decreases n - i,
        {
            if eq_str(self.entries[i].0.as_str(), addr) {
                proof {
                    lemma_rate_index(*self, addr@, i as int);
                }
                let prior_entry = self.entries[i].1;
                let expired = now_ms >= prior_entry.last_reset && now_ms - prior_entry.last_reset
                    >= self.window_ms;
                let base = if expired {
                    RateLimitEntry { count: 0, last_reset: now_ms }
                } else {
                    prior_entry
                };
                let (granted, written) = if base.count >= self.limit {
                    (false, base)
                } else {
                    (true, RateLimitEntry { count: base.count + 1, last_reset: base.last_reset })
                };
                let (key, _) = self.entries.remove(i);
                self.entries.insert(i, (key, written));
                proof {
                    assert(expired == window_expired(prior_entry, now_ms, self.window_ms));
                    lemma_rate_update_at(*old(self), *self, i as int);
                }
                return granted;
            }
            i = i + 1;
        }
        // No entry yet: a fresh window starts at this instant.
        let base = RateLimitEntry { count: 0, last_reset: now_ms };
        let (granted, written) = if base.count >= self.limit {
            (false, base)
        } else {
            (true, RateLimitEntry { count: base.count + 1, last_reset: base.last_reset })
        };
        self.entries.push((String::from_str(addr), written));
        proof {
            lemma_rate_insert_new(*old(self), *self, addr@);
        }
        granted
    }
}

/// With unique addresses, the slot found for an address is the one
/// `index_of` denotes.
proof fn lemma_rate_index(r: RateLimiter, addr: Seq<char>, i: int)
    requires
        r.wf(),
        0 <= i < r.entries().len(),
        r.entries()[i].0@ == addr,
    ensures
        r.has(addr),
        r.index_of(addr) == i,
{
    assert(r.has(addr));
    let j = r.index_of(addr);
    if i != j {
        assert(r.entries()[i].0@ != r.entries()[j].0@);
    }
}

/// Replacing the entry in one slot, keeping its address, updates that
/// address alone.
proof fn lemma_rate_update_at(prior: RateLimiter, now: RateLimiter, i: int)
    requires
        prior.wf(),
        0 <= i < prior.entries().len(),
        now.entries().len() == prior.entries().len(),
        now.limit_spec() == prior.limit_spec(),
        now.window_spec() == prior.window_spec(),
        forall|j: int|
            0 <= j < prior.entries().len() && j != i ==> now.entries()[j] == prior.entries()[j],
        now.entries()[i].0@ == prior.entries()[i].0@,
        now.entries()[i].1.count <= prior.limit_spec(),
    ensures
        now.wf(),
        now.opt_entry(prior.entries()[i].0@) == Option::Some(now.entries()[i].1),
        forall|a: Seq<char>|
            a != prior.entries()[i].0@ ==> now.opt_entry(a) == prior.opt_entry(a),
{
    let addr = prior.entries()[i].0@;
    assert forall|a: int, b: int|
        0 <= a < b < now.entries().len() implies now.entries()[a].0@ != now.entries()[b].0@ by {
        assert(prior.entries()[a].0@ != prior.entries()[b].0@);
    }
    lemma_rate_index(now, addr, i);
    assert forall|a: Seq<char>| a != addr implies now.opt_entry(a) == prior.opt_entry(a) by {
        if prior.has(a) {
            let j = prior.index_of(a);
            lemma_rate_index(prior, a, j);
            lemma_rate_index(now, a, j);
        } else {
            if now.has(a) {
                let j = now.index_of(a);
                assert(prior.entries()[j].0@ == a);
            }
        }
    }
}

/// Appending a slot under a fresh address tracks that address alone.
proof fn lemma_rate_insert_new(prior: RateLimiter, now: RateLimiter, addr: Seq<char>)
    requires
        prior.wf(),
        !prior.has(addr),
        now.entries().len() == prior.entries().len() + 1,
        now.limit_spec() == prior.limit_spec(),
        now.window_spec() == prior.window_spec(),
        forall|j: int| 0 <= j < prior.entries().len() ==> now.entries()[j] == prior.entries()[j],
        now.entries().last().0@ == addr,
        now.entries().last().1.count <= prior.limit_spec(),
    ensures
        now.wf(),
        now.opt_entry(addr) == Option::Some(now.entries().last().1),
        forall|a: Seq<char>| a != addr ==> now.opt_entry(a) == prior.opt_entry(a),
{
    let m = prior.entries().len() as int;
    assert forall|a: int, b: int|
        0 <= a < b < now.entries().len() implies now.entries()[a].0@ != now.entries()[b].0@ by {
        if b < m {
            assert(prior.entries()[a].0@ != prior.entries()[b].0@);
        } else {
            if now.entries()[a].0@ == addr {
                assert(prior.entries()[a].0@ == addr);
                assert(prior.has(addr));
            }
        }
    }
    lemma_rate_index(now, addr, m);
    assert forall|a: Seq<char>| a != addr implies now.opt_entry(a) == prior.opt_entry(a) by {
        if prior.has(a) {
            let j = prior.index_of(a);
            lemma_rate_index(prior, a, j);
            lemma_rate_index(now, a, j);
        } else {
            if now.has(a) {
                let j = now.index_of(a);
                assert(j != m);
                assert(prior.entries()[j].0@ == a);
            }
        }
    }
}

} // verus!
