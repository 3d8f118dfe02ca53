//! The per-channel broadcast hub: a bounded, lossy fan-out ring.
//!
//! A hub keeps the last [`RING_CAPACITY`] published messages together with
//! one cursor per attached receiver. Messages carry an absolute index,
//! counting from the first publish; a receiver's cursor is the absolute
//! index of the next message it has yet to see. When a publish would
//! exceed the capacity the oldest stored message is dropped, and a
//! receiver whose cursor points below the window learns that it lagged
//! and is moved forward to the oldest message still available. Delivery
//! within one hub preserves publish order for every receiver that does
//! not overflow.

use vstd::prelude::*;

verus! {

/// How many undelivered messages the ring holds for its slowest receiver
/// before the oldest one is dropped.
pub const RING_CAPACITY: usize = 10;

/// Mathematical model of a hub.
#[verifier::ext_equal]
pub struct HubModel {
    /// The messages still held, oldest first.
    pub stored: Seq<Seq<char>>,
    /// Absolute index of `stored[0]`.
    pub window_start: u64,
    /// Total number of successful publishes; also the absolute index one
    /// past the newest stored message. This is the channel's
    /// `message_count`.
    pub total: u64,
    /// When the last message was published, in milliseconds since the
    /// Unix epoch, if any message was ever published.
    pub last_message_at: Option<i64>,
    /// One entry per attached receiver, in subscription order:
    /// (receiver id, absolute index of the next message to deliver).
    pub cursors: Seq<(u64, u64)>,
    /// The id the next subscriber will get; larger than every live id.
    pub next_rid: u64,
}

/// What one receive step yields.
pub enum RecvModel {
    /// No receiver with that id is attached.
    Gone,
    /// The receiver has seen everything published so far.
    Empty,
    /// The receiver fell behind and the given number of messages were
    /// dropped for it; its cursor now sits at the oldest available one.
    Lagged(u64),
    /// The next message, verbatim.
    Msg(Seq<char>),
}

impl HubModel {
    pub open spec fn wf(self) -> bool {
        &&& self.window_start + self.stored.len() == self.total
        &&& self.stored.len() <= RING_CAPACITY
        &&& forall|i: int|
            0 <= i < self.cursors.len() ==> (#[trigger] self.cursors[i]).1 <= self.total
        &&& forall|i: int|
            0 <= i < self.cursors.len() ==> (#[trigger] self.cursors[i]).0 < self.next_rid
        &&& forall|i: int, j: int|
            0 <= i < j < self.cursors.len() ==> self.cursors[i].0 != self.cursors[j].0
    }

    pub open spec fn init() -> HubModel {
        HubModel {
            stored: Seq::empty(),
            window_start: 0,
            total: 0,
            last_message_at: None,
            cursors: Seq::empty(),
            next_rid: 0,
        }
    }

    pub open spec fn has_receiver(self, rid: u64) -> bool {
        exists|i: int| 0 <= i < self.cursors.len() && (#[trigger] self.cursors[i]).0 == rid
    }

    pub open spec fn receiver_index(self, rid: u64) -> int {
        choose|i: int| 0 <= i < self.cursors.len() && (#[trigger] self.cursors[i]).0 == rid
    }

    /// The absolute index of the next message receiver `rid` has yet to
    /// see.
    pub open spec fn cursor_of(self, rid: u64) -> u64 {
        self.cursors[self.receiver_index(rid)].1
    }

    /// The message with absolute index `i`, provided it is in the window.
    pub open spec fn message_at(self, i: int) -> Seq<char> {
        self.stored[i - self.window_start]
    }

    /// Is the message with absolute index `i` still available?
    pub open spec fn in_window(self, i: int) -> bool {
        self.window_start <= i < self.total
    }

    pub open spec fn subscribe_m(self) -> HubModel {
        HubModel {
            cursors: self.cursors.push((self.next_rid, self.total)),
            next_rid: (self.next_rid + 1) as u64,
            ..self
        }
    }

    pub open spec fn unsubscribe_m(self, rid: u64) -> HubModel {
        if self.has_receiver(rid) {
            HubModel { cursors: self.cursors.remove(self.receiver_index(rid)), ..self }
        } else {
            self
        }
    }

    pub open spec fn publish_m(self, msg: Seq<char>, now_ms: i64) -> HubModel {
        HubModel {
            stored: if self.stored.len() < RING_CAPACITY {
                self.stored.push(msg)
            } else {
                self.stored.drop_first().push(msg)
            },
            window_start: if self.stored.len() < RING_CAPACITY {
                self.window_start
            } else {
                (self.window_start + 1) as u64
            },
            total: (self.total + 1) as u64,
            last_message_at: Some(now_ms),
            ..self
        }
    }

    /// The state after moving receiver `rid`'s cursor to `pos`.
    pub open spec fn with_cursor(self, rid: u64, pos: u64) -> HubModel {
        HubModel { cursors: self.cursors.update(self.receiver_index(rid), (rid, pos)), ..self }
    }

    /// One receive step of receiver `rid`: the state afterwards and what
    /// the receiver gets.
    pub open spec fn recv_step(self, rid: u64) -> (HubModel, RecvModel) {
        if !self.has_receiver(rid) {
            (self, RecvModel::Gone)
        } else {
            let pos = self.cursor_of(rid);
            if pos < self.window_start {
                (
                    self.with_cursor(rid, self.window_start),
                    RecvModel::Lagged((self.window_start - pos) as u64),
                )
            } else if pos == self.total {
                (self, RecvModel::Empty)
            } else {
                (self.with_cursor(rid, (pos + 1) as u64), RecvModel::Msg(self.message_at(pos as int)))
            }
        }
    }
}

/// With unique receiver ids, the index found for a receiver is the one
/// `receiver_index` denotes.
pub proof fn lemma_receiver_index(m: HubModel, rid: u64, i: int)
    requires
        m.wf(),
        0 <= i < m.cursors.len(),
        m.cursors[i].0 == rid,
    ensures
        m.has_receiver(rid),
        m.receiver_index(rid) == i,
{
    assert(m.has_receiver(rid));
    let j = m.receiver_index(rid);
    if i != j {
        assert(m.cursors[i].0 != m.cursors[j].0);
    }
}

/// A receiver that has seen everything published so far receives, after
/// one publish, exactly the published message, verbatim, and its cursor
/// moves past it.
pub proof fn lemma_publish_delivers_to_current(m: HubModel, rid: u64, msg: Seq<char>, now_ms: i64)
    requires
        m.wf(),
        m.has_receiver(rid),
        m.cursor_of(rid) == m.total,
        m.total < u64::MAX,
    ensures
        ({
            let after = m.publish_m(msg, now_ms);
            let (next, got) = after.recv_step(rid);
            &&& got == RecvModel::Msg(msg)
            &&& next.cursor_of(rid) == m.total + 1
        }),
{
    let after = m.publish_m(msg, now_ms);
    let i = m.receiver_index(rid);
    lemma_receiver_index(after, rid, i);
    assert(after.cursor_of(rid) == m.total);
    assert(after.message_at(m.total as int) == msg);
    let next = after.recv_step(rid).0;
    lemma_receiver_index(after, rid, i);
    assert(next.cursors[i] == (rid, (m.total + 1) as u64));
    lemma_receiver_index(next, rid, i);
}

/// A receiver that has not overflowed — its cursor still inside the
/// window — receives on each step exactly the stored message at its
/// cursor, verbatim, and moves one message forward: delivery follows
/// publish order.
pub proof fn lemma_recv_in_window_is_verbatim(m: HubModel, rid: u64)
    requires
        m.wf(),
        m.has_receiver(rid),
        m.window_start <= m.cursor_of(rid) < m.total,
    ensures
        m.recv_step(rid).1 == RecvModel::Msg(m.message_at(m.cursor_of(rid) as int)),
        m.recv_step(rid).0.cursor_of(rid) == m.cursor_of(rid) + 1,
{
    let i = m.receiver_index(rid);
    let next = m.recv_step(rid).0;
    assert(next.cursors[i] == (rid, (m.cursor_of(rid) + 1) as u64));
    lemma_receiver_index(next, rid, i);
}

/// When the ring is full, a publish drops exactly the oldest stored
/// message: the window advances by one, the stalled receiver sitting at
/// the old window start is told it lagged by one, and every other stored
/// message — all that any other receiver had yet to see — survives
/// unchanged. No cursor moves on the publish itself.
pub proof fn lemma_overflow_drops_oldest(m: HubModel, msg: Seq<char>, now_ms: i64, stalled: u64)
    requires
        m.wf(),
        m.stored.len() == RING_CAPACITY,
        m.has_receiver(stalled),
        m.cursor_of(stalled) == m.window_start,
        m.total < u64::MAX,
    ensures
        ({
            let after = m.publish_m(msg, now_ms);
            &&& after.window_start == m.window_start + 1
            &&& !after.in_window(m.window_start as int)
            &&& forall|i: int|
                m.window_start + 1 <= i < m.total ==> after.message_at(i) == m.message_at(i)
            &&& after.message_at(m.total as int) == msg
            &&& forall|r: u64| after.has_receiver(r) <==> m.has_receiver(r)
            &&& forall|r: u64| m.has_receiver(r) ==> after.cursor_of(r) == m.cursor_of(r)
            &&& after.recv_step(stalled).1 == RecvModel::Lagged(1)
        }),
{
    let after = m.publish_m(msg, now_ms);
    assert forall|i: int|
        m.window_start + 1 <= i < m.total implies after.message_at(i) == m.message_at(i) by {
        assert(after.stored[i - after.window_start] == m.stored[i - m.window_start]);
    }
    assert forall|r: u64| m.has_receiver(r) implies after.cursor_of(r) == m.cursor_of(r) by {
        let i = m.receiver_index(r);
        lemma_receiver_index(after, r, i);
    }
    assert(after.cursor_of(stalled) == m.window_start);
    assert(after.recv_step(stalled).1 == RecvModel::Lagged(1));
}

/// The operations a hub's state is built from.
pub enum HubOp {
    Publish(Seq<char>, i64),
    Subscribe,
    Unsubscribe(u64),
    Recv(u64),
}

impl HubOp {
    pub open spec fn is_publish(self) -> bool {
        self matches HubOp::Publish(_, _)
    }
}

/// The hub state after running `ops` in order from `m`.
pub open spec fn apply_hub_ops(m: HubModel, ops: Seq<HubOp>) -> HubModel
    decreases ops.len(),
{
    if ops.len() == 0 {
        m
    } else {
        let rest = apply_hub_ops(m, ops.drop_last());
        match ops.last() {
            HubOp::Publish(msg, now_ms) => rest.publish_m(msg, now_ms),
            HubOp::Subscribe => rest.subscribe_m(),
            HubOp::Unsubscribe(rid) => rest.unsubscribe_m(rid),
            HubOp::Recv(rid) => rest.recv_step(rid).0,
        }
    }
}

/// How many of `ops` are publishes.
pub open spec fn count_publishes(ops: Seq<HubOp>) -> nat
    decreases ops.len(),
{
    if ops.len() == 0 {
        0
    } else {
        count_publishes(ops.drop_last()) + if ops.last().is_publish() {
            1nat
        } else {
            0nat
        }
    }
}

/// Whatever operations run against a fresh hub, its `message_count`
/// equals the number of publishes among them.
pub proof fn lemma_message_count_counts_publishes(ops: Seq<HubOp>)
    requires
        ops.len() < u64::MAX,
    ensures
        apply_hub_ops(HubModel::init(), ops).total == count_publishes(ops),
    decreases ops.len(),
{
    if ops.len() > 0 {
        lemma_message_count_counts_publishes(ops.drop_last());
        lemma_count_publishes_le_len(ops.drop_last());
        let rest = apply_hub_ops(HubModel::init(), ops.drop_last());
        match ops.last() {
            HubOp::Publish(msg, now_ms) => {
                assert(rest.total < u64::MAX);
            },
            HubOp::Subscribe => {},
            HubOp::Unsubscribe(rid) => {},
            HubOp::Recv(rid) => {},
        }
    }
}

/// There are no more publishes in a sequence of operations than
/// operations.
proof fn lemma_count_publishes_le_len(ops: Seq<HubOp>)
    ensures
        count_publishes(ops) <= ops.len(),
    decreases ops.len(),
{
    if ops.len() > 0 {
        lemma_count_publishes_le_len(ops.drop_last());
    }
}

/// The live broadcast hub backing one channel.
pub struct Hub {
    ring: Vec<String>,
    window_start: u64,
    total: u64,
    last_message_at_ms: Option<i64>,
    cursors: Vec<(u64, u64)>,
    next_rid: u64,
}

impl View for Hub {
    type V = HubModel;

    closed spec fn view(&self) -> HubModel {
        HubModel {
            stored: self.ring.deep_view(),
            window_start: self.window_start,
            total: self.total,
            last_message_at: self.last_message_at_ms,
            cursors: self.cursors@,
            next_rid: self.next_rid,
        }
    }
}

impl Hub {
    /// A hub with no history and no receivers, as lazily created on a
    /// channel's first subscriber or first publish.
    pub fn new() -> (r: Hub)
        ensures
            r@ == HubModel::init(),
            r@.wf(),
    {
        let r = Hub {
            ring: Vec::new(),
            window_start: 0,
            total: 0,
            last_message_at_ms: None,
            cursors: Vec::new(),
            next_rid: 0,
        };
        proof {
            assert(r@ =~~= HubModel::init());
        }
        r
    }

    /// Attach a fresh receiver; it will see exactly the messages
    /// published after this call.
    pub fn subscribe(&mut self) -> (rid: u64)
        requires
            old(self)@.wf(),
            old(self)@.next_rid < u64::MAX,
        ensures
            final(self)@ == old(self)@.subscribe_m(),
            final(self)@.wf(),
            rid == old(self)@.next_rid,
            final(self)@.has_receiver(rid),
            final(self)@.cursor_of(rid) == old(self)@.total,
    {
        let rid = self.next_rid;
        self.cursors.push((rid, self.total));
        self.next_rid = self.next_rid + 1;
        proof {
            assert(self@ =~~= old(self)@.subscribe_m());
            lemma_receiver_index(self@, rid, self@.cursors.len() - 1);
        }
        rid
    }

    /// How many receivers are attached.
    pub fn receiver_count(&self) -> (r: usize)
        ensures
            r == self@.cursors.len(),
    {
        self.cursors.len()
    }

    /// The number of successful publishes into this channel.
    pub fn message_count(&self) -> (r: u64)
        ensures
            r == self@.total,
    {
        self.total
    }

    /// When the last message was published, if any.
    pub fn last_message_at_ms(&self) -> (r: Option<i64>)
        ensures
            r == self@.last_message_at,
    {
        self.last_message_at_ms
    }

    /// Detach a receiver; on a hub that does not know the id, nothing
    /// changes.
    pub fn unsubscribe(&mut self, rid: u64)
        requires
            old(self)@.wf(),
        ensures
            final(self)@ == old(self)@.unsubscribe_m(rid),
            final(self)@.wf(),
    {
        let n = self.cursors.len();
        let mut i: usize = 0;
        while i < n
            invariant
                self == old(self),
                self@.wf(),
                n == self@.cursors.len(),
                i <= n,
                forall|j: int| 0 <= j < i ==> (#[trigger] self@.cursors[j]).0 != rid,
            decreases n - i,
        {
            if self.cursors[i].0 == rid {
                proof {
                    lemma_receiver_index(self@, rid, i as int);
                }
                self.cursors.remove(i);
                proof {
                    assert(self@ =~~= old(self)@.unsubscribe_m(rid));
                    assert forall|a: int, b: int|
                        0 <= a < b < self@.cursors.len() implies self@.cursors[a].0
                        != self@.cursors[b].0 by {
                        let ca = if a < i as int { a } else { a + 1 };
                        let cb = if b < i as int { b } else { b + 1 };
                        assert(old(self)@.cursors[ca].0 != old(self)@.cursors[cb].0);
                    }
                }
                return ;
            }
            i = i + 1;
        }
        proof {
            assert(!self@.has_receiver(rid));
        }
    }

    /// Record one published message: the count rises by one, the message
    /// joins the window, and if the ring was full the oldest message
    /// leaves it. No cursor moves.
    pub fn publish(&mut self, msg: String, now_ms: i64)
        requires
            old(self)@.wf(),
            old(self)@.total < u64::MAX,
        ensures
            final(self)@ == old(self)@.publish_m(msg@, now_ms),
            final(self)@.wf(),
    {
        if self.ring.len() == RING_CAPACITY {
            self.ring.remove(0);
            self.window_start = self.window_start + 1;
        }
        self.ring.push(msg);
        self.total = self.total + 1;
        self.last_message_at_ms = Some(now_ms);
        proof {
            assert(self@.stored =~~= old(self)@.publish_m(msg@, now_ms).stored);
            assert(self@ =~~= old(self)@.publish_m(msg@, now_ms));
        }
    }

    /// Hand receiver `rid` its next message, or report that it lagged,
    /// that it is caught up, or that no such receiver is attached.
    pub fn recv(&mut self, rid: u64) -> (r: RecvOutcome)
        requires
            old(self)@.wf(),
        ensures
            final(self)@ == old(self)@.recv_step(rid).0,
            final(self)@.wf(),
            r.fits(old(self)@.recv_step(rid).1),
    {
        let n = self.cursors.len();
        let mut i: usize = 0;
        while i < n
            invariant
                self == old(self),
                self@.wf(),
                n == self@.cursors.len(),
                i <= n,
                forall|j: int| 0 <= j < i ==> (#[trigger] self@.cursors[j]).0 != rid,
            decreases n - i,
        {
            if self.cursors[i].0 == rid {
                proof {
                    lemma_receiver_index(self@, rid, i as int);
                }
                let pos = self.cursors[i].1;
                if pos < self.window_start {
                    self.cursors.set(i, (rid, self.window_start));
                    proof {
                        assert(self@ =~~= old(self)@.recv_step(rid).0);
                        lemma_with_cursor_wf(old(self)@, rid, old(self)@.window_start);
                    }
                    return RecvOutcome::Lagged(self.window_start - pos);
                } else if pos == self.total {
                    return RecvOutcome::Empty;
                } else {
                    proof {
                        assert(pos - self.window_start < self.ring@.len());
                    }
                    let msg = self.ring[(pos - self.window_start) as usize].clone();
                    self.cursors.set(i, (rid, pos + 1));
                    proof {
                        assert(self@ =~~= old(self)@.recv_step(rid).0);
                        lemma_with_cursor_wf(old(self)@, rid, (pos + 1) as u64);
                    }
                    return RecvOutcome::Msg(msg);
                }
            }
            i = i + 1;
        }
        proof {
            assert(!self@.has_receiver(rid));
        }
        RecvOutcome::Gone
    }
}

/// Moving a receiver's cursor anywhere at or below `total` keeps the hub
/// well-formed.
proof fn lemma_with_cursor_wf(m: HubModel, rid: u64, pos: u64)
    requires
        m.wf(),
        m.has_receiver(rid),
        pos <= m.total,
    ensures
        m.with_cursor(rid, pos).wf(),
{
    let i = m.receiver_index(rid);
    let m2 = m.with_cursor(rid, pos);
    assert forall|a: int, b: int|
        0 <= a < b < m2.cursors.len() implies m2.cursors[a].0 != m2.cursors[b].0 by {
        assert(m.cursors[a].0 != m.cursors[b].0);
    }
}

/// What a receive call hands back; [`RecvModel`] is its mathematical
/// counterpart.
pub enum RecvOutcome {
    /// No receiver with that id is attached.
    Gone,
    /// Nothing new has been published.
    Empty,
    /// The given number of messages were dropped for this receiver.
    Lagged(u64),
    /// The next message, verbatim.
    Msg(String),
}

impl RecvOutcome {
    /// Does this outcome carry the same information as the model value?
    pub open spec fn fits(self, m: RecvModel) -> bool {
        match (self, m) {
            (RecvOutcome::Gone, RecvModel::Gone) => true,
            (RecvOutcome::Empty, RecvModel::Empty) => true,
            (RecvOutcome::Lagged(a), RecvModel::Lagged(b)) => a == b,
            (RecvOutcome::Msg(s), RecvModel::Msg(t)) => s@ == t,
            _ => false,
        }
    }
}

} // verus!
