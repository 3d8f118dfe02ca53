//! The per-connection worker's decisions.
//!
//! After a successful upgrade a connection is driven by two cooperating
//! tasks: a sender that multiplexes fan-out deliveries with a periodic
//! heartbeat, and a receiver that discards inbound frames until the
//! peer closes. The loops, the timer and the socket live outside; the
//! decisions they take — what to do on each event, how to open and how
//! to tear down a connection — are here, as verified functions from
//! state and event to action.

use vstd::prelude::*;
use crate::clients::ClientData;
use crate::hub::RecvOutcome;
use crate::ids::{mini_id, id_alphabet};
use crate::state::AppState;

verus! {

/// Milliseconds between heartbeats: a subscriber with no traffic is
/// sent `ping` this often.
pub const HEARTBEAT_INTERVAL_MS: u64 = 80000;

/// The literal heartbeat frame.
pub fn heartbeat_frame() -> (r: &'static str)
    ensures
        r@ == "ping"@,
{
    "ping"
}

/// What wakes the sender task.
pub enum SenderEvent {
    /// The channel hub handed this back for our receiver.
    Delivery(RecvOutcome),
    /// The heartbeat timer ticked.
    HeartbeatTick,
}

/// What the sender task does next.
pub enum SenderAction {
    /// Forward this exact text to the peer as one frame.
    SendText(String),
    /// Send the literal heartbeat frame.
    SendPing,
    /// Nothing to send; keep waiting.
    Continue,
    /// Stop: the receiver is gone from the hub.
    Exit,
}

/// The sender's decision table as a relation: a delivered message goes
/// out verbatim, a lag is absorbed (the ring is lossy by design), an
/// empty poll waits, a vanished receiver ends the task, and a tick
/// sends `ping`.
pub open spec fn sender_decision(event: SenderEvent, action: SenderAction) -> bool {
    match event {
        SenderEvent::Delivery(RecvOutcome::Msg(m)) => action matches SenderAction::SendText(s)
            && s@ == m@,
        SenderEvent::Delivery(RecvOutcome::Lagged(_)) => action is Continue,
        SenderEvent::Delivery(RecvOutcome::Empty) => action is Continue,
        SenderEvent::Delivery(RecvOutcome::Gone) => action is Exit,
        SenderEvent::HeartbeatTick => action is SendPing,
    }
}

/// Decide one sender wake-up.
pub fn sender_step(event: SenderEvent) -> (r: SenderAction)
    ensures
        sender_decision(event, r),
{
    match event {
        SenderEvent::Delivery(RecvOutcome::Msg(m)) => SenderAction::SendText(m),
        SenderEvent::Delivery(RecvOutcome::Lagged(_)) => SenderAction::Continue,
        SenderEvent::Delivery(RecvOutcome::Empty) => SenderAction::Continue,
        SenderEvent::Delivery(RecvOutcome::Gone) => SenderAction::Exit,
        SenderEvent::HeartbeatTick => SenderAction::SendPing,
    }
}

/// What the receiver task reads from the peer.
pub enum PeerFrame {
    /// The peer closed the session.
    Close,
    /// Any other frame; subscribers have no upstream channel.
    Other,
    /// The read failed.
    ReadError,
}

/// What the receiver task does next.
pub enum ReceiverAction {
    /// Discard the frame and keep reading.
    Continue,
    /// Stop reading and start the teardown.
    Exit,
}

/// Decide one inbound frame: payloads are discarded, a close or a read
/// error ends the session.
pub fn receiver_step(frame: PeerFrame) -> (r: ReceiverAction)
    ensures
        r is Exit <==> (frame is Close || frame is ReadError),
{
    match frame {
        PeerFrame::Close => ReceiverAction::Exit,
        PeerFrame::Other => ReceiverAction::Continue,
        PeerFrame::ReadError => ReceiverAction::Exit,
    }
}

/// Open one connection under a caller-supplied id at a given instant:
/// subscribe to the channel (creating its hub on first use), then
/// register the record. A duplicate id is refused before anything
/// changes — the caller treats that as a fatal invariant violation.
pub fn connect_at(
    state: &mut AppState,
    channel: &str,
    id: String,
    ip: String,
    user_agent: Option<String>,
    metadata: Vec<(String, String)>,
    now_ms: i64,
) -> (r: Option<u64>)
    requires
        old(state).wf(),
        channel@.len() > 0,
        old(state).channels.has(channel@) ==> old(state).channels.hub_of(
            channel@,
        ).next_rid < u64::MAX,
    ensures
        final(state).wf(),
        final(state).rate_limits == old(state).rate_limits,
        final(state).admin_token == old(state).admin_token,
        final(state).api_endpoint == old(state).api_endpoint,
        r is None <==> old(state).clients.has(id@),
        r is None ==> *final(state) == *old(state),
        r matches Some(rid) ==> {
            &&& rid == old(state).channels.hub_or_new(channel@).next_rid
            &&& final(state).channels.updated(
                old(state).channels,
                channel@,
                old(state).channels.hub_or_new(channel@).subscribe_m(),
            )
            &&& final(state).channels.hub_of(channel@).has_receiver(rid)
            &&& final(state).channels.hub_of(channel@).cursor_of(rid) == old(
                state,
            ).channels.hub_or_new(channel@).total
            &&& final(state).clients.has(id@)
            &&& final(state).clients.same_except(old(state).clients, id@)
            &&& final(state).clients.entries().len() == old(state).clients.entries().len() + 1
            &&& ({
                let rec = final(state).clients.record_of(id@);
                &&& rec.id@ == id@
                &&& rec.ip@ == ip@
                &&& rec.user_agent.deep_view() == user_agent.deep_view()
                &&& rec.channel_names() =~= seq![channel@]
                &&& rec.connected_at == now_ms
                &&& rec.metadata.deep_view() == metadata.deep_view()
            })
        },
{
    if state.clients.contains(id.as_str()) {
        return None;
    }
    let rid = state.channels.subscribe(channel);
    let mut channel_list: Vec<String> = Vec::new();
    channel_list.push(String::from_str(channel));
    let rec = ClientData {
        id,
        ip,
        user_agent,
        channels: channel_list,
        connected_at: now_ms,
        metadata,
    };
    proof {
        assert(rec.channel_names() =~= seq![channel@]);
    }
    let registered = state.clients.register(rec);
    proof {
        assert(registered);
    }
    Some(rid)
}

/// Open one connection: mint a fresh 8-character id, stamp the record
/// with the current time, and attach it to the channel. `None` reports
/// an id collision, with nothing changed — the caller treats it as a
/// fatal invariant violation.
pub fn open_connection(
    state: &mut AppState,
    channel: &str,
    ip: String,
    user_agent: Option<String>,
    metadata: Vec<(String, String)>,
) -> (r: Option<(String, u64)>)
    requires
        old(state).wf(),
        channel@.len() > 0,
        old(state).channels.has(channel@) ==> old(state).channels.hub_of(
            channel@,
        ).next_rid < u64::MAX,
    ensures
        final(state).wf(),
        final(state).rate_limits == old(state).rate_limits,
        final(state).admin_token == old(state).admin_token,
        final(state).api_endpoint == old(state).api_endpoint,
        r is None ==> *final(state) == *old(state),
        r matches Some((id, rid)) ==> {
            &&& id@.len() == 8
            &&& forall|i: int| 0 <= i < id@.len() ==> id_alphabet().contains(#[trigger] id@[i])
            &&& !old(state).clients.has(id@)
            &&& rid == old(state).channels.hub_or_new(channel@).next_rid
            &&& final(state).channels.updated(
                old(state).channels,
                channel@,
                old(state).channels.hub_or_new(channel@).subscribe_m(),
            )
            &&& final(state).clients.has(id@)
            &&& final(state).clients.same_except(old(state).clients, id@)
            &&& ({
                let rec = final(state).clients.record_of(id@);
                &&& rec.id@ == id@
                &&& rec.ip@ == ip@
                &&& rec.user_agent.deep_view() == user_agent.deep_view()
                &&& rec.channel_names() =~= seq![channel@]
                &&& rec.metadata.deep_view() == metadata.deep_view()
            })
        },
{
    let id = mini_id(8);
    let id_copy = id.clone();
    let now_ms = crate::clock::utc_now_ms();
    match connect_at(state, channel, id, ip, user_agent, metadata, now_ms) {
        Some(rid) => Some((id_copy, rid)),
        None => None,
    }
}

/// Tear one connection down: detach its receiver from the channel's
/// hub and delete its record. Both halves are idempotent, so a record
/// already removed by an admin disconnect is tolerated.
pub fn close_connection(state: &mut AppState, channel: &str, id: &str, rid: u64)
    requires
        old(state).wf(),
    ensures
        final(state).wf(),
        final(state).rate_limits == old(state).rate_limits,
        final(state).admin_token == old(state).admin_token,
        final(state).api_endpoint == old(state).api_endpoint,
        crate::clients::remove_post(old(state).clients, final(state).clients, id@),
        !old(state).channels.has(channel@) ==> final(state).channels == old(state).channels,
        old(state).channels.has(channel@) ==> final(state).channels.updated(
            old(state).channels,
            channel@,
            old(state).channels.hub_of(channel@).unsubscribe_m(rid),
        ),
{
    state.channels.unsubscribe(channel, rid);
    state.clients.remove(id);
}

} // verus!
