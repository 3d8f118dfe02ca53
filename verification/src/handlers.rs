//! The decision cores of the HTTP surface: admin gating, stats,
//! forced disconnect, the webhook publish path, and WebSocket
//! admission. Transport concerns (routing, header parsing, the
//! upgrade) stay outside and hand plain values in.

use vstd::prelude::*;
use crate::auth::WsQuery;
use crate::channels::ChannelStats;
use crate::clients::{ClientData, ClientStats, DisconnectPayload, reflects, detach_post};
use crate::errors::ApiError;
use crate::json::{canonicalize_json, json_canon_of};
use crate::rate_limit::entry_step;
use crate::state::AppState;
use crate::text::{eq_str, token_matches};

verus! {

/// The view of an optional borrowed string.
pub open spec fn opt_view(o: Option<&str>) -> Option<Seq<char>> {
    match o {
        Option::None => Option::None,
        Option::Some(s) => Option::Some(s@),
    }
}

/// Gate an admin request: the `authorization` header must carry exactly
/// the configured token. The comparison runs in time independent of
/// where the first mismatch sits.
pub fn admin_auth(auth_header: Option<&str>, admin_token: &str) -> (r: Result<(), ApiError>)
    ensures
        r is Ok <==> opt_view(auth_header) == Option::Some(admin_token@),
        r is Err ==> r == Result::<(), ApiError>::Err(ApiError::Unauthorised),
{
    match auth_header {
        Some(h) => {
            if token_matches(h, admin_token) {
                Ok(())
            } else {
                Err(ApiError::Unauthorised)
            }
        },
        None => Err(ApiError::Unauthorised),
    }
}

/// Project both registries for the stats surface. The projections are
/// taken against one and the same state; nothing is mutated.
pub fn stats_handler(state: &AppState) -> (r: (Vec<ChannelStats>, Vec<ClientStats>))
    requires
        state.wf(),
    ensures
        r.0@.len() == state.channels.entries().len(),
        forall|i: int|
            0 <= i < r.0@.len() ==> {
                let e = #[trigger] state.channels.entries()[i];
                &&& r.0@[i].channel_id@ == e.0@
                &&& r.0@[i].connections == e.1@.cursors.len()
                &&& r.0@[i].messages == e.1@.total
                &&& r.0@[i].last_message == e.1@.last_message_at
            },
        r.1@.len() == state.clients.entries().len(),
        forall|i: int| 0 <= i < r.1@.len() ==> reflects(r.1@[i], state.clients.entries()[i]),
{
    (state.channels.stats(), state.clients.snapshot())
}

/// Force-detach one channel from one connection: `NotFound` when the
/// id is unknown or not subscribed to the channel; a record left with
/// no channels leaves the registry. Channels and rate windows are
/// untouched — the connection's worker notices the removal on its own.
pub fn disconnect_user(state: &mut AppState, payload: &DisconnectPayload) -> (r: Result<
    (),
    ApiError,
>)
    requires
        old(state).wf(),
    ensures
        final(state).wf(),
        detach_post(
            old(state).clients,
            final(state).clients,
            payload.id@,
            payload.channel@,
            r,
        ),
        final(state).channels == old(state).channels,
        final(state).rate_limits == old(state).rate_limits,
        final(state).admin_token == old(state).admin_token,
        final(state).api_endpoint == old(state).api_endpoint,
{
    state.clients.detach(payload.id.as_str(), payload.channel.as_str())
}

/// What a webhook request comes to, before any state changes: the
/// canonical payload to publish, or the error to surface. Authorisation
/// is checked first, then the content type, then the body.
pub open spec fn webhook_outcome(
    admin_token: Seq<char>,
    auth: Option<Seq<char>>,
    content_type: Option<Seq<char>>,
    body: Seq<char>,
) -> Result<Seq<char>, ApiError> {
    if auth != Option::Some(admin_token) {
        Result::Err(ApiError::Unauthorised)
    } else if content_type != Option::Some("application/json"@) {
        Result::Err(ApiError::UnsupportedMediaType)
    } else {
        match json_canon_of(body) {
            Option::None => Result::Err(ApiError::BadRequest),
            Option::Some(canon) => Result::Ok(canon),
        }
    }
}

/// Publish one webhook payload into `channel_id` at instant `now_ms`:
/// on success the canonical serialisation of the body is recorded in
/// the channel's hub (created on this publish if it did not exist) and
/// the advisory list of the connection ids subscribed to the channel
/// comes back. On any rejection the state is untouched.
pub fn webhook_publish_at(
    state: &mut AppState,
    channel_id: &str,
    auth_header: Option<&str>,
    content_type: Option<&str>,
    body: &str,
    now_ms: i64,
) -> (r: Result<Vec<String>, ApiError>)
    requires
        old(state).wf(),
        channel_id@.len() > 0,
        old(state).channels.has(channel_id@) ==> old(state).channels.hub_of(
            channel_id@,
        ).total < u64::MAX,
    ensures
        final(state).wf(),
        final(state).clients == old(state).clients,
        final(state).rate_limits == old(state).rate_limits,
        final(state).admin_token == old(state).admin_token,
        final(state).api_endpoint == old(state).api_endpoint,
        match webhook_outcome(
            old(state).admin_token@,
            opt_view(auth_header),
            opt_view(content_type),
            body@,
        ) {
            Result::Err(e) => r == Result::<Vec<String>, ApiError>::Err(e) && *final(state)
                == *old(state),
            Result::Ok(canon) => {
                &&& r matches Ok(ids) && ids.deep_view() == old(state).clients.entries().filter(
                    |c: ClientData| c.subscribed_to(channel_id@),
                ).map_values(|c: ClientData| c.id@)
                &&& final(state).channels.updated(
                    old(state).channels,
                    channel_id@,
                    old(state).channels.hub_or_new(channel_id@).publish_m(canon, now_ms),
                )
            },
        },
{
    let authed = match auth_header {
        Some(h) => token_matches(h, state.admin_token.as_str()),
        None => false,
    };
    if !authed {
        return Err(ApiError::Unauthorised);
    }
    let ct_ok = match content_type {
        Some(c) => eq_str(c, "application/json"),
        None => false,
    };
    if !ct_ok {
        return Err(ApiError::UnsupportedMediaType);
    }
    match canonicalize_json(body) {
        None => Err(ApiError::BadRequest),
        Some(canon) => {
            let sent_to = state.clients.ids_in_channel(channel_id);
            state.channels.publish(channel_id, canon, now_ms);
            Ok(sent_to)
        },
    }
}

/// As [`webhook_publish_at`], stamping the publish with the current
/// wall-clock time.
pub fn webhook_handler(
    state: &mut AppState,
    channel_id: &str,
    auth_header: Option<&str>,
    content_type: Option<&str>,
    body: &str,
) -> (r: Result<Vec<String>, ApiError>)
    requires
        old(state).wf(),
        channel_id@.len() > 0,
        old(state).channels.has(channel_id@) ==> old(state).channels.hub_of(
            channel_id@,
        ).total < u64::MAX,
    ensures
        final(state).wf(),
        final(state).clients == old(state).clients,
        final(state).rate_limits == old(state).rate_limits,
        final(state).admin_token == old(state).admin_token,
        final(state).api_endpoint == old(state).api_endpoint,
        match webhook_outcome(
            old(state).admin_token@,
            opt_view(auth_header),
            opt_view(content_type),
            body@,
        ) {
            Result::Err(e) => r == Result::<Vec<String>, ApiError>::Err(e) && *final(state)
                == *old(state),
            Result::Ok(canon) => {
                &&& r matches Ok(ids) && ids.deep_view() == old(state).clients.entries().filter(
                    |c: ClientData| c.subscribed_to(channel_id@),
                ).map_values(|c: ClientData| c.id@)
                &&& exists|t: i64|
                    final(state).channels.updated(
                        old(state).channels,
                        channel_id@,
                        old(state).channels.hub_or_new(channel_id@).publish_m(canon, t),
                    )
            },
        },
{
    let now_ms = crate::clock::utc_now_ms();
    let r = webhook_publish_at(state, channel_id, auth_header, content_type, body, now_ms);
    proof {
        let outcome = webhook_outcome(
            old(state).admin_token@,
            opt_view(auth_header),
            opt_view(content_type),
            body@,
        );
        if outcome is Ok {
            let canon = outcome->Ok_0;
            assert(final(state).channels.updated(
                old(state).channels,
                channel_id@,
                old(state).channels.hub_or_new(channel_id@).publish_m(canon, now_ms),
            ));
        }
    }
    r
}

/// Decide one rate-limited request from `addr` at instant `now_ms`:
/// denial surfaces as `TooManyRequests`, and the address's window is
/// advanced exactly as the fixed-window rule says.
pub fn check_rate_limit(state: &mut AppState, addr: &str, now_ms: u64) -> (r: Result<
    (),
    ApiError,
>)
    requires
        old(state).wf(),
    ensures
        final(state).wf(),
        final(state).channels == old(state).channels,
        final(state).clients == old(state).clients,
        final(state).admin_token == old(state).admin_token,
        final(state).api_endpoint == old(state).api_endpoint,
        final(state).rate_limits.limit_spec() == old(state).rate_limits.limit_spec(),
        final(state).rate_limits.window_spec() == old(state).rate_limits.window_spec(),
        ({
            let step = entry_step(
                old(state).rate_limits.opt_entry(addr@),
                now_ms,
                old(state).rate_limits.limit_spec(),
                old(state).rate_limits.window_spec(),
            );
            &&& (r is Ok <==> step.0)
            &&& (r is Err ==> r == Result::<(), ApiError>::Err(ApiError::TooManyRequests))
            &&& final(state).rate_limits.opt_entry(addr@) == Option::Some(step.1)
            &&& forall|a: Seq<char>|
                a != addr@ ==> final(state).rate_limits.opt_entry(a) == old(
                    state,
                ).rate_limits.opt_entry(a)
        }),
{
    if state.rate_limits.check(addr, now_ms) {
        Ok(())
    } else {
        Err(ApiError::TooManyRequests)
    }
}

/// The pre-upgrade admission of one WebSocket request: a missing query,
/// or an empty channel or token, is a bad request and consumes no rate
/// budget; otherwise the peer's rate window decides.
pub fn ws_admission(
    state: &mut AppState,
    query: Option<&WsQuery>,
    addr: &str,
    now_ms: u64,
) -> (r: Result<(), ApiError>)
    requires
        old(state).wf(),
    ensures
        final(state).wf(),
        final(state).channels == old(state).channels,
        final(state).clients == old(state).clients,
        final(state).admin_token == old(state).admin_token,
        final(state).api_endpoint == old(state).api_endpoint,
        ({
            let bad = match query {
                Option::None => true,
                Option::Some(q) => q.channel@.len() == 0 || q.token@.len() == 0,
            };
            if bad {
                r == Result::<(), ApiError>::Err(ApiError::BadRequest) && *final(state) == *old(
                    state,
                )
            } else {
                let step = entry_step(
                    old(state).rate_limits.opt_entry(addr@),
                    now_ms,
                    old(state).rate_limits.limit_spec(),
                    old(state).rate_limits.window_spec(),
                );
                &&& (r is Ok <==> step.0)
                &&& (r is Err ==> r == Result::<(), ApiError>::Err(ApiError::TooManyRequests))
                &&& final(state).rate_limits.opt_entry(addr@) == Option::Some(step.1)
                &&& forall|a: Seq<char>|
                    a != addr@ ==> final(state).rate_limits.opt_entry(a) == old(
                        state,
                    ).rate_limits.opt_entry(a)
            }
        }),
{
    let q = match query {
        Some(q) => q,
        None => {
            return Err(ApiError::BadRequest);
        },
    };
    if q.channel.as_str().unicode_len() == 0 || q.token.as_str().unicode_len() == 0 {
        return Err(ApiError::BadRequest);
    }
    check_rate_limit(state, addr, now_ms)
}

} // verus!
