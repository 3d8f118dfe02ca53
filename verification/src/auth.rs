//! The delegated authentication handshake.
//!
//! Every WebSocket upgrade is gated by an operator-supplied HTTP
//! endpoint: the gateway posts an envelope naming the channel, the
//! token, the peer address and the inbound headers, and reads back
//! `{"ok": bool, "metadata": {string: string}}`. The envelope is framed
//! here by verified code, byte for byte; the reply is decoded through
//! serde_json behind a trusted wrapper and interpreted by verified
//! code. The HTTP round-trip itself happens outside and hands its
//! outcome in as a value.

use vstd::prelude::*;
use crate::errors::ApiError;
use crate::json::{quoted, string_object, push_quoted};

verus! {

/// The query string of a WebSocket upgrade request.
pub struct WsQuery {
    pub channel: String,
    pub token: String,
}

/// What the delegated authenticator replies: accept or refuse, plus
/// metadata to attach to the connection record.
pub struct AuthResponse {
    pub ok: bool,
    pub metadata: Vec<(String, String)>,
}

/// The exact JSON body posted to the authenticator.
pub open spec fn auth_envelope_json(
    channel: Seq<char>,
    token: Seq<char>,
    ip: Seq<char>,
    headers: Seq<(Seq<char>, Seq<char>)>,
) -> Seq<char> {
    seq!['{'] + quoted("channel"@) + seq![':'] + quoted(channel) + seq![','] + quoted("token"@)
        + seq![':'] + quoted(token) + seq![','] + quoted("ip"@) + seq![':'] + quoted(ip)
        + seq![','] + quoted("headers"@) + seq![':'] + string_object(headers) + seq!['}']
}

/// Frame the auth envelope: the channel, the token, the peer address
/// rendered `host:port`, and the inbound headers (already filtered to
/// the ones whose values were valid UTF-8).
pub fn encode_auth_envelope(
    channel: &str,
    token: &str,
    ip: &str,
    headers: &Vec<(String, String)>,
) -> (r: String)
    ensures
        r@ == auth_envelope_json(channel@, token@, ip@, headers.deep_view()),
{
    let mut out = String::new();
    proof {
        reveal_strlit("{");
        reveal_strlit("}");
        reveal_strlit(",");
        reveal_strlit(":");
    }
    out.append("{");
    push_quoted(&mut out, "channel");
    out.append(":");
    push_quoted(&mut out, channel);
    out.append(",");
    push_quoted(&mut out, "token");
    out.append(":");
    push_quoted(&mut out, token);
    out.append(",");
    push_quoted(&mut out, "ip");
    out.append(":");
    push_quoted(&mut out, ip);
    out.append(",");
    push_quoted(&mut out, "headers");
    out.append(":");
    let obj = crate::json::encode_string_object(headers);
    out.append(obj.as_str());
    out.append("}");
    proof {
        assert(out@ =~= auth_envelope_json(channel@, token@, ip@, headers.deep_view()));
    }
    out
}

/// What the authenticator's reply text decodes to, when it is a JSON
/// object with a boolean `ok` and an object `metadata` whose values are
/// all strings: the flag and the metadata pairs in serde_json's
/// (sorted) object order.
pub uninterp spec fn auth_reply_of(s: Seq<char>) -> Option<(bool, Seq<(Seq<char>, Seq<char>)>)>;

/// Relies on `serde_json::from_str::<serde_json::Value>` and on
/// `serde_json::Value`'s accessors `get`, `as_bool`, `as_object` and
/// `as_str`: whether the text decodes, and to what, is a function of
/// the text alone (object entries come back in serde_json's sorted key
/// order).
#[verifier::external_body]
pub fn decode_auth_reply(body: &str) -> (r: Option<AuthResponse>)
    ensures
        r is Some <==> auth_reply_of(body@) is Some,
        r matches Some(a) ==> auth_reply_of(body@) == Some((a.ok, a.metadata.deep_view())),
{
    let v: serde_json::Value = serde_json::from_str(body).ok()?;
    let ok = v.get("ok")?.as_bool()?;
    let mut metadata: Vec<(String, String)> = Vec::new();
    for (k, val) in v.get("metadata")?.as_object()? {
        metadata.push((k.clone(), val.as_str()?.to_string()));
    }
    Some(AuthResponse { ok, metadata })
}

/// How one authentication round-trip ended, as far as the transport is
/// concerned.
pub enum AuthCallResult {
    /// The endpoint could not be reached, or the 2-second deadline
    /// passed.
    Unreachable,
    /// The endpoint answered with this status and body.
    Reply { status: u16, body: String },
}

/// The verdict the gateway draws from a decoded reply and the status it
/// came with.
pub open spec fn auth_verdict(
    status: u16,
    reply: Option<(bool, Seq<(Seq<char>, Seq<char>)>)>,
) -> Result<Seq<(Seq<char>, Seq<char>)>, ApiError> {
    if !(200 <= status < 300) {
        Result::Err(ApiError::UpstreamUnavailable)
    } else {
        match reply {
            Option::None => Result::Err(ApiError::UpstreamMalformed),
            Option::Some((ok, metadata)) => if ok {
                Result::Ok(metadata)
            } else {
                Result::Err(ApiError::Unauthorised)
            },
        }
    }
}

/// The verdict drawn from the whole transport outcome.
pub open spec fn call_verdict(result: AuthCallResult) -> Result<
    Seq<(Seq<char>, Seq<char>)>,
    ApiError,
> {
    match result {
        AuthCallResult::Unreachable => Result::Err(ApiError::UpstreamUnavailable),
        AuthCallResult::Reply { status, body } => auth_verdict(status, auth_reply_of(body@)),
    }
}

/// Turn the transport outcome of the auth call into the gateway's
/// decision: metadata on acceptance, or the error to surface. A failed
/// or timed-out call and a non-success status are the upstream being
/// unavailable; an unreadable reply is upstream malfunction; a readable
/// refusal is an authentication refusal.
pub fn interpret_auth_reply(result: AuthCallResult) -> (r: Result<Vec<(String, String)>, ApiError>)
    ensures
        match call_verdict(result) {
            Result::Ok(md) => r matches Ok(v) && v.deep_view() == md,
            Result::Err(e) => r == Result::<Vec<(String, String)>, ApiError>::Err(e),
        },
{
    match result {
        AuthCallResult::Unreachable => Err(ApiError::UpstreamUnavailable),
        AuthCallResult::Reply { status, body } => {
            if !(200 <= status && status < 300) {
                return Err(ApiError::UpstreamUnavailable);
            }
            match decode_auth_reply(body.as_str()) {
                None => Err(ApiError::UpstreamMalformed),
                Some(reply) => {
                    if reply.ok {
                        Ok(reply.metadata)
                    } else {
                        Err(ApiError::Unauthorised)
                    }
                },
            }
        },
    }
}

} // verus!
