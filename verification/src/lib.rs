//! Realtime message fan-out gateway core.
//!
//! Named channels carry JSON payloads from an authenticated webhook to
//! WebSocket subscribers through a bounded, lossy broadcast ring. This
//! crate holds the verified engine: admission (rate limiting and the
//! delegated-auth decision), the channel and client registries, the
//! per-channel ring, identifier minting, and the admin operations.
//! Transport plumbing (HTTP, WebSocket, timers) lives outside.

mod api_types;
mod errors;
mod message;
mod handlers;
mod channels;
mod clock;
mod clients;
mod hub;
mod auth;
mod ids;
mod state;
mod json;
mod rate_limit;
mod text;
mod worker;

pub use channels::{ChannelRegistry, ChannelStats};
pub use clients::{ClientData, ClientRegistry, ClientStats, DisconnectPayload};
pub use auth::{AuthCallResult, AuthResponse, WsQuery, encode_auth_envelope, decode_auth_reply, interpret_auth_reply};
pub use api_types::{ApiResponse, ApiResult, IntoApiResponse, api_response};
pub use errors::ApiError;
pub use message::Message;
pub use handlers::{admin_auth, check_rate_limit, disconnect_user, stats_handler, webhook_handler, webhook_publish_at, ws_admission};
pub use state::AppState;
pub use hub::{Hub, HubModel, RecvModel, RecvOutcome, RING_CAPACITY};
pub use ids::mini_id;
pub use json::{canonicalize_json, encode_string_object};
pub use rate_limit::{RateLimiter, RateLimitEntry};
pub use text::{eq_str, token_matches};
pub use worker::{HEARTBEAT_INTERVAL_MS, PeerFrame, ReceiverAction, SenderAction, SenderEvent, close_connection, connect_at, heartbeat_frame, open_connection, receiver_step, sender_step};

