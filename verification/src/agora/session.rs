//! What a session needs to connect, and the decisions taken while it waits
//! for the connection and while it runs. The SDK calls, the event channel
//! and the timers that feed these decisions live with the program.

use vstd::prelude::*;
use std::time::Duration;
use vstd::string::StringExecFns;
use crate::agora::error::{AgoraError, AgoraErrorView};
use crate::agora::observer::{outcome_for, outcome_spec, ConnEvent, EventView, Outcome, OutcomeView};
use crate::text::{contains_char, has_char};

verus! {

/// Everything a connection needs, derived from the command line.
pub struct SessionConfig {
    pub app_id: String,
    pub channel: String,
    /// The user id handed to the SDK, always as text; for an all-digit id
    /// this is just the digits.
    pub user_id: String,
    /// `true` when `user_id` is a string account (non-digit, or `s/`-prefixed).
    pub use_string_uid: bool,
    pub token: String,
    pub connect_timeout: Duration,
}

/// The error for a field that contains a NUL character.
pub open spec fn nul_error(field: Seq<char>) -> AgoraErrorView {
    AgoraErrorView { context: field, code: None, detail: Some("contains a NUL byte"@) }
}

/// Text fields are handed to the SDK as C strings, so none may contain NUL:
/// the first offending field (app id, channel, user id, token) is reported.
pub open spec fn config_check_spec(app_id: Seq<char>, channel: Seq<char>, user_id: Seq<char>, token: Seq<char>) -> Option<AgoraErrorView> {
    if has_char(app_id, '\0') {
        Some(nul_error("app id"@))
    } else if has_char(channel, '\0') {
        Some(nul_error("channel"@))
    } else if has_char(user_id, '\0') {
        Some(nul_error("rtc user id"@))
    } else if has_char(token, '\0') {
        Some(nul_error("token"@))
    } else {
        None
    }
}

/// Reject a configuration with a NUL character in a text field, before any
/// SDK call is made.
pub fn check_config(cfg: &SessionConfig) -> (r: Result<(), AgoraError>)
    ensures
        match (r, config_check_spec(cfg.app_id@, cfg.channel@, cfg.user_id@, cfg.token@)) {
            (Ok(_), None) => true,
            (Err(e), Some(v)) => e@ == v,
            _ => false,
        },
{
    if contains_char(cfg.app_id.as_str(), '\0') {
        return Err(AgoraError::msg("app id", "contains a NUL byte"));
    }
    if contains_char(cfg.channel.as_str(), '\0') {
        return Err(AgoraError::msg("channel", "contains a NUL byte"));
    }
    if contains_char(cfg.user_id.as_str(), '\0') {
        return Err(AgoraError::msg("rtc user id", "contains a NUL byte"));
    }
    if contains_char(cfg.token.as_str(), '\0') {
        return Err(AgoraError::msg("token", "contains a NUL byte"));
    }
    Ok(())
}

/// A renewed token is handed to the SDK as a C string: one with a NUL
/// character is rejected.
pub fn check_renew_token(new_token: &str) -> (r: Result<(), AgoraError>)
    ensures
        r is Ok <==> !has_char(new_token@, '\0'),
        r matches Err(e) ==> e@ == (AgoraErrorView {
            context: "renew token"@,
            code: None,
            detail: Some("new token contains a NUL byte"@),
        }),
{
    if contains_char(new_token, '\0') {
        Err(AgoraError::msg("renew token", "new token contains a NUL byte"))
    } else {
        Ok(())
    }
}

/// std's `Debug` rendering of a `Duration`, such as `10s` or `1.5s`.
pub uninterp spec fn duration_debug(d: Duration) -> Seq<char>;

/// `format!("{:?}", d)` for a `Duration`; the text depends on `d` alone.
#[verifier::external_body]
fn debug_duration(d: &Duration) -> (s: String)
    ensures
        s@ == duration_debug(*d),
{
    format!("{:?}", d)
}

/// What arrived while waiting for the connection to come up.
pub enum ConnectWait {
    /// An event from the SDK observer.
    Received(ConnEvent),
    /// Every sender of the event channel is gone.
    ChannelClosed,
    /// The connect timeout ran out.
    TimedOut,
}

/// What the connect wait does next.
pub enum ConnectStep {
    /// Connected, with the SDK's connection id.
    Connected(u32),
    /// Benign noise: keep waiting.
    KeepWaiting,
    /// Tear the connection down and fail with this error.
    Abort(AgoraError),
}

/// The message when the connection did not come up within `timeout`.
pub open spec fn timeout_detail(timeout: Duration) -> Seq<char> {
    "timed out after "@ + duration_debug(timeout)
        + " waiting to connect \u{2014} check app id / token / channel / network"@
}

/// The connect wait's decision on one thing that arrived: a `Connected` event
/// ends the wait with its id; an event whose outcome is fatal aborts with
/// that message; any other event (a shutdown request included, since its
/// sender does not exist yet) keeps waiting; a closed channel or a timeout
/// aborts.
pub open spec fn connect_step_spec(w: ConnectWait, timeout: Duration) -> (Option<u32>, Option<AgoraErrorView>) {
    match w {
        ConnectWait::Received(ev) => match ev@ {
            EventView::Connected { conn_id } => (Some(conn_id), None),
            other => match outcome_spec(other) {
                OutcomeView::Fatal { message } => (
                    None,
                    Some(AgoraErrorView { context: "connect"@, code: None, detail: Some(message) }),
                ),
                _ => (None, None),
            },
        },
        ConnectWait::ChannelClosed => (
            None,
            Some(
                AgoraErrorView {
                    context: "connect"@,
                    code: None,
                    detail: Some("event channel closed unexpectedly"@),
                },
            ),
        ),
        ConnectWait::TimedOut => (
            None,
            Some(AgoraErrorView { context: "connect"@, code: None, detail: Some(timeout_detail(timeout)) }),
        ),
    }
}

/// Decide what the connect wait does with one thing that arrived.
pub fn connect_step(w: &ConnectWait, timeout: &Duration) -> (s: ConnectStep)
    ensures
        match (s, connect_step_spec(*w, *timeout)) {
            (ConnectStep::Connected(id), (Some(j), None)) => id == j,
            (ConnectStep::KeepWaiting, (None, None)) => true,
            (ConnectStep::Abort(e), (None, Some(v))) => e@ == v,
            _ => false,
        },
{
    match w {
        ConnectWait::Received(ev) => match ev {
            ConnEvent::Connected { conn_id } => ConnectStep::Connected(*conn_id),
            _ => match outcome_for(ev) {
                Outcome::Fatal { message } => ConnectStep::Abort(
                    AgoraError::msg("connect", message.as_str()),
                ),
                _ => ConnectStep::KeepWaiting,
            },
        },
        ConnectWait::ChannelClosed => ConnectStep::Abort(
            AgoraError::msg("connect", "event channel closed unexpectedly"),
        ),
        ConnectWait::TimedOut => {
            let mut m = String::from_str("timed out after ");
            let t = debug_duration(timeout);
            m.append(t.as_str());
            m.append(" waiting to connect \u{2014} check app id / token / channel / network");
            ConnectStep::Abort(AgoraError::msg("connect", m.as_str()))
        },
    }
}

/// What the running session does next.
pub enum RunStep {
    /// Stop the run with this result.
    Finish(Result<(), AgoraError>),
    /// Keep waiting for events.
    KeepWaiting,
}

/// The running session's decision on one receive: no event (every sender
/// dropped) or a shutdown stops cleanly, a fatal event stops with the error
/// `connection: <message>`, anything else keeps waiting.
pub open spec fn run_step_spec(ev: Option<EventView>) -> Option<Option<AgoraErrorView>> {
    match ev {
        None => Some(None),
        Some(e) => match outcome_spec(e) {
            OutcomeView::Stop => Some(None),
            OutcomeView::Fatal { message } => Some(
                Some(AgoraErrorView { context: "connection"@, code: None, detail: Some(message) }),
            ),
            _ => None,
        },
    }
}

/// Decide what the running session does with one receive from its channel.
pub fn run_step(ev: &Option<ConnEvent>) -> (s: RunStep)
    ensures
        match (
            s,
            run_step_spec(
                match ev {
                    Some(e) => Some(e@),
                    None => None,
                },
            ),
        ) {
            (RunStep::Finish(Ok(_)), Some(None)) => true,
            (RunStep::Finish(Err(e)), Some(Some(v))) => e@ == v,
            (RunStep::KeepWaiting, None) => true,
            _ => false,
        },
{
    match ev {
        None => RunStep::Finish(Ok(())),
        Some(e) => match outcome_for(e) {
            Outcome::Stop => RunStep::Finish(Ok(())),
            Outcome::Fatal { message } => RunStep::Finish(
                Err(AgoraError::msg("connection", message.as_str())),
            ),
            _ => RunStep::KeepWaiting,
        },
    }
}

} // verus!
