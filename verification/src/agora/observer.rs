//! Connection events surfaced by the SDK's observer callbacks (or, for
//! `Shutdown`, by the SIGINT handler and the `--duration` timer), and the
//! decision the main loop takes on each of them.

use vstd::prelude::*;
use vstd::string::StringExecFns;
use crate::agora::error::{code_suffix, error_name};
use crate::text::{dec_int, push_signed_decimal};

verus! {

/// Events surfaced from the SDK observer callbacks (or, for `Shutdown`, from
/// the SIGINT handler / `--duration` timer).
#[derive(Debug, Clone, PartialEq, Eq)]
pub enum ConnEvent {
    /// The connection came up; `conn_id` is the SDK's connection id.
    Connected { conn_id: u32 },
    /// The SDK disconnected us, with its reason code.
    Disconnected { reason: i32 },
    /// The connection was lost.
    ConnectionLost,
    /// The SDK reported an error (or connect returned one).
    Failed { code: i32, msg: String },
    /// SIGINT received or `--duration` elapsed.
    Shutdown,
    /// The token is about to expire; only the renew task listens for this.
    TokenWillExpire { current: String },
}

/// What the main thread should do given a received `ConnEvent`.
#[derive(Debug, Clone, PartialEq, Eq)]
pub enum Outcome {
    /// We're connected: print `ready`, then idle.
    Ready { conn_id: u32 },
    /// Stop cleanly with exit code 0.
    Stop,
    /// Abort with a non-zero exit and this message.
    Fatal { message: String },
    /// Benign noise: keep waiting.
    Continue,
}

/// What a `ConnEvent` holds.
pub enum EventView {
    Connected { conn_id: u32 },
    Disconnected { reason: i32 },
    ConnectionLost,
    Failed { code: i32, msg: Seq<char> },
    Shutdown,
    TokenWillExpire { current: Seq<char> },
}

/// What an `Outcome` holds.
pub enum OutcomeView {
    Ready { conn_id: u32 },
    Stop,
    Fatal { message: Seq<char> },
    Continue,
}

impl View for ConnEvent {
    type V = EventView;

    open spec fn view(&self) -> EventView {
        match self {
            ConnEvent::Connected { conn_id } => EventView::Connected { conn_id: *conn_id },
            ConnEvent::Disconnected { reason } => EventView::Disconnected { reason: *reason },
            ConnEvent::ConnectionLost => EventView::ConnectionLost,
            ConnEvent::Failed { code, msg } => EventView::Failed { code: *code, msg: msg@ },
            ConnEvent::Shutdown => EventView::Shutdown,
            ConnEvent::TokenWillExpire { current } => EventView::TokenWillExpire {
                current: current@,
            },
        }
    }
}

impl View for Outcome {
    type V = OutcomeView;

    open spec fn view(&self) -> OutcomeView {
        match self {
            Outcome::Ready { conn_id } => OutcomeView::Ready { conn_id: *conn_id },
            Outcome::Stop => OutcomeView::Stop,
            Outcome::Fatal { message } => OutcomeView::Fatal { message: message@ },
            Outcome::Continue => OutcomeView::Continue,
        }
    }
}

/// The message for an SDK error `code` with its (possibly empty) text.
pub open spec fn failure_message(code: i32, msg: Seq<char>) -> Seq<char> {
    "connection error"@ + code_suffix(code) + if msg.len() == 0 {
        Seq::empty()
    } else {
        ": "@ + msg
    }
}

/// The decision for each event.
pub open spec fn outcome_spec(e: EventView) -> OutcomeView {
    match e {
        EventView::Connected { conn_id } => OutcomeView::Ready { conn_id },
        EventView::Shutdown => OutcomeView::Stop,
        EventView::ConnectionLost => OutcomeView::Fatal { message: "connection lost"@ },
        EventView::Disconnected { reason } => OutcomeView::Fatal {
            message: "disconnected (reason "@ + dec_int(reason as int) + ")"@,
        },
        EventView::Failed { code, msg } => OutcomeView::Fatal { message: failure_message(code, msg) },
        EventView::TokenWillExpire { .. } => OutcomeView::Continue,
    }
}

/// Given an event just received, what happens next.
pub fn outcome_for(event: &ConnEvent) -> (o: Outcome)
    ensures
        o@ == outcome_spec(event@),
{
    match event {
        ConnEvent::Connected { conn_id } => Outcome::Ready { conn_id: *conn_id },
        ConnEvent::Shutdown => Outcome::Stop,
        ConnEvent::ConnectionLost => Outcome::Fatal { message: String::from_str("connection lost") },
        ConnEvent::Disconnected { reason } => {
            let mut m = String::from_str("disconnected (reason ");
            push_signed_decimal(&mut m, *reason as i64);
            m.append(")");
            Outcome::Fatal { message: m }
        },
        ConnEvent::Failed { code, msg } => {
            let mut m = String::from_str("connection error (code ");
            push_signed_decimal(&mut m, *code as i64);
            match error_name(*code) {
                Some(n) => {
                    m.append(": ");
                    m.append(n);
                    m.append(")");
                },
                None => {
                    m.append(")");
                },
            }
            let ghost head = m@;
            assert(head =~= "connection error"@ + code_suffix(*code)) by {
                reveal_strlit("connection error (code ");
                reveal_strlit("connection error");
                reveal_strlit(" (code ");
            }
            if !msg.as_str().is_empty() {
                m.append(": ");
                m.append(msg.as_str());
            }
            proof {
                let tail = if msg@.len() == 0 {
                    Seq::<char>::empty()
                } else {
                    ": "@ + msg@
                };
                assert(m@ =~= head + tail);
            }
            Outcome::Fatal { message: m }
        },
        ConnEvent::TokenWillExpire { .. } => Outcome::Continue,
    }
}

} // verus!
