//! Agora C API integer return codes mapped to legible names, and the
//! `AgoraError` type the publishing layer returns.

use vstd::prelude::*;
use vstd::string::StringExecFns;
use crate::text::{dec_int, push_signed_decimal};

verus! {

/// The `ERROR_CODE_TYPE` name of `code` from the SDK's `AgoraBase.h`, for the
/// codes that have one.
pub open spec fn error_name_spec(code: i32) -> Option<Seq<char>> {
    if code == 0 {
        Some("ERR_OK"@)
    } else if code == 1 {
        Some("ERR_FAILED"@)
    } else if code == 2 {
        Some("ERR_INVALID_ARGUMENT"@)
    } else if code == 3 {
        Some("ERR_NOT_READY"@)
    } else if code == 4 {
        Some("ERR_NOT_SUPPORTED"@)
    } else if code == 5 {
        Some("ERR_REFUSED"@)
    } else if code == 7 {
        Some("ERR_NOT_INITIALIZED"@)
    } else if code == 8 {
        Some("ERR_INVALID_STATE"@)
    } else if code == 10 {
        Some("ERR_TIMEDOUT"@)
    } else if code == 17 {
        Some("ERR_JOIN_CHANNEL_REJECTED"@)
    } else if code == 18 {
        Some("ERR_LEAVE_CHANNEL_REJECTED"@)
    } else if code == 101 {
        Some("ERR_INVALID_APP_ID"@)
    } else if code == 102 {
        Some("ERR_INVALID_CHANNEL_NAME"@)
    } else if code == 109 {
        Some("ERR_TOKEN_EXPIRED"@)
    } else if code == 110 {
        Some("ERR_INVALID_TOKEN"@)
    } else {
        None
    }
}

/// `ERROR_CODE_TYPE` names from the SDK's `AgoraBase.h`. `None` for codes
/// without a name (those are still rendered numerically).
pub fn error_name(code: i32) -> (r: Option<&'static str>)
    ensures
        match (r, error_name_spec(code)) {
            (Some(s), Some(n)) => s@ == n,
            (None, None) => true,
            _ => false,
        },
{
    if code == 0 {
        Some("ERR_OK")
    } else if code == 1 {
        Some("ERR_FAILED")
    } else if code == 2 {
        Some("ERR_INVALID_ARGUMENT")
    } else if code == 3 {
        Some("ERR_NOT_READY")
    } else if code == 4 {
        Some("ERR_NOT_SUPPORTED")
    } else if code == 5 {
        Some("ERR_REFUSED")
    } else if code == 7 {
        Some("ERR_NOT_INITIALIZED")
    } else if code == 8 {
        Some("ERR_INVALID_STATE")
    } else if code == 10 {
        Some("ERR_TIMEDOUT")
    } else if code == 17 {
        Some("ERR_JOIN_CHANNEL_REJECTED")
    } else if code == 18 {
        Some("ERR_LEAVE_CHANNEL_REJECTED")
    } else if code == 101 {
        Some("ERR_INVALID_APP_ID")
    } else if code == 102 {
        Some("ERR_INVALID_CHANNEL_NAME")
    } else if code == 109 {
        Some("ERR_TOKEN_EXPIRED")
    } else if code == 110 {
        Some("ERR_INVALID_TOKEN")
    } else {
        None
    }
}

/// An error from the Agora C API: a failing return code, a NULL handle, or a
/// fatal observer callback.
#[derive(Debug, Clone)]
pub struct AgoraError {
    pub context: String,
    pub code: Option<i32>,
    pub detail: Option<String>,
}

/// What an `AgoraError` holds.
pub struct AgoraErrorView {
    pub context: Seq<char>,
    pub code: Option<i32>,
    pub detail: Option<Seq<char>>,
}

impl View for AgoraError {
    type V = AgoraErrorView;

    open spec fn view(&self) -> AgoraErrorView {
        AgoraErrorView {
            context: self.context@,
            code: self.code,
            detail: match self.detail {
                Some(d) => Some(d@),
                None => None,
            },
        }
    }
}

/// The text of `(code N: NAME)` / `(code N)` for a failing code.
pub open spec fn code_suffix(c: i32) -> Seq<char> {
    match error_name_spec(c) {
        Some(n) => " (code "@ + dec_int(c as int) + ": "@ + n + ")"@,
        None => " (code "@ + dec_int(c as int) + ")"@,
    }
}

/// The rendering of an error: its context, then the code with its name when
/// there is one, then `": "` and the detail when there is one.
pub open spec fn describe_spec(e: AgoraErrorView) -> Seq<char> {
    e.context + match e.code {
        Some(c) => code_suffix(c),
        None => Seq::empty(),
    } + match e.detail {
        Some(d) => ": "@ + d,
        None => Seq::empty(),
    }
}

impl AgoraError {
    /// A failing return code from `context`.
    pub fn code(context: &str, code: i32) -> (e: AgoraError)
        ensures
            e@.context == context@,
            e@.code == Some(code),
            e@.detail is None,
    {
        AgoraError { context: String::from_str(context), code: Some(code), detail: None }
    }

    /// A NULL handle from `context`.
    pub fn null(context: &str) -> (e: AgoraError)
        ensures
            e@.context == context@,
            e@.code is None,
            e@.detail == Some("returned NULL"@),
    {
        AgoraError {
            context: String::from_str(context),
            code: None,
            detail: Some(String::from_str("returned NULL")),
        }
    }

    /// A failure of `context` described by `detail`.
    pub fn msg(context: &str, detail: &str) -> (e: AgoraError)
        ensures
            e@.context == context@,
            e@.code is None,
            e@.detail == Some(detail@),
    {
        AgoraError {
            context: String::from_str(context),
            code: None,
            detail: Some(String::from_str(detail)),
        }
    }

    /// The human-readable rendering: `context`, then ` (code N: NAME)` (or
    /// ` (code N)` for an unnamed code), then `: detail`.
    pub fn describe(&self) -> (s: String)
        ensures
            s@ == describe_spec(self@),
    {
        let mut s = self.context.clone();
        assert(s@ == self@.context);
        match self.code {
            Some(c) => {
                s.append(" (code ");
                push_signed_decimal(&mut s, c as i64);
                match error_name(c) {
                    Some(name) => {
                        s.append(": ");
                        s.append(name);
                        s.append(")");
                    },
                    None => {
                        s.append(")");
                    },
                }
            },
            None => {},
        }
        let ghost mid = s@;
        match &self.detail {
            Some(d) => {
                s.append(": ");
                s.append(d.as_str());
            },
            None => {},
        }
        proof {
            let e = self@;
            let code_part = match e.code {
                Some(c) => code_suffix(c),
                None => Seq::<char>::empty(),
            };
            assert(mid =~= e.context + code_part);
            let detail_part = match e.detail {
                Some(d) => ": "@ + d,
                None => Seq::<char>::empty(),
            };
            assert(s@ =~= mid + detail_part);
        }
        s
    }
}

/// The error `check` returns for a failing `code` from `context`.
pub open spec fn code_error(context: Seq<char>, code: i32) -> AgoraErrorView {
    AgoraErrorView { context, code: Some(code), detail: None }
}

/// Convert a C API integer return into a `Result`: 0 is success.
pub fn check(code: i32, context: &str) -> (r: Result<(), AgoraError>)
    ensures
        code == 0 <==> r is Ok,
        r matches Err(e) ==> e@ == code_error(context@, code),
{
    if code == 0 {
        Ok(())
    } else {
        Err(AgoraError::code(context, code))
    }
}

} // verus!
