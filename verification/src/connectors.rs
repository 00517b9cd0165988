//! Connectors for extension hostcalls.
//!
//! Connectors provide capability-gated access to host resources (HTTP, filesystem, etc.) for
//! extensions.

use crate::json;
use crate::json::JsonValue;
use vstd::prelude::*;

verus! {

broadcast use vstd::string::group_string_axioms;

/// Hostcall request payload from extension.
#[derive(Debug, Clone)]
pub struct HostCallPayload {
    /// The id of the call.
    pub call_id: String,
    /// The capability that is asked for.
    pub capability: String,
    /// What to do with it.
    pub method: String,
    /// The parameters.
    pub params: JsonValue,
    /// How many milliseconds the call may take.
    pub timeout_ms: Option<u64>,
    /// What cancels the call.
    pub cancel_token: Option<String>,
    /// Where the call comes from.
    pub context: Option<JsonValue>,
}

/// Error codes for hostcall failures.
#[derive(Debug, Clone, Copy, PartialEq, Eq, Structural)]
pub enum HostCallErrorCode {
    /// The call took too long.
    Timeout,
    /// The call is not allowed.
    Denied,
    /// The operating system reported an error.
    Io,
    /// The call does not have the required form.
    InvalidRequest,
    /// Anything else.
    Internal,
}

/// Structured error information for hostcall failures.
#[derive(Debug, Clone)]
pub struct HostCallError {
    /// What kind of failure it is.
    pub code: HostCallErrorCode,
    /// What went wrong.
    pub message: String,
    /// Further details.
    pub details: Option<JsonValue>,
    /// Whether the call may be tried again.
    pub retryable: Option<bool>,
}

/// Optional streaming chunk metadata.
#[derive(Debug, Clone)]
pub struct HostStreamChunk {
    /// The place of the chunk.
    pub index: u64,
    /// Whether it is the last one.
    pub is_last: bool,
}

/// Hostcall result payload returned to extension.
#[derive(Debug, Clone)]
pub struct HostResultPayload {
    /// The id of the call.
    pub call_id: String,
    /// What the call gave.
    pub output: JsonValue,
    /// Whether the call failed.
    pub is_error: bool,
    /// Why the call failed.
    pub error: Option<HostCallError>,
    /// Which part of the result this is.
    pub chunk: Option<HostStreamChunk>,
}

/// Whether a result says that the call failed, and why, with an empty object for output.
pub open spec fn failed_with(
    r: HostResultPayload,
    call_id: Seq<char>,
    code: HostCallErrorCode,
    message: Seq<char>,
    details: Option<Seq<char>>,
    retryable: Option<bool>,
) -> bool {
    &&& r.call_id@ == call_id
    &&& r.output@ == "{}"@
    &&& r.is_error
    &&& r.error is Some
    &&& r.error->0.code == code
    &&& r.error->0.message@ == message
    &&& json::opt_json(r.error->0.details) == details
    &&& r.error->0.retryable == retryable
    &&& r.chunk is None
}

/// A successful host result.
pub fn host_result_ok(call_id: &str, output: JsonValue) -> (r: HostResultPayload)
    ensures
        r.call_id@ == call_id@,
        r.output == output,
        !r.is_error,
        r.error is None,
        r.chunk is None,
{
    HostResultPayload {
        call_id: call_id.to_owned(),
        output,
        is_error: false,
        error: None,
        chunk: None,
    }
}

/// An error host result.
pub fn host_result_err(
    call_id: &str,
    code: HostCallErrorCode,
    message: &str,
    retryable: Option<bool>,
) -> (r: HostResultPayload)
    ensures
        failed_with(r, call_id@, code, message@, None, retryable),
        json::object_text(r.output@),
{
    HostResultPayload {
        call_id: call_id.to_owned(),
        output: JsonValue::empty_object(),
        is_error: true,
        error: Some(
            HostCallError { code, message: message.to_owned(), details: None, retryable },
        ),
        chunk: None,
    }
}

/// An error host result with details.
pub fn host_result_err_with_details(
    call_id: &str,
    code: HostCallErrorCode,
    message: &str,
    details: JsonValue,
    retryable: Option<bool>,
) -> (r: HostResultPayload)
    ensures
        failed_with(r, call_id@, code, message@, Some(details@), retryable),
        json::object_text(r.output@),
{
    HostResultPayload {
        call_id: call_id.to_owned(),
        output: JsonValue::empty_object(),
        is_error: true,
        error: Some(
            HostCallError { code, message: message.to_owned(), details: Some(details), retryable },
        ),
        chunk: None,
    }
}

/// The output of every failed call is an object, whatever the failure.
pub proof fn law_failed_calls_give_objects(
    r: HostResultPayload,
    call_id: Seq<char>,
    code: HostCallErrorCode,
    message: Seq<char>,
    details: Option<Seq<char>>,
    retryable: Option<bool>,
)
    requires
        failed_with(r, call_id, code, message, details, retryable),
    ensures
        json::object_text(r.output@),
{
    reveal_strlit("{}");
}

/// A failed call is answered under its own id, as an error, with the code, the message, the details
/// and the advice on trying again that were given, and with an empty object for output.
pub proof fn law_failures_are_told(
    r: HostResultPayload,
    call_id: Seq<char>,
    code: HostCallErrorCode,
    message: Seq<char>,
    details: Option<Seq<char>>,
    retryable: Option<bool>,
)
    ensures
        failed_with(r, call_id, code, message, details, retryable) <==> (r.call_id@ == call_id
            && r.is_error && r.output.text@ == "{}"@ && r.chunk is None && (
        r.error matches Some(error) && error.code == code && error.message@ == message
            && error.retryable == retryable && (details is None <==> error.details is None) && (
        error.details matches Some(value) ==> details == Some(value.text@)))),
{
}

} // verus!
