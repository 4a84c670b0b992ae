//! Decisions the Responses endpoint makes about failures: which messages are
//! tool-history errors, what a streamed upstream failure is reported as,
//! which HTTP status an upstream failure maps to, and how a stream that stops
//! is closed.
use vstd::prelude::*;

use crate::text::{
    chars_of, has_infix, is_blank, opt_str_view, push_range, str_contains, str_is_blank, trim,
    trimmed,
};

verus! {

/// The longest error message, in characters, that a failed response carries.
pub const MAX_ERROR_MESSAGE_CHARS: usize = 1000;

/// An error answer: an HTTP status, an error type and a message, sent either
/// as an error envelope or as a failed Responses object.
#[derive(Debug, Clone)]
pub struct ErrorReply {
    /// The HTTP status.
    pub status: u16,
    /// The error type.
    pub kind: &'static str,
    /// The error message.
    pub message: String,
    /// Whether it is answered as a failed Responses object rather than an
    /// error envelope.
    pub as_failed_response: bool,
}

/// `r` is the reply with these fields.
pub open spec fn rejects(r: ErrorReply, status: u16, kind: Seq<char>, message: Seq<char>, failed: bool) -> bool {
    r.status == status && r.kind@ == kind && r.message@ == message && r.as_failed_response == failed
}

/// The reply with these fields.
pub fn rejection(status: u16, kind: &'static str, message: &str, failed: bool) -> (r: ErrorReply)
    ensures
        rejects(r, status, kind@, message@, failed),
{
    let mut m = String::new();
    crate::text::push_str(&mut m, message);
    ErrorReply { status, kind, message: m, as_failed_response: failed }
}

/// A message about tool calls and their outputs not matching up.
pub open spec fn history_error(m: Seq<char>) -> bool {
    ||| has_infix(m, "tool output"@)
    ||| has_infix(m, "tool call"@)
    ||| has_infix(m, "tool history"@)
    ||| has_infix(m, "duplicate tool"@)
    ||| has_infix(m, "unknown tool"@)
    ||| has_infix(m, "invalid tool"@)
}

/// True for messages about tool calls and outputs that do not match up; such
/// failures are reported as `invalid_tool_history`.
pub fn is_history_error_message(message: &str) -> (b: bool)
    ensures
        b == history_error(message@),
{
    str_contains(message, "tool output") || str_contains(message, "tool call") || str_contains(
        message,
        "tool history",
    ) || str_contains(message, "duplicate tool") || str_contains(message, "unknown tool")
        || str_contains(message, "invalid tool")
}

/// The error type of a failure reported by the upstream stream:
/// `unsupported_multimodal_input` when the upstream refused multimodal input,
/// else `upstream_error`.
pub fn upstream_stream_error_type(multimodal_unsupported: bool) -> (kind: &'static str)
    ensures
        kind@ == (if multimodal_unsupported {
            "unsupported_multimodal_input"@
        } else {
            "upstream_error"@
        }),
{
    if multimodal_unsupported {
        "unsupported_multimodal_input"
    } else {
        "upstream_error"
    }
}

/// The message of a failure reported by the upstream stream: the fixed
/// multimodal explanation when the upstream refused multimodal input, else
/// the upstream's own message.
pub fn upstream_stream_error_message(
    message: &str,
    multimodal_unsupported: bool,
    multimodal_message: &str,
) -> (m: String)
    ensures
        m@ == (if multimodal_unsupported {
            multimodal_message@
        } else {
            message@
        }),
{
    let mut m = String::new();
    if multimodal_unsupported {
        crate::text::push_str(&mut m, multimodal_message);
    } else {
        crate::text::push_str(&mut m, message);
    }
    m
}

/// The first `limit` characters of `message`.
pub fn truncate_chars(message: &str, limit: usize) -> (t: String)
    ensures
        t@ == (if message@.len() <= limit {
            message@
        } else {
            message@.subrange(0, limit as int)
        }),
{
    let v = chars_of(message);
    let end = if v.len() <= limit {
        v.len()
    } else {
        limit
    };
    let mut t = String::new();
    push_range(&mut t, &v, 0, end);
    assert(v@.subrange(0, v@.len() as int) =~= v@);
    t
}

/// The message that the error of a failed Responses object carries: the
/// first `MAX_ERROR_MESSAGE_CHARS` characters of `message`.
pub fn failed_response_message(message: &str) -> (t: String)
    ensures
        t@ == (if message@.len() <= MAX_ERROR_MESSAGE_CHARS {
            message@
        } else {
            message@.subrange(0, MAX_ERROR_MESSAGE_CHARS as int)
        }),
{
    truncate_chars(message, MAX_ERROR_MESSAGE_CHARS)
}

/// A failure reported by the upstream service.
#[derive(Debug, Clone)]
pub enum UpstreamError {
    /// The upstream answered with an HTTP error status.
    Http { status: u16, message: String },
    /// The upstream could not be reached.
    Network(String),
    /// The upstream's answer could not be understood.
    Invalid(String),
}

pub const BAD_GATEWAY: u16 = 502;

/// The HTTP status passed on for an upstream failure: the upstream's own
/// status when it is a valid status code (100 to 999), else 502.
pub open spec fn passed_on_status(e: UpstreamError) -> u16 {
    match e {
        UpstreamError::Http { status, .. } => if 100 <= status && status <= 999 {
            status
        } else {
            BAD_GATEWAY
        },
        _ => BAD_GATEWAY,
    }
}

/// The HTTP status passed on for an upstream failure.
pub fn upstream_http_status(error: &UpstreamError) -> (status: u16)
    ensures
        status == passed_on_status(*error),
{
    match error {
        UpstreamError::Http { status, .. } => if 100 <= *status && *status <= 999 {
            *status
        } else {
            BAD_GATEWAY
        },
        _ => BAD_GATEWAY,
    }
}

/// The status and message of the error response for an upstream failure
/// (whose type is `upstream_error`).
pub fn upstream_error(error: UpstreamError) -> (r: (u16, String))
    ensures
        r.0 == passed_on_status(error),
        r.1@ == match error {
            UpstreamError::Http { message, .. } => message@,
            UpstreamError::Network(message) => message@,
            UpstreamError::Invalid(message) => message@,
        },
{
    let status = upstream_http_status(&error);
    match error {
        UpstreamError::Http { message, .. } => (status, message),
        UpstreamError::Network(message) => (status, message),
        UpstreamError::Invalid(message) => (status, message),
    }
}

/// What a block of the upstream event stream asks for.
#[derive(Debug, Clone, Copy, PartialEq, Eq, Structural)]
pub enum StreamBlock {
    /// The upstream sent an `error` event: the stream fails.
    ErrorEvent,
    /// The upstream's `[DONE]` marker: the stream is finalized.
    Done,
    /// A data payload to be read as a JSON chunk.
    Data,
    /// A block without data: nothing to do.
    Empty,
}

/// What a block with event name `event` and data `data` asks for.
pub open spec fn block_kind(event: Option<Seq<char>>, data: Option<Seq<char>>) -> StreamBlock {
    if event == Some("error"@) {
        StreamBlock::ErrorEvent
    } else {
        match data {
            None => StreamBlock::Empty,
            Some(d) => if trim(d) == "[DONE]"@ {
                StreamBlock::Done
            } else {
                StreamBlock::Data
            },
        }
    }
}

/// Classifies a block of the upstream event stream.
pub fn classify_stream_block(event: Option<&str>, data: Option<&str>) -> (k: StreamBlock)
    ensures
        k == block_kind(opt_str_view(event), opt_str_view(data)),
{
    if let Some(e) = event {
        if crate::text::str_equal(e, "error") {
            return StreamBlock::ErrorEvent;
        }
    }
    match data {
        None => StreamBlock::Empty,
        Some(d) => {
            let t = trimmed(d);
            if crate::text::str_equal(t.as_str(), "[DONE]") {
                StreamBlock::Done
            } else {
                StreamBlock::Data
            }
        },
    }
}

/// The message of an upstream `error` event: the message found in its JSON
/// data, else its data when not blank, else a fixed text.
pub fn error_event_message(extracted: Option<String>, data: Option<&str>) -> (m: String)
    ensures
        m@ == match extracted {
            Some(x) => x@,
            None => match data {
                Some(d) => if !is_blank(d@) {
                    d@
                } else {
                    "upstream stream error"@
                },
                None => "upstream stream error"@,
            },
        },
{
    match extracted {
        Some(x) => x,
        None => {
            let mut m = String::new();
            match data {
                Some(d) => if !str_is_blank(d) {
                    crate::text::push_str(&mut m, d);
                } else {
                    crate::text::push_str(&mut m, "upstream stream error");
                },
                None => crate::text::push_str(&mut m, "upstream stream error"),
            }
            m
        },
    }
}

/// The failure message of an upstream JSON chunk, or `None` when the chunk
/// is ordinary output: a chunk with an `error` or a `base_resp` field is a
/// failure, reported with the message found in it (`extracted`) or else a
/// fixed text.
pub fn chunk_failure_message(has_error: bool, has_base_resp: bool, extracted: Option<String>) -> (m:
    Option<String>)
    ensures
        match m {
            None => !has_error && !has_base_resp,
            Some(t) => (has_error || has_base_resp) && t@ == match extracted {
                Some(x) => x@,
                None => "upstream stream error"@,
            },
        },
{
    if !has_error && !has_base_resp {
        return None;
    }
    match extracted {
        Some(x) => Some(x),
        None => {
            let mut t = String::new();
            crate::text::push_str(&mut t, "upstream stream error");
            Some(t)
        },
    }
}

/// How a stream that the upstream stopped sending is closed.
#[derive(Debug, Clone, Copy, PartialEq, Eq, Structural)]
pub enum StreamEnd {
    /// A finish reason arrived: the response completes.
    Finalize,
    /// Output arrived without a finish reason: it is marked cut off by length
    /// and the response is finalized as incomplete.
    FinalizeTruncated,
    /// Nothing arrived: the response fails as `stream_truncated`.
    FailTruncated,
}

/// How a stream that ended without `[DONE]` is closed.
pub fn stream_end_action(has_finish_reason: bool, has_substantive_output: bool) -> (a: StreamEnd)
    ensures
        a == (if has_finish_reason {
            StreamEnd::Finalize
        } else if has_substantive_output {
            StreamEnd::FinalizeTruncated
        } else {
            StreamEnd::FailTruncated
        }),
{
    if has_finish_reason {
        StreamEnd::Finalize
    } else if has_substantive_output {
        StreamEnd::FinalizeTruncated
    } else {
        StreamEnd::FailTruncated
    }
}

/// Why a non-streamed response could not be produced.
#[derive(Debug, Clone)]
pub enum CompletionFailure {
    /// The earlier response that the request continues could not be found or
    /// does not match its tool outputs.
    History(String),
    /// The request could not be turned into an upstream request.
    Payload(String),
    /// The request holds input the upstream model does not take.
    UnsupportedInput(String),
    /// The adapter is already serving as many requests as it may.
    AtCapacity,
    /// The upstream request failed; `text` is the failure as displayed, and
    /// `multimodal_refusal` tells whether it is the upstream refusing
    /// multimodal input, explained by `multimodal_message`.
    Upstream { error: UpstreamError, text: String, multimodal_refusal: bool, multimodal_message: String },
    /// The upstream answer could not be turned into a Responses object.
    Assembly(String),
}

/// The answer to a non-streamed request that failed.
pub open spec fn completion_reply_spec(f: CompletionFailure, r: ErrorReply) -> bool {
    match f {
        CompletionFailure::History(m) => rejects(r, 200, "invalid_tool_history"@, m@, true),
        CompletionFailure::Payload(m) => if history_error(m@) {
            rejects(r, 200, "invalid_tool_history"@, m@, true)
        } else {
            rejects(r, 400, "invalid_request_error"@, m@, false)
        },
        CompletionFailure::UnsupportedInput(m) => rejects(
            r,
            200,
            "unsupported_multimodal_input"@,
            m@,
            true,
        ),
        CompletionFailure::AtCapacity => rejects(
            r,
            429,
            "rate_limit_error"@,
            "adapter concurrency limit reached"@,
            false,
        ),
        CompletionFailure::Upstream { error, text, multimodal_refusal, multimodal_message } =>
            if multimodal_refusal {
            rejects(r, 200, "unsupported_multimodal_input"@, multimodal_message@, true)
        } else {
            rejects(r, passed_on_status(error), "upstream_error"@, text@, true)
        },
        CompletionFailure::Assembly(m) => rejects(r, 500, "internal_error"@, m@, true),
    }
}

/// An upstream HTTP failure keeps its status in the answer whenever that
/// status is a valid status code (100 to 999), so 400, 429 or 503 reach the
/// client as they are; only other values, and network or decoding failures,
/// become 502 Bad Gateway. The answer to a non-streamed request that failed
/// so carries that status with the type `upstream_error`.
pub proof fn law_upstream_status_is_passed_on(
    status: u16,
    message: String,
    text: String,
    multimodal_message: String,
    r: ErrorReply,
)
    ensures
        100 <= status <= 999 ==> passed_on_status(UpstreamError::Http { status, message })
            == status,
        !(100 <= status <= 999) ==> passed_on_status(UpstreamError::Http { status, message })
            == 502,
        passed_on_status(UpstreamError::Network(message)) == 502,
        passed_on_status(UpstreamError::Invalid(message)) == 502,
        completion_reply_spec(
            CompletionFailure::Upstream {
                error: UpstreamError::Http { status, message },
                text,
                multimodal_refusal: false,
                multimodal_message,
            },
            r,
        ) ==> r.status == (if 100 <= status <= 999 {
            status
        } else {
            502
        }) && r.kind@ == "upstream_error"@ && r.message@ == text@ && r.as_failed_response,
{
}

/// The answer to a non-streamed request that failed: tool-history problems
/// and refused input become failed responses, a full adapter a 429, upstream
/// failures a failed response with the upstream's status.
pub fn completion_failure_reply(failure: CompletionFailure) -> (r: ErrorReply)
    ensures
        completion_reply_spec(failure, r),
{
    match failure {
        CompletionFailure::History(m) => rejection(200, "invalid_tool_history", m.as_str(), true),
        CompletionFailure::Payload(m) => if is_history_error_message(m.as_str()) {
            rejection(200, "invalid_tool_history", m.as_str(), true)
        } else {
            rejection(400, "invalid_request_error", m.as_str(), false)
        },
        CompletionFailure::UnsupportedInput(m) => rejection(
            200,
            "unsupported_multimodal_input",
            m.as_str(),
            true,
        ),
        CompletionFailure::AtCapacity => rejection(
            429,
            "rate_limit_error",
            "adapter concurrency limit reached",
            false,
        ),
        CompletionFailure::Upstream { error, text, multimodal_refusal, multimodal_message } => {
            if multimodal_refusal {
                rejection(200, "unsupported_multimodal_input", multimodal_message.as_str(), true)
            } else {
                let status = upstream_http_status(&error);
                rejection(status, "upstream_error", text.as_str(), true)
            }
        },
        CompletionFailure::Assembly(m) => rejection(500, "internal_error", m.as_str(), true),
    }
}

/// Why a streamed response failed.
#[derive(Debug, Clone)]
pub enum StreamFailure {
    /// As [`CompletionFailure::History`], before the stream starts.
    History(String),
    /// As [`CompletionFailure::Payload`], before the stream starts.
    Payload(String),
    /// As [`CompletionFailure::UnsupportedInput`].
    UnsupportedInput(String),
    /// The opening events of the stream could not be sent.
    Start(String),
    /// The adapter is already serving as many requests as it may.
    AtCapacity,
    /// The upstream failed, by status, network or an `error` event or chunk;
    /// as in [`CompletionFailure::Upstream`].
    Upstream { text: String, multimodal_refusal: bool, multimodal_message: String },
    /// An upstream data block was not JSON; the parser's message.
    BadChunk(String),
    /// An upstream chunk or the final response could not be processed.
    Processing(String),
    /// The upstream stream ended with no output and no finish reason.
    Truncated,
}

/// How a streamed request's failure is answered.
#[derive(Debug, Clone)]
pub enum StreamFailureReply {
    /// A short stream of its own: created, in progress, failed, done.
    Early { kind: &'static str, message: String },
    /// A plain error answer instead of a stream.
    Plain(ErrorReply),
    /// A `response.failed` event on the open stream, then done.
    Event { kind: &'static str, message: String },
}

pub open spec fn is_event(r: StreamFailureReply, kind: Seq<char>, message: Seq<char>) -> bool {
    r matches StreamFailureReply::Event { kind: k, message: m } && k@ == kind && m@ == message
}

pub open spec fn is_early(r: StreamFailureReply, kind: Seq<char>, message: Seq<char>) -> bool {
    r matches StreamFailureReply::Early { kind: k, message: m } && k@ == kind && m@ == message
}

/// The answer to a streamed request that failed.
pub open spec fn stream_reply_spec(f: StreamFailure, r: StreamFailureReply) -> bool {
    match f {
        StreamFailure::History(m) => is_early(r, "invalid_tool_history"@, m@),
        StreamFailure::Payload(m) => if history_error(m@) {
            is_early(r, "invalid_tool_history"@, m@)
        } else {
            r matches StreamFailureReply::Plain(p) && rejects(
                p,
                400,
                "invalid_request_error"@,
                m@,
                false,
            )
        },
        StreamFailure::UnsupportedInput(m) => is_event(r, "unsupported_multimodal_input"@, m@),
        StreamFailure::Start(m) => is_event(r, "internal_error"@, m@),
        StreamFailure::AtCapacity => is_event(
            r,
            "rate_limit_error"@,
            "adapter concurrency limit reached"@,
        ),
        StreamFailure::Upstream { text, multimodal_refusal, multimodal_message } =>
            if multimodal_refusal {
            is_event(r, "unsupported_multimodal_input"@, multimodal_message@)
        } else {
            is_event(r, "upstream_error"@, text@)
        },
        StreamFailure::BadChunk(m) => is_event(
            r,
            "upstream_error"@,
            "failed to parse upstream SSE data as JSON: "@ + m@,
        ),
        StreamFailure::Processing(m) => is_event(r, "internal_error"@, m@),
        StreamFailure::Truncated => is_event(
            r,
            "stream_truncated"@,
            "Upstream stream ended before sending finish_reason"@,
        ),
    }
}

/// A request whose upstream payload cannot be built because of its tool
/// history (a message about a tool output, tool call, tool history, or a
/// duplicate, unknown or invalid tool) is answered as an
/// `invalid_tool_history` failure, whether streamed or not: streamed, with
/// the early failure stream carrying that message; not streamed, with a
/// failed Responses object. Any other payload failure is a plain 400
/// `invalid_request_error` either way.
pub proof fn law_history_payload_failures_agree(m: String, rs: StreamFailureReply, rc: ErrorReply)
    ensures
        ({
            let history = has_infix(m@, "tool output"@) || has_infix(m@, "tool call"@) || has_infix(
                m@,
                "tool history"@,
            ) || has_infix(m@, "duplicate tool"@) || has_infix(m@, "unknown tool"@) || has_infix(
                m@,
                "invalid tool"@,
            );
            &&& history && stream_reply_spec(StreamFailure::Payload(m), rs) ==> (rs matches StreamFailureReply::Early {
                kind,
                message,
            } && kind@ == "invalid_tool_history"@ && message@ == m@)
            &&& history && completion_reply_spec(CompletionFailure::Payload(m), rc) ==> rc.status
                == 200 && rc.kind@ == "invalid_tool_history"@ && rc.message@ == m@
                && rc.as_failed_response
            &&& !history && stream_reply_spec(StreamFailure::Payload(m), rs) ==> (rs matches StreamFailureReply::Plain(
                p,
            ) && p.status == 400 && p.kind@ == "invalid_request_error"@ && p.message@ == m@)
            &&& !history && completion_reply_spec(CompletionFailure::Payload(m), rc) ==> rc.status
                == 400 && rc.kind@ == "invalid_request_error"@ && rc.message@ == m@
            &&& stream_reply_spec(StreamFailure::Payload(m), rs) && completion_reply_spec(
                CompletionFailure::Payload(m),
                rc,
            ) ==> (rs is Early <==> rc.kind@ == "invalid_tool_history"@)
        }),
{
    reveal_strlit("invalid_tool_history");
    reveal_strlit("invalid_request_error");
}

/// The kind and message of a streamed failure reply, whatever its form.
pub open spec fn reply_kind_message(r: StreamFailureReply) -> (Seq<char>, Seq<char>) {
    match r {
        StreamFailureReply::Early { kind, message } => (kind@, message@),
        StreamFailureReply::Event { kind, message } => (kind@, message@),
        StreamFailureReply::Plain(p) => (p.kind@, p.message@),
    }
}

/// A failure is reported alike whether the request streams or not: a
/// history failure as `invalid_tool_history`, refused input as
/// `unsupported_multimodal_input`, a full adapter as `rate_limit_error` with
/// "adapter concurrency limit reached", and an upstream failure as
/// `upstream_error` with its text, or, when the upstream refused multimodal
/// input, as `unsupported_multimodal_input` with the fixed explanation;
/// each with the same message in both answers.
pub proof fn law_stream_and_plain_failures_agree(
    m: String,
    error: UpstreamError,
    text: String,
    refusal: bool,
    explanation: String,
    rs: StreamFailureReply,
    rc: ErrorReply,
)
    ensures
        stream_reply_spec(StreamFailure::History(m), rs) && completion_reply_spec(
            CompletionFailure::History(m),
            rc,
        ) ==> reply_kind_message(rs) == (rc.kind@, rc.message@) && rc.kind@
            == "invalid_tool_history"@ && rc.message@ == m@,
        stream_reply_spec(StreamFailure::UnsupportedInput(m), rs) && completion_reply_spec(
            CompletionFailure::UnsupportedInput(m),
            rc,
        ) ==> reply_kind_message(rs) == (rc.kind@, rc.message@) && rc.kind@
            == "unsupported_multimodal_input"@ && rc.message@ == m@,
        stream_reply_spec(StreamFailure::AtCapacity, rs) && completion_reply_spec(
            CompletionFailure::AtCapacity,
            rc,
        ) ==> reply_kind_message(rs) == (rc.kind@, rc.message@) && rc.kind@ == "rate_limit_error"@
            && rc.message@ == "adapter concurrency limit reached"@ && rc.status == 429,
        stream_reply_spec(
            StreamFailure::Upstream { text, multimodal_refusal: refusal, multimodal_message: explanation },
            rs,
        ) && completion_reply_spec(
            CompletionFailure::Upstream {
                error,
                text,
                multimodal_refusal: refusal,
                multimodal_message: explanation,
            },
            rc,
        ) ==> reply_kind_message(rs) == (rc.kind@, rc.message@) && (if refusal {
            rc.kind@ == "unsupported_multimodal_input"@ && rc.message@ == explanation@
        } else {
            rc.kind@ == "upstream_error"@ && rc.message@ == text@
        }),
{
}

/// Failures on an open stream are sent as `response.failed` events: a data
/// block that is not JSON as `upstream_error` naming the parser's message,
/// a chunk or completion that cannot be processed and opening events that
/// cannot be sent as `internal_error` with their message, and an upstream
/// that stops with nothing as `stream_truncated`.
pub proof fn law_stream_event_failures(m: String, rs: StreamFailureReply)
    ensures
        stream_reply_spec(StreamFailure::BadChunk(m), rs) ==> (rs matches StreamFailureReply::Event {
            kind,
            message,
        } && kind@ == "upstream_error"@ && message@ == "failed to parse upstream SSE data as JSON: "@
            + m@),
        stream_reply_spec(StreamFailure::Processing(m), rs) ==> (rs matches StreamFailureReply::Event {
            kind,
            message,
        } && kind@ == "internal_error"@ && message@ == m@),
        stream_reply_spec(StreamFailure::Start(m), rs) ==> (rs matches StreamFailureReply::Event {
            kind,
            message,
        } && kind@ == "internal_error"@ && message@ == m@),
        stream_reply_spec(StreamFailure::Truncated, rs) ==> (rs matches StreamFailureReply::Event {
            kind,
            message,
        } && kind@ == "stream_truncated"@ && message@
            == "Upstream stream ended before sending finish_reason"@),
        stream_reply_spec(StreamFailure::History(m), rs) ==> (rs matches StreamFailureReply::Early {
            kind,
            message,
        } && kind@ == "invalid_tool_history"@ && message@ == m@),
{
}

/// The answer to a streamed request that failed: failures before the stream
/// opens get a short stream of their own (or a plain 400 for a malformed
/// request), later ones a `response.failed` event.
pub fn stream_failure_reply(failure: StreamFailure) -> (r: StreamFailureReply)
    ensures
        stream_reply_spec(failure, r),
{
    match failure {
        StreamFailure::History(m) => StreamFailureReply::Early {
            kind: "invalid_tool_history",
            message: m,
        },
        StreamFailure::Payload(m) => if is_history_error_message(m.as_str()) {
            StreamFailureReply::Early { kind: "invalid_tool_history", message: m }
        } else {
            StreamFailureReply::Plain(rejection(400, "invalid_request_error", m.as_str(), false))
        },
        StreamFailure::UnsupportedInput(m) => StreamFailureReply::Event {
            kind: "unsupported_multimodal_input",
            message: m,
        },
        StreamFailure::Start(m) => StreamFailureReply::Event { kind: "internal_error", message: m },
        StreamFailure::AtCapacity => {
            let mut m = String::new();
            crate::text::push_str(&mut m, "adapter concurrency limit reached");
            StreamFailureReply::Event { kind: "rate_limit_error", message: m }
        },
        StreamFailure::Upstream { text, multimodal_refusal, multimodal_message } => {
            let kind = upstream_stream_error_type(multimodal_refusal);
            let message = upstream_stream_error_message(
                text.as_str(),
                multimodal_refusal,
                multimodal_message.as_str(),
            );
            StreamFailureReply::Event { kind, message }
        },
        StreamFailure::BadChunk(e) => {
            let mut m = String::new();
            crate::text::push_str(&mut m, "failed to parse upstream SSE data as JSON: ");
            crate::text::push_str(&mut m, e.as_str());
            StreamFailureReply::Event { kind: "upstream_error", message: m }
        },
        StreamFailure::Processing(m) => StreamFailureReply::Event {
            kind: "internal_error",
            message: m,
        },
        StreamFailure::Truncated => {
            let mut m = String::new();
            crate::text::push_str(&mut m, "Upstream stream ended before sending finish_reason");
            StreamFailureReply::Event { kind: "stream_truncated", message: m }
        },
    }
}

/// Whether a failure happens before the response stream opens; such a
/// failure is answered on its own (see [`stream_failure_reply`]) and never
/// reaches an open stream.
pub open spec fn before_stream(f: StreamFailure) -> bool {
    f is History || f is Payload
}

/// Where a response stream is.
#[derive(Debug, Clone, Copy, PartialEq, Eq, Structural)]
pub enum StreamPhase {
    /// Upstream chunks are being received.
    Open,
    /// The response is being completed; the outcome is awaited.
    Finalizing,
    /// `[DONE]` has been sent.
    Closed,
}

/// What happened on a response stream.
#[derive(Debug, Clone)]
pub enum StreamEvent {
    /// An ordinary upstream chunk arrived.
    Chunk,
    /// The upstream sent its `[DONE]` marker.
    DoneMarker,
    /// The stream failed after it opened.
    Failure(StreamFailure),
    /// The upstream stopped sending without `[DONE]`.
    Ended { has_finish_reason: bool, has_substantive_output: bool },
    /// Completing the response succeeded (`None`) or failed with a message.
    Finalized(Option<String>),
}

/// What the adapter does in answer to a stream event, in order.
#[derive(Debug, Clone)]
pub enum StreamAction {
    /// Hands the chunk to the response being assembled.
    Accept,
    /// Completes the response; its outcome comes back as `Finalized`.
    Finalize,
    /// Marks the output cut off by length and completes the response; its
    /// outcome comes back as `Finalized`.
    FinalizeTruncated,
    /// Sends the failure.
    Fail(StreamFailureReply),
    /// Sends the closing `[DONE]` marker.
    SendDone,
}

/// The phase after `event` in phase `phase`.
pub open spec fn next_phase(phase: StreamPhase, event: StreamEvent) -> StreamPhase {
    match phase {
        StreamPhase::Closed => StreamPhase::Closed,
        StreamPhase::Open => match event {
            StreamEvent::Chunk => StreamPhase::Open,
            StreamEvent::DoneMarker => StreamPhase::Finalizing,
            StreamEvent::Failure(_) => StreamPhase::Closed,
            StreamEvent::Ended { has_finish_reason, has_substantive_output } => if has_finish_reason
                || has_substantive_output {
                StreamPhase::Finalizing
            } else {
                StreamPhase::Closed
            },
            StreamEvent::Finalized(_) => StreamPhase::Open,
        },
        StreamPhase::Finalizing => match event {
            StreamEvent::Finalized(_) => StreamPhase::Closed,
            _ => StreamPhase::Finalizing,
        },
    }
}

/// Whether `event` closes the stream: it moves it into `Closed`.
pub open spec fn closes(phase: StreamPhase, event: StreamEvent) -> bool {
    phase != StreamPhase::Closed && next_phase(phase, event) == StreamPhase::Closed
}

/// The next phase of a response stream and the actions it takes for
/// `event`. An open stream accepts chunks; `[DONE]` from the upstream, or an
/// end with a finish reason or with output, starts completing the
/// response; a failure is sent and closes the stream. While completing, only
/// the outcome counts: success sends `[DONE]`, failure sends an
/// `internal_error` failure and then `[DONE]`. A closed stream, and an event
/// that does not apply in the current phase, does nothing.
pub fn stream_step(phase: StreamPhase, event: StreamEvent) -> (r: (StreamPhase, Vec<StreamAction>))
    requires
        event matches StreamEvent::Failure(f) ==> !before_stream(f),
    ensures
        r.0 == next_phase(phase, event),
        closes(phase, event) ==> r.1@.len() >= 1 && r.1@.last() is SendDone,
        forall|i: int| 0 <= i < r.1@.len() && (#[trigger] r.1@[i]) is SendDone ==> closes(phase, event)
            && i == r.1@.len() - 1,
        next_phase(phase, event) == phase ==> (phase == StreamPhase::Open && event is Chunk
            && r.1@.len() == 1 && r.1@[0] is Accept) || r.1@.len() == 0,
        phase == StreamPhase::Open ==> match event {
            StreamEvent::DoneMarker => r.1@.len() == 1 && r.1@[0] is Finalize,
            StreamEvent::Failure(f) => r.1@.len() == 2 && (r.1@[0] matches StreamAction::Fail(reply)
                && stream_reply_spec(f, reply)),
            StreamEvent::Ended { has_finish_reason, has_substantive_output } => if has_finish_reason {
                r.1@.len() == 1 && r.1@[0] is Finalize
            } else if has_substantive_output {
                r.1@.len() == 1 && r.1@[0] is FinalizeTruncated
            } else {
                r.1@.len() == 2 && (r.1@[0] matches StreamAction::Fail(reply) && stream_reply_spec(
                    StreamFailure::Truncated,
                    reply,
                ))
            },
            _ => true,
        },
        phase == StreamPhase::Finalizing ==> match event {
            StreamEvent::Finalized(None) => r.1@.len() == 1,
            StreamEvent::Finalized(Some(m)) => r.1@.len() == 2 && (r.1@[0] matches StreamAction::Fail(
                reply,
            ) && stream_reply_spec(StreamFailure::Processing(m), reply)),
            _ => true,
        },
{
    let mut actions: Vec<StreamAction> = Vec::new();
    match phase {
        StreamPhase::Closed => (StreamPhase::Closed, actions),
        StreamPhase::Open => match event {
            StreamEvent::Chunk => {
                actions.push(StreamAction::Accept);
                (StreamPhase::Open, actions)
            },
            StreamEvent::DoneMarker => {
                actions.push(StreamAction::Finalize);
                (StreamPhase::Finalizing, actions)
            },
            StreamEvent::Failure(f) => {
                actions.push(StreamAction::Fail(stream_failure_reply(f)));
                actions.push(StreamAction::SendDone);
                (StreamPhase::Closed, actions)
            },
            StreamEvent::Ended { has_finish_reason, has_substantive_output } => {
                match stream_end_action(has_finish_reason, has_substantive_output) {
                    StreamEnd::Finalize => {
                        actions.push(StreamAction::Finalize);
                        (StreamPhase::Finalizing, actions)
                    },
                    StreamEnd::FinalizeTruncated => {
                        actions.push(StreamAction::FinalizeTruncated);
                        (StreamPhase::Finalizing, actions)
                    },
                    StreamEnd::FailTruncated => {
                        actions.push(
                            StreamAction::Fail(stream_failure_reply(StreamFailure::Truncated)),
                        );
                        actions.push(StreamAction::SendDone);
                        (StreamPhase::Closed, actions)
                    },
                }
            },
            StreamEvent::Finalized(_) => (StreamPhase::Open, actions),
        },
        StreamPhase::Finalizing => match event {
            StreamEvent::Finalized(outcome) => {
                match outcome {
                    Some(m) => actions.push(
                        StreamAction::Fail(stream_failure_reply(StreamFailure::Processing(m))),
                    ),
                    None => {},
                }
                actions.push(StreamAction::SendDone);
                (StreamPhase::Closed, actions)
            },
            _ => (StreamPhase::Finalizing, actions),
        },
    }
}

/// The phase of the stream after the first `k` of `events`, from `Open`.
pub open spec fn phase_after(events: Seq<StreamEvent>, k: int) -> StreamPhase
    decreases k,
{
    if k <= 0 {
        StreamPhase::Open
    } else {
        next_phase(phase_after(events, k - 1), events[k - 1])
    }
}

proof fn lemma_closed_stays_closed(events: Seq<StreamEvent>, i: int, j: int)
    requires
        0 <= i <= j,
        phase_after(events, i) == StreamPhase::Closed,
    ensures
        phase_after(events, j) == StreamPhase::Closed,
    decreases j - i,
{
    if j > i {
        lemma_closed_stays_closed(events, i, j - 1);
    }
}

/// After step `j` the stream is closed and takes no action at step `j`.
pub open spec fn quiet_at(events: Seq<StreamEvent>, j: int) -> bool {
    phase_after(events, j) == StreamPhase::Closed && !closes(phase_after(events, j), events[j])
}

/// A response stream sends `[DONE]` at most once, and last: only a step
/// that closes the stream sends it, as its last action, and once a step has
/// closed the stream every later step finds it closed and takes no action.
pub proof fn law_done_at_most_once_and_last(events: Seq<StreamEvent>)
    ensures
        forall|i: int, j: int|
            #![trigger closes(phase_after(events, i), events[i]), quiet_at(events, j)]
            0 <= i < j < events.len() && closes(phase_after(events, i), events[i])
                ==> quiet_at(events, j),
{
    assert forall|i: int, j: int|
        #![trigger closes(phase_after(events, i), events[i]), quiet_at(events, j)]
        0 <= i < j < events.len() && closes(phase_after(events, i), events[i])
            implies quiet_at(events, j) by {
        assert(phase_after(events, i + 1) == StreamPhase::Closed);
        lemma_closed_stays_closed(events, i + 1, j);
    }
}

/// Every way a stream can end reaches `[DONE]`: a failure, or an end with
/// nothing to complete, closes an open stream at once, and once completion
/// has started its outcome closes it.
pub proof fn law_every_ending_closes(phase: StreamPhase, event: StreamEvent)
    ensures
        phase == StreamPhase::Open && (event is Failure || (event matches StreamEvent::Ended {
            has_finish_reason,
            has_substantive_output,
        } && !has_finish_reason && !has_substantive_output)) ==> closes(phase, event),
        phase == StreamPhase::Open && (event is DoneMarker || event is Ended) ==> next_phase(
            phase,
            event,
        ) != StreamPhase::Open,
        phase == StreamPhase::Finalizing && event is Finalized ==> closes(phase, event),
{
}

/// A Responses object as the failure replies carry it: its identifier,
/// model, status and, once failed, its error type (also its code) and
/// message.
#[derive(Debug, Clone)]
pub struct ResponseShell {
    pub id: String,
    pub model: String,
    pub status: &'static str,
    pub error: Option<(&'static str, String)>,
}

/// One message of a response event stream: a named event carrying the
/// response, or the unnamed closing `[DONE]`.
#[derive(Debug, Clone)]
pub struct StreamMessage {
    pub event: Option<&'static str>,
    pub response: Option<ResponseShell>,
}

/// `m` is the event `name` carrying response `id` of `model` in `status`
/// with `error`.
pub open spec fn is_response_event(
    m: StreamMessage,
    name: Seq<char>,
    id: Seq<char>,
    model: Seq<char>,
    status: Seq<char>,
    error: Option<(Seq<char>, Seq<char>)>,
) -> bool {
    &&& m.event matches Some(e) && e@ == name
    &&& m.response matches Some(r) && r.id@ == id && r.model@ == model && r.status@ == status
        && match (r.error, error) {
        (None, None) => true,
        (Some((k, msg)), Some((k2, msg2))) => k@ == k2 && msg@ == msg2,
        _ => false,
    }
}

/// The failed Responses object for response `id` of `model`: status
/// `failed`, with the error's type `kind` and its message cut to
/// `MAX_ERROR_MESSAGE_CHARS` characters.
pub fn failed_response(id: &str, model: &str, kind: &'static str, message: &str) -> (r: ResponseShell)
    ensures
        r.id@ == id@,
        r.model@ == model@,
        r.status@ == "failed"@,
        r.error matches Some((k, m)) && k@ == kind@ && m@ == (if message@.len()
            <= MAX_ERROR_MESSAGE_CHARS {
            message@
        } else {
            message@.subrange(0, MAX_ERROR_MESSAGE_CHARS as int)
        }),
{
    let mut i = String::new();
    crate::text::push_str(&mut i, id);
    let mut m = String::new();
    crate::text::push_str(&mut m, model);
    ResponseShell {
        id: i,
        model: m,
        status: "failed",
        error: Some((kind, failed_response_message(message))),
    }
}

/// The short stream that answers a failure before the upstream is asked
/// (the upstream is never opened): the response `id` is created, in
/// progress, and failed with `kind` and `message`, all three events carrying
/// the same response, and the stream is done.
pub fn early_failure_stream(id: &str, model: &str, kind: &'static str, message: &str) -> (s: Vec<
    StreamMessage,
>)
    ensures
        s@.len() == 4,
        is_response_event(s@[0], "response.created"@, id@, model@, "in_progress"@, None),
        is_response_event(s@[1], "response.in_progress"@, id@, model@, "in_progress"@, None),
        is_response_event(
            s@[2],
            "response.failed"@,
            id@,
            model@,
            "failed"@,
            Some(
                (
                    kind@,
                    if message@.len() <= MAX_ERROR_MESSAGE_CHARS {
                        message@
                    } else {
                        message@.subrange(0, MAX_ERROR_MESSAGE_CHARS as int)
                    },
                ),
            ),
        ),
        s@[3].event is None && s@[3].response is None,
{
    let mut s: Vec<StreamMessage> = Vec::new();
    let mut i1 = String::new();
    crate::text::push_str(&mut i1, id);
    let mut m1 = String::new();
    crate::text::push_str(&mut m1, model);
    s.push(
        StreamMessage {
            event: Some("response.created"),
            response: Some(ResponseShell { id: i1, model: m1, status: "in_progress", error: None }),
        },
    );
    let mut i2 = String::new();
    crate::text::push_str(&mut i2, id);
    let mut m2 = String::new();
    crate::text::push_str(&mut m2, model);
    s.push(
        StreamMessage {
            event: Some("response.in_progress"),
            response: Some(ResponseShell { id: i2, model: m2, status: "in_progress", error: None }),
        },
    );
    s.push(
        StreamMessage {
            event: Some("response.failed"),
            response: Some(failed_response(id, model, kind, message)),
        },
    );
    s.push(StreamMessage { event: None, response: None });
    s
}

/// Whether a request may go on to the upstream, or the reply it gets.
#[derive(Debug, Clone)]
pub enum UpstreamGate<R> {
    /// Every check passed and a concurrency permit is held: call the upstream.
    Call,
    /// Answer with this; the upstream is not called.
    Reply(R),
}

/// The checks before a non-streamed request calls the upstream, in order:
/// the continued response (`previous`), the upstream request (`payload`),
/// input the model does not take (`unsupported`), and a free concurrency
/// permit (`permit`). The upstream is called only when all pass; otherwise
/// the first failure is answered.
pub fn completion_gate(
    previous: Result<(), String>,
    payload: Result<(), String>,
    unsupported: Option<String>,
    permit: bool,
) -> (g: UpstreamGate<ErrorReply>)
    ensures
        g is Call <==> (previous is Ok && payload is Ok && unsupported is None && permit),
        match previous {
            Err(m) => g matches UpstreamGate::Reply(r) && completion_reply_spec(
                CompletionFailure::History(m),
                r,
            ),
            Ok(()) => match payload {
                Err(m) => g matches UpstreamGate::Reply(r) && completion_reply_spec(
                    CompletionFailure::Payload(m),
                    r,
                ),
                Ok(()) => match unsupported {
                    Some(m) => g matches UpstreamGate::Reply(r) && completion_reply_spec(
                        CompletionFailure::UnsupportedInput(m),
                        r,
                    ),
                    None => permit || (g matches UpstreamGate::Reply(r) && completion_reply_spec(
                        CompletionFailure::AtCapacity,
                        r,
                    )),
                },
            },
        },
{
    match previous {
        Err(m) => return UpstreamGate::Reply(completion_failure_reply(CompletionFailure::History(m))),
        Ok(()) => {},
    }
    match payload {
        Err(m) => return UpstreamGate::Reply(completion_failure_reply(CompletionFailure::Payload(m))),
        Ok(()) => {},
    }
    match unsupported {
        Some(m) => return UpstreamGate::Reply(
            completion_failure_reply(CompletionFailure::UnsupportedInput(m)),
        ),
        None => {},
    }
    if permit {
        UpstreamGate::Call
    } else {
        UpstreamGate::Reply(completion_failure_reply(CompletionFailure::AtCapacity))
    }
}

/// The checks before a streamed request opens the upstream stream, in
/// order: the continued response, the upstream request, input the model
/// does not take, sending the stream's opening events (`start`), and a free
/// concurrency permit. The upstream stream is opened only when all pass;
/// otherwise the first failure is answered.
pub fn stream_gate(
    previous: Result<(), String>,
    payload: Result<(), String>,
    unsupported: Option<String>,
    start: Result<(), String>,
    permit: bool,
) -> (g: UpstreamGate<StreamFailureReply>)
    ensures
        g is Call <==> (previous is Ok && payload is Ok && unsupported is None && start is Ok
            && permit),
        match previous {
            Err(m) => g matches UpstreamGate::Reply(r) && stream_reply_spec(StreamFailure::History(m), r),
            Ok(()) => match payload {
                Err(m) => g matches UpstreamGate::Reply(r) && stream_reply_spec(
                    StreamFailure::Payload(m),
                    r,
                ),
                Ok(()) => match unsupported {
                    Some(m) => g matches UpstreamGate::Reply(r) && stream_reply_spec(
                        StreamFailure::UnsupportedInput(m),
                        r,
                    ),
                    None => match start {
                        Err(m) => g matches UpstreamGate::Reply(r) && stream_reply_spec(
                            StreamFailure::Start(m),
                            r,
                        ),
                        Ok(()) => permit || (g matches UpstreamGate::Reply(r) && stream_reply_spec(
                            StreamFailure::AtCapacity,
                            r,
                        )),
                    },
                },
            },
        },
{
    match previous {
        Err(m) => return UpstreamGate::Reply(stream_failure_reply(StreamFailure::History(m))),
        Ok(()) => {},
    }
    match payload {
        Err(m) => return UpstreamGate::Reply(stream_failure_reply(StreamFailure::Payload(m))),
        Ok(()) => {},
    }
    match unsupported {
        Some(m) => return UpstreamGate::Reply(stream_failure_reply(StreamFailure::UnsupportedInput(m))),
        None => {},
    }
    match start {
        Err(m) => return UpstreamGate::Reply(stream_failure_reply(StreamFailure::Start(m))),
        Ok(()) => {},
    }
    if permit {
        UpstreamGate::Call
    } else {
        UpstreamGate::Reply(stream_failure_reply(StreamFailure::AtCapacity))
    }
}

/// `ids` written one after another with `sep` between them.
pub open spec fn join_with(ids: Seq<Seq<char>>, sep: Seq<char>) -> Seq<char>
    decreases ids.len(),
{
    if ids.len() == 0 {
        Seq::empty()
    } else if ids.len() == 1 {
        ids[0]
    } else {
        join_with(ids.drop_last(), sep) + sep + ids.last()
    }
}

/// Where the response that a request continues is looked up.
#[derive(Debug, Clone)]
pub enum PreviousSource {
    /// By the request's `previous_response_id`.
    ById(String),
    /// By the call ids of the tool outputs the request carries.
    ByCallIds,
    /// Nowhere: the request continues nothing.
    Nothing,
}

/// Where the continued response is looked up, once the tool outputs' call
/// ids have been checked for duplicates (`duplicates` is that check's
/// outcome, whose error comes first): by a non-empty `previous_response_id`
/// when there is one, else by the call ids when there are any, else nowhere.
pub fn previous_source(
    previous_response_id: Option<&str>,
    call_ids: &Vec<String>,
    duplicates: Result<(), String>,
) -> (s: Result<PreviousSource, String>)
    ensures
        match duplicates {
            Err(e) => s == Err::<PreviousSource, String>(e),
            Ok(()) => s is Ok && match previous_response_id {
                Some(id) if id@.len() > 0 => s->Ok_0 matches PreviousSource::ById(x) && x@ == id@,
                _ => if call_ids@.len() > 0 {
                    s->Ok_0 is ByCallIds
                } else {
                    s->Ok_0 is Nothing
                },
            },
        },
{
    if let Err(e) = duplicates {
        return Err(e);
    }
    if let Some(id) = previous_response_id {
        if id.unicode_len() > 0 {
            let mut x = String::new();
            crate::text::push_str(&mut x, id);
            return Ok(PreviousSource::ById(x));
        }
    }
    if call_ids.len() > 0 {
        Ok(PreviousSource::ByCallIds)
    } else {
        Ok(PreviousSource::Nothing)
    }
}

/// The call ids, comma separated.
pub fn join_call_ids(ids: &Vec<String>) -> (s: String)
    ensures
        s@ == join_with(ids@.map_values(|x: String| x@), ", "@),
{
    let ghost views = ids@.map_values(|x: String| x@);
    let mut s = String::new();
    let mut i: usize = 0;
    while i < ids.len()
        invariant
            i <= ids.len(),
            views == ids@.map_values(|x: String| x@),
            s@ == join_with(views.subrange(0, i as int), ", "@),
        decreases ids.len() - i,
    {
        if i > 0 {
            crate::text::push_str(&mut s, ", ");
        }
        crate::text::push_str(&mut s, ids[i].as_str());
        proof {
            let next = views.subrange(0, i + 1);
            assert(next.drop_last() =~= views.subrange(0, i as int));
            assert(next.last() == ids@[i as int]@);
            if i == 0 {
                assert(next.len() == 1);
            }
        }
        i = i + 1;
    }
    assert(views.subrange(0, ids@.len() as int) =~= views);
    s
}

/// A found response once the requested call ids have been checked against
/// it (`validated` is that check's outcome).
pub open spec fn checked_found<R>(x: R, validated: Result<(), String>) -> Result<Option<R>, String> {
    match validated {
        Ok(()) => Ok(Some(x)),
        Err(e) => Err(e),
    }
}

/// What the lookup of the continued response gives. `found` is the store's
/// answer (its error passes through) and `validated` the outcome of checking
/// the requested call ids against the response found. A found response is
/// returned only when that check passed; when nothing is found, a lookup by
/// id of a request without tool outputs gives no response, and otherwise the
/// error names what was not found.
pub fn previous_outcome<R>(
    source: &PreviousSource,
    found: Result<Option<R>, String>,
    validated: Result<(), String>,
    call_ids: &Vec<String>,
) -> (r: Result<Option<R>, String>)
    ensures
        match source {
            PreviousSource::Nothing => r is Ok && r->Ok_0 is None,
            PreviousSource::ById(id) => match found {
                Err(e) => r == Err::<Option<R>, String>(e),
                Ok(Some(x)) => r == checked_found(x, validated),
                Ok(None) => if call_ids@.len() == 0 {
                    r is Ok && r->Ok_0 is None
                } else {
                    r is Err && r->Err_0@ == "tool output has no matching stored response: "@
                        + id@
                },
            },
            PreviousSource::ByCallIds => match found {
                Err(e) => r == Err::<Option<R>, String>(e),
                Ok(Some(x)) => r == checked_found(x, validated),
                Ok(None) => r is Err && r->Err_0@ == "unknown or ambiguous tool call id(s): "@
                    + join_with(call_ids@.map_values(|x: String| x@), ", "@),
            },
        },
{
    match source {
        PreviousSource::Nothing => Ok(None),
        PreviousSource::ById(id) => match found {
            Err(e) => Err(e),
            Ok(Some(x)) => match validated {
                Ok(()) => Ok(Some(x)),
                Err(e) => Err(e),
            },
            Ok(None) => if call_ids.len() == 0 {
                Ok(None)
            } else {
                let mut m = String::new();
                crate::text::push_str(&mut m, "tool output has no matching stored response: ");
                crate::text::push_str(&mut m, id.as_str());
                Err(m)
            },
        },
        PreviousSource::ByCallIds => match found {
            Err(e) => Err(e),
            Ok(Some(x)) => match validated {
                Ok(()) => Ok(Some(x)),
                Err(e) => Err(e),
            },
            Ok(None) => {
                let mut m = String::new();
                crate::text::push_str(&mut m, "unknown or ambiguous tool call id(s): ");
                let joined = join_call_ids(call_ids);
                crate::text::push_str(&mut m, joined.as_str());
                Err(m)
            },
        },
    }
}

} // verus!
