//! The helper process's JSON-RPC dispatch decisions.
//!
//! The helper serves the status-reporting tool over stdio JSON-RPC.
//! Reading lines, JSON decoding and the actual reporting happen
//! outside; which request gets which kind of answer — and the exact
//! reply and error texts — are decided here.

use vstd::prelude::*;

use crate::strutil::str_eq;

verus! {

/// The error code for a request naming no known method.
pub const METHOD_NOT_FOUND_CODE: i32 = -32601;

/// The error code for a tool call that failed while reporting.
pub const TOOL_CALL_FAILED_CODE: i32 = -32000;

/// What to do with one decoded request.
pub enum RpcDecision {
    /// A notification (no request id): never answered.
    NoResponse,
    /// Answer with the protocol handshake result.
    Initialize,
    /// The client finished initialising: report an idle status, and
    /// send no response.
    ReportIdle,
    /// Answer with the tool catalogue.
    ToolsList,
    /// Hand the call to the tool-call decision.
    ToolsCall,
    /// Answer with an empty result.
    Ping,
    /// Answer with a method-not-found error.
    MethodNotFound { message: String },
}

/// The dispatch decision for one request: notifications get nothing;
/// the five known methods get their answers; anything else gets a
/// method-not-found error naming the method.
pub fn dispatch_request(method: &str, has_id: bool) -> (r: RpcDecision)
    ensures
        !has_id ==> r is NoResponse,
        has_id ==> match r {
            RpcDecision::NoResponse => false,
            RpcDecision::Initialize => method@ == "initialize"@,
            RpcDecision::ReportIdle => method@ == "notifications/initialized"@,
            RpcDecision::ToolsList => method@ == "tools/list"@,
            RpcDecision::ToolsCall => method@ == "tools/call"@,
            RpcDecision::Ping => method@ == "ping"@,
            RpcDecision::MethodNotFound { message } => method@ != "initialize"@ && method@
                != "notifications/initialized"@ && method@ != "tools/list"@ && method@
                != "tools/call"@ && method@ != "ping"@ && message@ == "Method not found: "@
                + method@,
        },
{
    if !has_id {
        return RpcDecision::NoResponse;
    }
    if str_eq(method, "initialize") {
        RpcDecision::Initialize
    } else if str_eq(method, "notifications/initialized") {
        RpcDecision::ReportIdle
    } else if str_eq(method, "tools/list") {
        RpcDecision::ToolsList
    } else if str_eq(method, "tools/call") {
        RpcDecision::ToolsCall
    } else if str_eq(method, "ping") {
        RpcDecision::Ping
    } else {
        let mut message = String::from_str("Method not found: ");
        message.append(method);
        RpcDecision::MethodNotFound { message }
    }
}

/// The outcome of one tool call.
pub enum ToolCallOutcome {
    /// Report this status, then reply with the given text.
    Report { state: String, message: String, needs_input_prompt: Option<String>, reply: String },
    /// No such tool: reply with the given text, marked as an error.
    UnknownTool { reply: String },
}

/// The decision for one tool call: the status tool reports the given
/// state and message (a missing state counts as `working`, a missing
/// message as empty) and replies with a confirmation naming both; any
/// other tool name replies with an unknown-tool text marked as an
/// error.
pub fn tool_call_decision(
    name: &str,
    state: Option<&str>,
    message: Option<&str>,
    needs_input_prompt: Option<String>,
) -> (r: ToolCallOutcome)
    ensures
        name@ == "maestro_status"@ ==> match r {
            ToolCallOutcome::Report { state: s, message: m, needs_input_prompt: p, reply } => {
                &&& s@ == (match state {
                    Some(st) => st@,
                    None => "working"@,
                })
                &&& m@ == (match message {
                    Some(ms) => ms@,
                    None => Seq::<char>::empty(),
                })
                &&& p == needs_input_prompt
                &&& reply@ == "Status reported: "@ + s@ + " - "@ + m@
            },
            ToolCallOutcome::UnknownTool { .. } => false,
        },
        name@ != "maestro_status"@ ==> (r matches ToolCallOutcome::UnknownTool { reply }
            && reply@ == "Unknown tool: "@ + name@),
{
    if str_eq(name, "maestro_status") {
        let state = match state {
            Some(st) => st.to_owned(),
            None => String::from_str("working"),
        };
        let message = match message {
            Some(ms) => ms.to_owned(),
            None => String::new(),
        };
        let mut reply = String::from_str("Status reported: ");
        reply.append(state.as_str());
        reply.append(" - ");
        reply.append(message.as_str());
        ToolCallOutcome::Report { state, message, needs_input_prompt, reply }
    } else {
        let mut reply = String::from_str("Unknown tool: ");
        reply.append(name);
        ToolCallOutcome::UnknownTool { reply }
    }
}

} // verus!
