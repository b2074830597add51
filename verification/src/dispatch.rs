//! Request routing: which top-level method a message names, which tool a
//! `tools/call` invokes, which synthetic resource a `resources/read`
//! addresses, and the small argument rules each tool applies. Messages
//! without an identifier are notifications: the caller sends no response to
//! them, even for unknown methods.

use vstd::prelude::*;
use crate::manager::StopSignal;
use crate::model::str_eq;

verus! {

/// Application-level tool failure, as carried in an error response.
pub const CODE_TOOL_ERROR: i64 = -32001;

/// Unknown method, answered only when the request carries an identifier.
pub const CODE_METHOD_NOT_FOUND: i64 = -32601;

/// Invalid parameters, such as an unknown resource URI.
pub const CODE_INVALID_PARAMS: i64 = -32602;

/// The hard ceiling on a caller-supplied summarizer token budget.
pub const MAX_SUMMARY_TOKENS: usize = 1000;

/// The recognized top-level methods.
#[derive(Clone, Copy, Debug, PartialEq, Eq, Structural)]
pub enum MethodKind {
    Initialize,
    ServerInfo,
    ToolsList,
    PromptsList,
    ResourcesList,
    ResourcesRead,
    ToolsCall,
    Unknown,
}

/// The recognized tools of `tools/call`.
#[derive(Clone, Copy, Debug, PartialEq, Eq, Structural)]
pub enum ToolKind {
    CreateAgent,
    SendAgentInput,
    GetAgentProgress,
    ResetAgent,
    StopAgent,
    ListAgents,
    Wait,
    Metrics,
    HealthCheck,
    Unknown,
}

/// The two synthetic resources of `resources/read`.
#[derive(Clone, Copy, Debug, PartialEq, Eq, Structural)]
pub enum ResourceKind {
    Metrics,
    Agents,
    Unknown,
}

pub open spec fn spec_route_method(m: Seq<char>) -> MethodKind {
    if m == "initialize"@ {
        MethodKind::Initialize
    } else if m == "server/info"@ {
        MethodKind::ServerInfo
    } else if m == "tools/list"@ {
        MethodKind::ToolsList
    } else if m == "prompts/list"@ {
        MethodKind::PromptsList
    } else if m == "resources/list"@ {
        MethodKind::ResourcesList
    } else if m == "resources/read"@ {
        MethodKind::ResourcesRead
    } else if m == "tools/call"@ {
        MethodKind::ToolsCall
    } else {
        MethodKind::Unknown
    }
}

/// Map a message's method name to the operation it requests. An unknown
/// method is answered with `CODE_METHOD_NOT_FOUND` when the message carries
/// an identifier, and ignored when it does not.
pub fn route_method(method: &str) -> (r: MethodKind)
    ensures
        r == spec_route_method(method@),
{
    if str_eq(method, "initialize") {
        MethodKind::Initialize
    } else if str_eq(method, "server/info") {
        MethodKind::ServerInfo
    } else if str_eq(method, "tools/list") {
        MethodKind::ToolsList
    } else if str_eq(method, "prompts/list") {
        MethodKind::PromptsList
    } else if str_eq(method, "resources/list") {
        MethodKind::ResourcesList
    } else if str_eq(method, "resources/read") {
        MethodKind::ResourcesRead
    } else if str_eq(method, "tools/call") {
        MethodKind::ToolsCall
    } else {
        MethodKind::Unknown
    }
}

pub open spec fn spec_route_tool(t: Seq<char>) -> ToolKind {
    if t == "create_agent"@ {
        ToolKind::CreateAgent
    } else if t == "send_agent_input"@ {
        ToolKind::SendAgentInput
    } else if t == "get_agent_progress"@ {
        ToolKind::GetAgentProgress
    } else if t == "reset_agent"@ {
        ToolKind::ResetAgent
    } else if t == "stop_agent"@ {
        ToolKind::StopAgent
    } else if t == "list_agents"@ {
        ToolKind::ListAgents
    } else if t == "wait"@ {
        ToolKind::Wait
    } else if t == "metrics"@ {
        ToolKind::Metrics
    } else if t == "health_check"@ {
        ToolKind::HealthCheck
    } else {
        ToolKind::Unknown
    }
}

/// Map a `tools/call` tool name to exactly one operation; an unknown name
/// is a caller-visible tool error.
pub fn route_tool(tool: &str) -> (r: ToolKind)
    ensures
        r == spec_route_tool(tool@),
{
    if str_eq(tool, "create_agent") {
        ToolKind::CreateAgent
    } else if str_eq(tool, "send_agent_input") {
        ToolKind::SendAgentInput
    } else if str_eq(tool, "get_agent_progress") {
        ToolKind::GetAgentProgress
    } else if str_eq(tool, "reset_agent") {
        ToolKind::ResetAgent
    } else if str_eq(tool, "stop_agent") {
        ToolKind::StopAgent
    } else if str_eq(tool, "list_agents") {
        ToolKind::ListAgents
    } else if str_eq(tool, "wait") {
        ToolKind::Wait
    } else if str_eq(tool, "metrics") {
        ToolKind::Metrics
    } else if str_eq(tool, "health_check") {
        ToolKind::HealthCheck
    } else {
        ToolKind::Unknown
    }
}

pub open spec fn spec_route_resource(uri: Seq<char>) -> ResourceKind {
    if uri == "mcp://cursor-mcp-subagents/metrics"@ {
        ResourceKind::Metrics
    } else if uri == "mcp://cursor-mcp-subagents/agents"@ {
        ResourceKind::Agents
    } else {
        ResourceKind::Unknown
    }
}

/// Map a `resources/read` URI to one of the two synthetic resources; an
/// unknown URI is answered with `CODE_INVALID_PARAMS`.
pub fn route_resource(uri: &str) -> (r: ResourceKind)
    ensures
        r == spec_route_resource(uri@),
{
    if str_eq(uri, "mcp://cursor-mcp-subagents/metrics") {
        ResourceKind::Metrics
    } else if str_eq(uri, "mcp://cursor-mcp-subagents/agents") {
        ResourceKind::Agents
    } else {
        ResourceKind::Unknown
    }
}

/// Arguments of `send_agent_input`.
pub struct SendAgentInput {
    pub agent_id: String,
    pub input: String,
}

/// Arguments of `get_agent_progress`.
pub struct GetAgentProgress {
    pub agent_id: String,
    pub instructions: Option<String>,
    pub max_tokens: Option<usize>,
}

/// Arguments of `reset_agent`; a missing `hard` flag means a soft reset.
pub struct ResetAgent {
    pub agent_id: String,
    pub hard: Option<bool>,
}

/// Arguments of `stop_agent`; a missing signal means the graceful intent.
pub struct StopAgent {
    pub agent_id: String,
    pub signal: Option<String>,
}

/// Arguments of `wait`: a duration in milliseconds or in seconds.
pub struct WaitParams {
    pub ms: Option<u64>,
    pub seconds: Option<u64>,
}

/// The caller's token budget for the summarizer, defaulted and clamped to
/// the hard ceiling.
pub fn clamp_max_tokens(requested: Option<usize>) -> (r: usize)
    ensures
        r == match requested {
            Some(v) => if v < MAX_SUMMARY_TOKENS {
                v as int
            } else {
                MAX_SUMMARY_TOKENS as int
            },
            None => MAX_SUMMARY_TOKENS as int,
        },
{
    match requested {
        Some(v) => if v < MAX_SUMMARY_TOKENS {
            v
        } else {
            MAX_SUMMARY_TOKENS
        },
        None => MAX_SUMMARY_TOKENS,
    }
}

/// The stop intent named by the argument: exactly "kill" asks for the
/// forceful variant, anything else (or nothing) the graceful one.
pub fn parse_stop_signal(signal: &Option<String>) -> (r: StopSignal)
    ensures
        (r matches StopSignal::Kill) <==> (signal matches Some(s) && s@ == "kill"@),
{
    match signal {
        Some(s) => {
            if str_eq(s.as_str(), "kill") {
                StopSignal::Kill
            } else {
                StopSignal::Term
            }
        },
        None => StopSignal::Term,
    }
}

/// How long the `wait` tool sleeps: milliseconds win over seconds, seconds
/// convert saturating, and neither means no sleep at all.
pub fn wait_millis(p: &WaitParams) -> (r: u64)
    ensures
        r == match p.ms {
            Some(ms) => ms as int,
            None => match p.seconds {
                Some(secs) => if secs * 1000 > u64::MAX {
                    u64::MAX as int
                } else {
                    secs * 1000
                },
                None => 0,
            },
        },
{
    match p.ms {
        Some(ms) => ms,
        None => match p.seconds {
            Some(secs) => {
                if secs > u64::MAX / 1000 {
                    proof {
                        assert(secs * 1000 > u64::MAX) by (nonlinear_arith)
                            requires
                                secs > u64::MAX / 1000,
                        ;
                    }
                    u64::MAX
                } else {
                    proof {
                        assert(secs * 1000 <= u64::MAX) by (nonlinear_arith)
                            requires
                                0 <= secs <= u64::MAX / 1000,
                        ;
                    }
                    secs * 1000
                }
            },
            None => 0,
        },
    }
}

/// The names of every tool the server offers, in the order they are
/// enumerated; the list is never empty.
pub fn tool_names() -> (r: Vec<String>)
    ensures
        r@.len() == 9,
        r@[0]@ == "create_agent"@,
        r@[1]@ == "send_agent_input"@,
        r@[2]@ == "get_agent_progress"@,
        r@[3]@ == "reset_agent"@,
        r@[4]@ == "stop_agent"@,
        r@[5]@ == "list_agents"@,
        r@[6]@ == "wait"@,
        r@[7]@ == "metrics"@,
        r@[8]@ == "health_check"@,
{
    let mut r: Vec<String> = Vec::new();
    r.push(String::from_str("create_agent"));
    r.push(String::from_str("send_agent_input"));
    r.push(String::from_str("get_agent_progress"));
    r.push(String::from_str("reset_agent"));
    r.push(String::from_str("stop_agent"));
    r.push(String::from_str("list_agents"));
    r.push(String::from_str("wait"));
    r.push(String::from_str("metrics"));
    r.push(String::from_str("health_check"));
    r
}

} // verus!
