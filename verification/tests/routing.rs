use cursor_mcp_subagents::dispatch::{
    clamp_max_tokens, parse_stop_signal, route_method, route_resource, route_tool, tool_names,
    wait_millis, MethodKind, ResourceKind, ToolKind, WaitParams, CODE_INVALID_PARAMS,
    CODE_METHOD_NOT_FOUND, CODE_TOOL_ERROR,
};
use cursor_mcp_subagents::manager::StopSignal;

#[test]
fn methods_route_to_their_operations() {
    assert_eq!(route_method("initialize"), MethodKind::Initialize);
    assert_eq!(route_method("server/info"), MethodKind::ServerInfo);
    assert_eq!(route_method("tools/list"), MethodKind::ToolsList);
    assert_eq!(route_method("prompts/list"), MethodKind::PromptsList);
    assert_eq!(route_method("resources/list"), MethodKind::ResourcesList);
    assert_eq!(route_method("resources/read"), MethodKind::ResourcesRead);
    assert_eq!(route_method("tools/call"), MethodKind::ToolsCall);
    assert_eq!(route_method("no/such/method"), MethodKind::Unknown);
    assert_eq!(route_method(""), MethodKind::Unknown);
}

#[test]
fn tools_route_to_their_operations() {
    assert_eq!(route_tool("create_agent"), ToolKind::CreateAgent);
    assert_eq!(route_tool("send_agent_input"), ToolKind::SendAgentInput);
    assert_eq!(route_tool("get_agent_progress"), ToolKind::GetAgentProgress);
    assert_eq!(route_tool("reset_agent"), ToolKind::ResetAgent);
    assert_eq!(route_tool("stop_agent"), ToolKind::StopAgent);
    assert_eq!(route_tool("list_agents"), ToolKind::ListAgents);
    assert_eq!(route_tool("wait"), ToolKind::Wait);
    assert_eq!(route_tool("metrics"), ToolKind::Metrics);
    assert_eq!(route_tool("health_check"), ToolKind::HealthCheck);
    assert_eq!(route_tool("bogus"), ToolKind::Unknown);
}

#[test]
fn resources_route_by_uri() {
    assert_eq!(
        route_resource("mcp://cursor-mcp-subagents/metrics"),
        ResourceKind::Metrics
    );
    assert_eq!(
        route_resource("mcp://cursor-mcp-subagents/agents"),
        ResourceKind::Agents
    );
    assert_eq!(route_resource("mcp://elsewhere"), ResourceKind::Unknown);
}

#[test]
fn token_budget_defaults_and_clamps() {
    assert_eq!(clamp_max_tokens(None), 1000);
    assert_eq!(clamp_max_tokens(Some(12)), 12);
    assert_eq!(clamp_max_tokens(Some(1000)), 1000);
    assert_eq!(clamp_max_tokens(Some(5000)), 1000);
}

#[test]
fn stop_signal_parses_kill_only() {
    assert!(matches!(
        parse_stop_signal(&Some("kill".to_string())),
        StopSignal::Kill
    ));
    assert!(matches!(
        parse_stop_signal(&Some("term".to_string())),
        StopSignal::Term
    ));
    assert!(matches!(
        parse_stop_signal(&Some("KILL".to_string())),
        StopSignal::Term
    ));
    assert!(matches!(parse_stop_signal(&None), StopSignal::Term));
}

#[test]
fn wait_duration_prefers_milliseconds() {
    let both = WaitParams {
        ms: Some(250),
        seconds: Some(9),
    };
    assert_eq!(wait_millis(&both), 250);
    let secs = WaitParams {
        ms: None,
        seconds: Some(2),
    };
    assert_eq!(wait_millis(&secs), 2000);
    let huge = WaitParams {
        ms: None,
        seconds: Some(u64::MAX),
    };
    assert_eq!(wait_millis(&huge), u64::MAX);
    let neither = WaitParams {
        ms: None,
        seconds: None,
    };
    assert_eq!(wait_millis(&neither), 0);
}

#[test]
fn tool_list_is_non_empty_and_routable() {
    let names = tool_names();
    assert_eq!(names.len(), 9);
    assert_eq!(names[0], "create_agent");
    for name in &names {
        assert!(route_tool(name) != ToolKind::Unknown);
    }
}

#[test]
fn error_codes_match_the_protocol() {
    assert_eq!(CODE_TOOL_ERROR, -32001);
    assert_eq!(CODE_METHOD_NOT_FOUND, -32601);
    assert_eq!(CODE_INVALID_PARAMS, -32602);
}
