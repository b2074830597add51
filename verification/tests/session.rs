//! One session walked end to end through the library's own pieces: the
//! framing, the routing, the supervisor's bookkeeping, and the extractive
//! summarizer, exactly as the embedding program drives them.

use cursor_mcp_subagents::dispatch::{
    clamp_max_tokens, route_method, route_tool, tool_names, MethodKind, ToolKind,
};
use cursor_mcp_subagents::framing::{encode_frame, read_framed_message_buf, FrameRead};
use cursor_mcp_subagents::manager::{AgentManagerImpl, StopSignal};
use cursor_mcp_subagents::model::CreateAgentRequest;
use cursor_mcp_subagents::summarize::{ExtractiveSummarizer, Summarizer};

#[test]
fn session_runs_initialize_to_stop() {
    // initialize
    assert_eq!(route_method("initialize"), MethodKind::Initialize);

    // tools/list returns a non-empty tool array
    assert!(!tool_names().is_empty());

    // create_agent
    let mut mgr = AgentManagerImpl::new(Some("/bin/cat".to_string()), 120 * 1024);
    assert_eq!(route_tool("create_agent"), ToolKind::CreateAgent);
    let created = mgr.create(
        CreateAgentRequest {
            name: None,
            working_dir: None,
            env: Vec::new(),
            args: Vec::new(),
        },
        77,
    );
    let id = created.agent_id.clone();

    // send_agent_input, with the echoing child's output pumped back
    assert_eq!(route_tool("send_agent_input"), ToolKind::SendAgentInput);
    mgr.note_input(&id, "hello".len()).expect("send");
    mgr.record_output_line(&id, "hello".to_string(), false)
        .expect("pump");

    // get_agent_progress with the extractive backend
    assert_eq!(route_tool("get_agent_progress"), ToolKind::GetAgentProgress);
    let buffer = mgr.get_buffer(&id).expect("buffer");
    let budget = clamp_max_tokens(Some(64));
    let summary = ExtractiveSummarizer::default()
        .summarize(&buffer, None, budget)
        .expect("summarize");
    assert!(summary.summary.to_lowercase().contains("hello"));
    assert_eq!(summary.backend, "textrank");

    // stop_agent removes the agent
    assert_eq!(route_tool("stop_agent"), ToolKind::StopAgent);
    mgr.stop(&id, StopSignal::Term).expect("stop");
    assert!(mgr.list().iter().all(|a| a.agent_id != id));

    // and the whole exchange would travel in well-formed frames
    let reply = encode_frame(&b"{\"jsonrpc\":\"2.0\",\"id\":1,\"result\":{}}".to_vec(), false);
    assert!(matches!(
        read_framed_message_buf(&reply),
        FrameRead::Frame { .. }
    ));
}
