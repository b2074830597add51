use cursor_mcp_subagents::errors::AgentError;
use cursor_mcp_subagents::manager::{AgentManagerImpl, StopSignal};
use cursor_mcp_subagents::model::CreateAgentRequest;

fn plain_request() -> CreateAgentRequest {
    CreateAgentRequest {
        name: Some("t1".to_string()),
        working_dir: None,
        env: Vec::new(),
        args: vec!["--flag".to_string()],
    }
}

#[test]
fn create_issues_fresh_identifier_and_counts() {
    let mut mgr = AgentManagerImpl::new(Some("/bin/cat".to_string()), 64 * 1024);
    let created = mgr.create(plain_request(), 4242);
    assert_eq!(created.agent_id.len(), 36);
    assert_eq!(created.pid, 4242);
    assert!(mgr.has_agent(&created.agent_id));
    let snap = mgr.metrics_snapshot();
    assert_eq!(snap.created_count, 1);
    assert_eq!(snap.active_count, 1);
    assert_eq!(snap.stopped_count, 0);
}

#[test]
fn lifecycle_send_input_then_buffer_shows_output() {
    let mut mgr = AgentManagerImpl::new(Some("/bin/cat".to_string()), 64 * 1024);
    let created = mgr.create(plain_request(), 100);
    let id = created.agent_id.clone();
    // The embedding program writes "hello world\n" to the child and, once
    // the pump sees it echoed back, records it here.
    mgr.note_input(&id, "hello world".len()).expect("send");
    mgr.record_output_line(&id, "hello world".to_string(), false)
        .expect("pump");
    let buf = mgr.get_buffer(&id).expect("buffer");
    assert!(buf.contains("hello world"));
    let snap = mgr.metrics_snapshot();
    assert_eq!(snap.total_input_bytes, 12);
    assert_eq!(snap.total_output_bytes, 12);
}

#[test]
fn stderr_lines_are_tagged() {
    let mut mgr = AgentManagerImpl::new(None, 1024);
    let id = mgr.create(plain_request(), 7).agent_id;
    mgr.record_output_line(&id, "oops".to_string(), true).expect("pump");
    assert_eq!(mgr.get_buffer(&id).expect("buffer"), "[stderr] oops\n");
}

#[test]
fn soft_reset_clears_buffer_and_keeps_pid() {
    let mut mgr = AgentManagerImpl::new(Some("/bin/cat".to_string()), 64 * 1024);
    let id = mgr.create(plain_request(), 321).agent_id;
    mgr.record_output_line(&id, "line one".to_string(), false)
        .expect("pump");
    mgr.reset_soft(&id).expect("reset");
    let buf = mgr.get_buffer(&id).expect("buffer");
    assert!(buf.trim().is_empty());
    let listed = &mgr.list()[0];
    assert_eq!(listed.pid, 321);
    assert_eq!(listed.agent_id, id);
}

#[test]
fn hard_reset_swaps_pid_and_keeps_identity() {
    let mut mgr = AgentManagerImpl::new(Some("/bin/cat".to_string()), 64 * 1024);
    let id = mgr.create(plain_request(), 321).agent_id;
    mgr.record_output_line(&id, "old output".to_string(), false)
        .expect("pump");
    let cfg = mgr.spawn_config(&id).expect("config");
    assert_eq!(cfg.args, vec!["--flag".to_string()]);
    assert_eq!(cfg.name, Some("t1".to_string()));
    mgr.complete_hard_reset(&id, 654).expect("reset");
    let listed = &mgr.list()[0];
    assert_eq!(listed.agent_id, id);
    assert_ne!(listed.pid, 321);
    assert_eq!(listed.pid, 654);
    assert!(mgr.get_buffer(&id).expect("buffer").is_empty());
    // The original spawn configuration survives the reset.
    let cfg = mgr.spawn_config(&id).expect("config");
    assert_eq!(cfg.args, vec!["--flag".to_string()]);
}

#[test]
fn stop_removes_agent_and_counts() {
    let mut mgr = AgentManagerImpl::new(Some("/bin/cat".to_string()), 64 * 1024);
    let id = mgr.create(plain_request(), 100).agent_id;
    mgr.stop(&id, StopSignal::Term).expect("stop");
    let ids: Vec<String> = mgr.list().into_iter().map(|a| a.agent_id).collect();
    assert!(!ids.contains(&id));
    let snap = mgr.metrics_snapshot();
    assert!(snap.stopped_count >= 1);
    assert_eq!(snap.active_count, 0);
}

#[test]
fn kill_signal_also_stops() {
    let mut mgr = AgentManagerImpl::new(None, 1024);
    let id = mgr.create(plain_request(), 1).agent_id;
    mgr.stop(&id, StopSignal::Kill).expect("stop");
    assert!(!mgr.has_agent(&id));
}

#[test]
fn unknown_identifier_fails_with_not_found() {
    let mut mgr = AgentManagerImpl::new(None, 1024);
    assert!(matches!(
        mgr.note_input("nope", 3),
        Err(AgentError::NotFound(_))
    ));
    assert!(matches!(
        mgr.record_output_line("nope", "x".to_string(), false),
        Err(AgentError::NotFound(_))
    ));
    assert!(matches!(mgr.reset_soft("nope"), Err(AgentError::NotFound(_))));
    assert!(matches!(
        mgr.complete_hard_reset("nope", 2),
        Err(AgentError::NotFound(_))
    ));
    assert!(matches!(mgr.spawn_config("nope"), Err(AgentError::NotFound(_))));
    assert!(matches!(
        mgr.stop("nope", StopSignal::Term),
        Err(AgentError::NotFound(_))
    ));
    match mgr.get_buffer("nope") {
        Err(e) => assert_eq!(e.message(), "agent not found: nope"),
        Ok(_) => panic!("expected NotFound"),
    }
}

#[test]
fn list_reports_every_agent_as_running() {
    let mut mgr = AgentManagerImpl::new(None, 1024);
    let a = mgr.create(plain_request(), 1).agent_id;
    let b = mgr.create(plain_request(), 2).agent_id;
    let listed = mgr.list();
    assert_eq!(listed.len(), 2);
    assert_eq!(listed[0].agent_id, a);
    assert_eq!(listed[1].agent_id, b);
    assert!(listed.iter().all(|i| i.status == "running"));
    let ids = mgr.agent_ids();
    assert_eq!(ids, vec![a, b]);
}

#[test]
fn resolve_binary_prefers_configured_path() {
    let mgr = AgentManagerImpl::new(Some("/opt/agent/bin".to_string()), 1024);
    assert_eq!(mgr.resolve_binary_path().expect("path"), "/opt/agent/bin");
}

#[test]
fn agent_errors_render_messages() {
    assert_eq!(
        AgentError::Spawn("no binary".to_string()).message(),
        "spawn error: no binary"
    );
    assert_eq!(AgentError::Io("pipe".to_string()).message(), "io error: pipe");
    assert_eq!(
        AgentError::InvalidState("stdin not available".to_string()).message(),
        "invalid state: stdin not available"
    );
}

#[test]
fn buffer_capacity_applies_per_agent() {
    let mut mgr = AgentManagerImpl::new(None, 10);
    let id = mgr.create(plain_request(), 5).agent_id;
    mgr.record_output_line(&id, "12345".to_string(), false).expect("pump");
    mgr.record_output_line(&id, "6789".to_string(), false).expect("pump");
    mgr.record_output_line(&id, "ABCDEFGHIJ".to_string(), false).expect("pump");
    assert_eq!(mgr.get_buffer(&id).expect("buffer"), "ABCDEFGHIJ\n");
}
