use cursor_mcp_subagents::config::AppConfig;

fn base_config() -> AppConfig {
    AppConfig {
        cursor_agent_path: None,
        summary_backend: "extractive".to_string(),
        summary_model: "llama3.2:3b-instruct".to_string(),
        ollama_host: "http://127.0.0.1:11434".to_string(),
        buffer_bytes: 512 * 1024,
        idle_reap_mins: None,
    }
}

#[test]
fn zero_buffer_is_rejected() {
    let mut cfg = base_config();
    cfg.buffer_bytes = 0;
    assert_eq!(cfg.validate().unwrap_err(), "buffer_bytes must be > 0");
}

#[test]
fn oversized_buffer_is_rejected() {
    let mut cfg = base_config();
    cfg.buffer_bytes = 100 * 1024 * 1024 + 1;
    assert_eq!(
        cfg.validate().unwrap_err(),
        "buffer_bytes too large (max 100MB)"
    );
}

#[test]
fn ollama_backend_requires_a_parsable_host_url() {
    let mut cfg = base_config();
    cfg.summary_backend = "ollama".to_string();
    assert!(cfg.validate().is_ok());
    cfg.ollama_host = "not a url at all".to_string();
    assert_eq!(
        cfg.validate().unwrap_err(),
        "Invalid OLLAMA_HOST URL format"
    );
}

#[test]
fn llama_backend_requires_an_existing_model_file() {
    let mut cfg = base_config();
    cfg.summary_backend = "llama_cpp".to_string();
    cfg.summary_model = "/definitely/not/here/model.gguf".to_string();
    assert_eq!(
        cfg.validate().unwrap_err(),
        "llama.cpp model file does not exist"
    );
    cfg.summary_model = "/".to_string();
    assert!(cfg.validate().is_ok());
}

#[test]
fn other_backends_validate_without_probes() {
    assert!(base_config().validate().is_ok());
}
