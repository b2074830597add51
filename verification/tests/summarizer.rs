use cursor_mcp_subagents::summarize::{
    backoff_millis, build_prompt, build_summarizer, extractive_summarize, finish_cli_summary,
    host_url, ExtractiveSummarizer, Summarizer, SummarizerBackend, OLLAMA_ATTEMPTS,
};
use cursor_mcp_subagents::errors::SummarizeError;

#[test]
fn respects_token_cap_and_sentence_selection() {
    let s = ExtractiveSummarizer::default();
    let context = "Sentence one is short. Sentence two is a little bit longer! And question three? Trailing.";
    let res = s.summarize(context, None, 40).expect("summarize");
    assert_eq!(res.tokens_used, 40);
    assert!(res
        .summary
        .starts_with("Sentence one is short. Sentence two"));
}

#[test]
fn falls_back_to_char_truncation_when_no_sentence_boundaries() {
    let s = ExtractiveSummarizer::default();
    let context = "abcdefghijklmnopqrstuvwxyzABCDEFGHIJKLMNOPQRSTUVWXYZ0123456789";
    let res = s.summarize(context, None, 8).expect("summarize");
    assert!(res.summary.len() <= 40);
}

#[test]
fn extractive_reports_backend_and_clamps_budget() {
    let res = extractive_summarize("One. Two.", 5000);
    assert_eq!(res.tokens_used, 1000);
    assert_eq!(res.backend, "textrank");
    assert_eq!(res.summary, "One. Two");
}

#[test]
fn extractive_keeps_hello_line() {
    let res = extractive_summarize("hello\n", 64);
    assert_eq!(res.summary, "hello");
}

#[test]
fn build_summarizer_selects_backend_by_name() {
    match build_summarizer(
        "ollama".to_string(),
        "m1".to_string(),
        "http://h:1".to_string(),
    ) {
        SummarizerBackend::Ollama(o) => {
            assert_eq!(o.host, "http://h:1");
            assert_eq!(o.model, "m1");
        }
        _ => panic!("expected the HTTP backend"),
    }
    match build_summarizer("llama_cpp".to_string(), "m.gguf".to_string(), String::new()) {
        SummarizerBackend::LlamaCpp(l) => assert_eq!(l.model_path, "m.gguf"),
        _ => panic!("expected the local CLI backend"),
    }
    match build_summarizer("cursor_agent".to_string(), "auto".to_string(), String::new()) {
        SummarizerBackend::CursorAgent(c) => assert_eq!(c.model, "auto"),
        _ => panic!("expected the agent CLI backend"),
    }
    match build_summarizer("anything-else".to_string(), String::new(), String::new()) {
        SummarizerBackend::Extractive(_) => {}
        _ => panic!("expected the extractive fallback"),
    }
}

#[test]
fn prompt_carries_budget_instructions_and_context() {
    let p = build_prompt(Some("focus on errors"), 32, "ctx body");
    let expected = "[System]\nYou are a concise, factual summarizer. Produce a brief progress \
                    report focusing on goals, actions taken, results, blockers, next steps. \
                    Avoid speculation. Limit to 32 tokens.\n\n[User]\nInstructions: focus on \
                    errors\nContext:\nctx body";
    assert_eq!(p, expected);
    let q = build_prompt(None, 5000, "c");
    assert!(q.contains("Limit to 1000 tokens."));
    assert!(q.contains("Instructions: summarize overall progress\n"));
}

#[test]
fn cli_summary_is_capped_and_named() {
    let res = finish_cli_summary("ok-llama-output".to_string(), 4, "llama_cpp").expect("ok");
    assert_eq!(res.backend, "llama_cpp");
    assert_eq!(res.tokens_used, 4);
    assert!(!res.summary.is_empty());
    assert!(res.summary.len() <= 40);

    let long = "x".repeat(100);
    let res = finish_cli_summary(long, 4, "cursor_agent").expect("ok");
    assert_eq!(res.summary.len(), 16);
}

#[test]
fn cli_summary_of_blank_output_is_unavailable() {
    match finish_cli_summary("  \n\t ".to_string(), 8, "cursor_agent") {
        Err(SummarizeError::Unavailable) => {}
        _ => panic!("expected Unavailable"),
    }
}

#[test]
fn host_urls_drop_trailing_slashes() {
    assert_eq!(
        host_url("http://127.0.0.1:11434", "/api/generate"),
        "http://127.0.0.1:11434/api/generate"
    );
    assert_eq!(
        host_url("http://127.0.0.1:11434///", "/api/tags"),
        "http://127.0.0.1:11434/api/tags"
    );
}

#[test]
fn backoff_grows_linearly() {
    assert_eq!(backoff_millis(0), 100);
    assert_eq!(backoff_millis(1), 200);
    assert_eq!(backoff_millis(2), 300);
    assert_eq!(OLLAMA_ATTEMPTS, 3);
}

#[test]
fn summarize_errors_render_messages() {
    assert_eq!(SummarizeError::Unavailable.message(), "backend unavailable");
    assert_eq!(
        SummarizeError::Http("status 500".to_string()).message(),
        "http error: status 500"
    );
    assert_eq!(
        SummarizeError::Other("boom".to_string()).message(),
        "other: boom"
    );
}
