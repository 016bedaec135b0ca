use commit_writer::prompt::{
    get_messages, substitute_diff, Config, Message, PromptConfig, PromptEntry, PromptError,
};
use commit_writer::request::build_request;

fn entry(role: &str, lines: &[&str]) -> PromptEntry {
    PromptEntry {
        role: role.to_string(),
        content: lines.iter().map(|l| l.to_string()).collect(),
    }
}

fn sample_config() -> Config {
    Config {
        api_url: "https://example.invalid/v1/chat".to_string(),
        api_key: "key".to_string(),
        model: "some-model".to_string(),
        prompts: vec![
            PromptConfig {
                name: "default".to_string(),
                prompt: vec![
                    entry("system", &["Write a commit message.", "Be brief."]),
                    entry("user", &["%{diff}"]),
                ],
            },
            PromptConfig {
                name: "long".to_string(),
                prompt: vec![entry("system", &["Explain in detail."]), entry("user", &[])],
            },
        ],
    }
}

fn pairs(ms: &[Message]) -> Vec<(String, String)> {
    ms.iter().map(|m| (m.role.clone(), m.content.clone())).collect()
}

#[test]
fn selects_preset_by_name_with_lines_joined() {
    let config = sample_config();
    let ms = get_messages(&config, "default").unwrap();
    assert_eq!(
        pairs(&ms),
        vec![
            ("system".to_string(), "Write a commit message.\nBe brief.".to_string()),
            ("user".to_string(), "%{diff}".to_string()),
        ]
    );
    let ms = get_messages(&config, "long").unwrap();
    assert_eq!(
        pairs(&ms),
        vec![
            ("system".to_string(), "Explain in detail.".to_string()),
            ("user".to_string(), "".to_string()),
        ]
    );
}

#[test]
fn preset_names_are_case_sensitive() {
    let config = sample_config();
    assert_eq!(get_messages(&config, "Default").unwrap_err(), PromptError::UnknownPreset);
    assert_eq!(get_messages(&config, "missing").unwrap_err(), PromptError::UnknownPreset);
}

#[test]
fn repeated_preset_name_is_refused() {
    let mut config = sample_config();
    config.prompts.push(PromptConfig {
        name: "default".to_string(),
        prompt: vec![entry("user", &["other"])],
    });
    assert_eq!(get_messages(&config, "default").unwrap_err(), PromptError::DuplicatePreset);
    assert_eq!(build_request(&config, "default", "d").unwrap_err(), PromptError::DuplicatePreset);
    assert_eq!(get_messages(&config, "long").unwrap().len(), 2);
}

#[test]
fn substitution_leaves_content_without_placeholder() {
    let ms = vec![Message { role: "system".to_string(), content: "no token here".to_string() }];
    let out = substitute_diff(&ms, "DIFF");
    assert_eq!(pairs(&out), vec![("system".to_string(), "no token here".to_string())]);
}

#[test]
fn substitution_replaces_every_occurrence() {
    let ms = vec![
        Message { role: "user".to_string(), content: "a %{diff} b %{diff} c".to_string() },
        Message { role: "user".to_string(), content: "%{diff}".to_string() },
        Message { role: "user".to_string(), content: "%{dif} %{diff".to_string() },
    ];
    let out = substitute_diff(&ms, "+x\n-y");
    assert_eq!(out[0].content, "a +x\n-y b +x\n-y c");
    assert_eq!(out[1].content, "+x\n-y");
    assert_eq!(out[2].content, "%{dif} %{diff");
    assert_eq!(out[0].role, "user");
}

#[test]
fn substitution_with_a_diff_holding_the_token() {
    let ms = vec![Message { role: "user".to_string(), content: "<%{diff}>".to_string() }];
    let out = substitute_diff(&ms, "%{diff}%{diff}");
    assert_eq!(out[0].content, "<%{diff}%{diff}>");
}

#[test]
fn request_holds_model_messages_and_stream_flag() {
    let config = sample_config();
    let body = build_request(&config, "default", "diff text").unwrap();
    assert_eq!(body.model, "some-model");
    assert!(body.stream);
    assert_eq!(
        pairs(&body.messages),
        vec![
            ("system".to_string(), "Write a commit message.\nBe brief.".to_string()),
            ("user".to_string(), "diff text".to_string()),
        ]
    );
    assert_eq!(build_request(&config, "nope", "d").unwrap_err(), PromptError::UnknownPreset);
}

#[test]
fn request_text_is_the_json_object() {
    let config = sample_config();
    let body = build_request(&config, "default", "d\"q").unwrap();
    let text = body.to_text();
    let v: serde_json::Value = serde_json::from_str(&text).unwrap();
    assert_eq!(v["model"], serde_json::Value::String("some-model".to_string()));
    assert_eq!(v["stream"], serde_json::Value::Bool(true));
    let ms = v["messages"].as_array().unwrap();
    assert_eq!(ms.len(), 2);
    assert_eq!(ms[0]["role"].as_str(), Some("system"));
    assert_eq!(ms[1]["content"].as_str(), Some("d\"q"));
}
