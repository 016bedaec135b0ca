use commit_writer::config::{parse_config, ConfigError};
use commit_writer::diff::{staged_diff, staged_diff_from_output, DiffError};

const FULL: &str = r#"{
  "api_url": "https://example.invalid/v1/chat/completions",
  "api_key": "SECRET-REDACTED",
  "model": "m1",
  "extra": 3,
  "prompts": [
    {"name": "default", "prompt": [
      {"role": "system", "content": ["line one", "line two"]},
      {"role": "user", "content": ["%{diff}"]}
    ]},
    {"name": "empty", "prompt": []}
  ]
}"#;

#[test]
fn reads_a_full_configuration() {
    let c = parse_config(FULL).unwrap();
    assert_eq!(c.api_url, "https://example.invalid/v1/chat/completions");
    assert_eq!(c.api_key, "SECRET-REDACTED");
    assert_eq!(c.model, "m1");
    assert_eq!(c.prompts.len(), 2);
    assert_eq!(c.prompts[0].name, "default");
    assert_eq!(c.prompts[0].prompt[0].role, "system");
    assert_eq!(c.prompts[0].prompt[0].content, vec!["line one".to_string(), "line two".to_string()]);
    assert_eq!(c.prompts[1].prompt.len(), 0);
}

#[test]
fn missing_api_key_is_refused() {
    let text = FULL.replace("\"api_key\": \"SECRET-REDACTED\",", "");
    assert_eq!(parse_config(&text).unwrap_err(), ConfigError::Schema);
}

#[test]
fn wrongly_shaped_fields_are_refused() {
    let text = FULL.replace("\"model\": \"m1\"", "\"model\": 1");
    assert_eq!(parse_config(&text).unwrap_err(), ConfigError::Schema);
    let text = FULL.replace("[\"%{diff}\"]", "[\"%{diff}\", 2]");
    assert_eq!(parse_config(&text).unwrap_err(), ConfigError::Schema);
    let text = FULL.replace("{\"name\": \"empty\", \"prompt\": []}", "{\"prompt\": []}");
    assert_eq!(parse_config(&text).unwrap_err(), ConfigError::Schema);
    assert_eq!(parse_config("[1, 2]").unwrap_err(), ConfigError::Schema);
}

#[test]
fn invalid_json_is_refused() {
    assert_eq!(parse_config("").unwrap_err(), ConfigError::InvalidJson);
    assert_eq!(parse_config("{\"api_url\": ").unwrap_err(), ConfigError::InvalidJson);
}

#[test]
fn empty_staged_diff_is_refused() {
    assert_eq!(staged_diff(String::new()).unwrap_err(), DiffError::EmptyDiff);
    assert_eq!(staged_diff_from_output(b"").unwrap_err(), DiffError::EmptyDiff);
    assert_eq!(staged_diff("diff --git a b".to_string()).unwrap(), "diff --git a b");
    assert_eq!(staged_diff_from_output(b"+x\xff").unwrap(), "+x\u{fffd}");
}

use commit_writer::config::config_from_json;
use commit_writer::json::Json;

fn s(t: &str) -> Json {
    Json::Str(t.to_string())
}

fn object(fields: Vec<(&str, Json)>) -> Json {
    Json::Object(fields.into_iter().map(|(k, v)| (k.to_string(), v)).collect())
}

#[test]
fn reads_a_built_document() {
    let preset = object(vec![
        ("name", s("default")),
        ("prompt", Json::Array(vec![object(vec![("role", s("user")), ("content", Json::Array(vec![s("a"), s("b")]))])])),
    ]);
    let doc = object(vec![
        ("api_url", s("u")),
        ("api_key", s("k")),
        ("model", s("m")),
        ("prompts", Json::Array(vec![preset])),
    ]);
    let c = config_from_json(&doc).unwrap();
    assert_eq!((c.api_url.as_str(), c.api_key.as_str(), c.model.as_str()), ("u", "k", "m"));
    assert_eq!(c.prompts[0].prompt[0].content, vec!["a".to_string(), "b".to_string()]);
    let no_key = object(vec![("api_url", s("u")), ("model", s("m")), ("prompts", Json::Array(vec![]))]);
    assert_eq!(config_from_json(&no_key).unwrap_err(), ConfigError::Schema);
}
