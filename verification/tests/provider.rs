use llmwiki::provider::{AnthropicProvider, OpenAiCompatibleProvider};
use llmwiki::validator::JsonValue;

#[test]
fn test_openai_build_chat_url() {
    let provider = OpenAiCompatibleProvider::new("DeepSeek");
    let url = provider.build_chat_url("https://api.deepseek.com");
    assert_eq!(url, "https://api.deepseek.com/v1/chat/completions");
}

#[test]
fn test_openai_build_chat_url_trailing_slash() {
    let provider = OpenAiCompatibleProvider::new("OpenWebUI");
    let url = provider.build_chat_url("http://localhost:3000/");
    assert_eq!(url, "http://localhost:3000/v1/chat/completions");
}

#[test]
fn test_openai_build_headers_contains_bearer() {
    let provider = OpenAiCompatibleProvider::new("DeepSeek");
    let headers = provider.build_headers("sk-test-key");
    assert!(headers.iter().any(|(k, v)| k == "Authorization" && v == "Bearer sk-test-key"));
    assert!(headers.iter().any(|(k, v)| k == "Content-Type" && v == "application/json"));
}

#[test]
fn test_anthropic_build_chat_url() {
    let provider = AnthropicProvider::new();
    let url = provider.build_chat_url("https://api.anthropic.com");
    assert_eq!(url, "https://api.anthropic.com/v1/messages");
}

#[test]
fn test_anthropic_build_headers_contains_x_api_key() {
    let provider = AnthropicProvider::new();
    let headers = provider.build_headers("sk-ant-test");
    assert!(headers.iter().any(|(k, v)| k == "x-api-key" && v == "sk-ant-test"));
    assert!(headers.iter().any(|(k, v)| k == "anthropic-version" && v == "2023-06-01"));
}

#[test]
fn test_openai_provider_name() {
    let provider = OpenAiCompatibleProvider::new("CustomProvider");
    assert_eq!(provider.provider_name(), "CustomProvider");
}

#[test]
fn test_anthropic_provider_name() {
    let provider = AnthropicProvider::new();
    assert_eq!(provider.provider_name(), "Anthropic");
}

#[test]
fn openai_error_messages() {
    let p = OpenAiCompatibleProvider::new("DeepSeek");
    assert_eq!(p.normalize_error(401, "x"), "DeepSeek API Key 无效，请在设置中重新配置。");
    assert_eq!(p.normalize_error(503, "x"), "DeepSeek 服务器错误 (HTTP 503)，请稍后重试。");
    assert_eq!(p.normalize_error(418, "teapot"), "DeepSeek API 错误 (HTTP 418): teapot");
    let long = "a".repeat(400);
    assert_eq!(p.normalize_error(422, &long), format!("DeepSeek 返回 422：请求参数有误。{}", "a".repeat(300)));
}

#[test]
fn anthropic_error_messages() {
    let p = AnthropicProvider::new();
    assert_eq!(p.normalize_error(500, r#"{"error": {"message": "overloaded"}}"#), "Anthropic 服务器错误 (HTTP 500): overloaded");
    assert_eq!(p.normalize_error(400, "plain"), "Anthropic API 错误 (HTTP 400): plain");
    assert_eq!(p.normalize_error(429, "x"), "Anthropic 返回 429：请求过于频繁，请稍后重试。");
}

fn jobj(entries: Vec<(&str, JsonValue)>) -> JsonValue {
    JsonValue::Object(entries.into_iter().map(|(k, v)| (k.to_string(), v)).collect())
}

fn jstr(t: &str) -> JsonValue {
    JsonValue::Str(t.to_string())
}

#[test]
fn openai_reply_reading() {
    let p = OpenAiCompatibleProvider::new("DeepSeek");
    let reply = jobj(vec![(
        "choices",
        JsonValue::Array(vec![jobj(vec![
            ("message", jobj(vec![("role", jstr("assistant")), ("content", jstr("Hi"))])),
            ("finish_reason", jstr("stop")),
        ])]),
    )]);
    assert_eq!(p.extract_content(&reply), Ok("Hi".to_string()));
    assert_eq!(p.extract_finish_reason(&reply), Some("stop".to_string()));
    let empty = jobj(vec![("choices", JsonValue::Array(vec![]))]);
    assert_eq!(
        p.extract_content(&empty),
        Err("模型返回了空响应（choices 为空），可能是输入过长或模型异常".to_string())
    );
    assert_eq!(p.extract_finish_reason(&empty), None);
}

#[test]
fn anthropic_reply_reading() {
    let p = AnthropicProvider::new();
    let reply = jobj(vec![
        ("content", JsonValue::Array(vec![jobj(vec![("type", jstr("text")), ("text", jstr("Hello"))])])),
        ("stop_reason", jstr("end_turn")),
    ]);
    assert_eq!(p.extract_content(&reply), Ok("Hello".to_string()));
    assert_eq!(p.extract_finish_reason(&reply), Some("end_turn".to_string()));
    let err = jobj(vec![("error", jobj(vec![("message", jstr("overloaded"))]))]);
    assert_eq!(p.extract_content(&err), Err("Anthropic API 错误: overloaded".to_string()));
    assert_eq!(p.extract_content(&JsonValue::Null), Err("Anthropic 返回了空响应".to_string()));
}
