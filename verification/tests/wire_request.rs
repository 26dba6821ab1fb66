//! Tests of the wire-body translation.

use nvidia_nim::{
    ContentBlock, Credential, CredentialStore, ModelInferenceRequest, NvidiaNimProvider,
    ParamValue, RequestMessage, Role, Text, ToolCall,
};

fn store() -> CredentialStore {
    CredentialStore::new(Credential::Missing).unwrap()
}

fn provider(model: &str, base: &str) -> NvidiaNimProvider {
    NvidiaNimProvider::new(model.as_bytes().to_vec(), base.as_bytes().to_vec(), None, &store())
        .unwrap()
}

fn text_block(s: &str) -> ContentBlock {
    ContentBlock::Text(Text { text: s.as_bytes().to_vec() })
}

fn user_message(s: &str) -> RequestMessage {
    RequestMessage { role: Role::User, content: vec![text_block(s)] }
}

fn plain_request(messages: Vec<RequestMessage>) -> ModelInferenceRequest {
    ModelInferenceRequest {
        messages,
        system: None,
        temperature: None,
        max_tokens: None,
        top_p: None,
        stream: false,
        extra_body: None,
        extra_headers: None,
    }
}

#[test]
fn wire_body_scenario() {
    let p = provider("llama-70b", "https://nim.example/v1/");
    let request = plain_request(vec![user_message("Hi")]);
    let body = p.make_body(&request).unwrap();
    assert_eq!(
        body,
        br#"{"model":"llama-70b","messages":[{"role":"user","content":"Hi"}],"stream":false}"#
            .to_vec()
    );
}

#[test]
fn wire_body_is_valid_json() {
    let p = provider("llama-70b", "https://nim.example/v1/");
    let request = plain_request(vec![user_message("Hi")]);
    let body = p.make_body(&request).unwrap();
    let v: serde_json::Value = serde_json::from_slice(&body).unwrap();
    assert_eq!(v["model"].as_str().unwrap(), "llama-70b");
    assert_eq!(v["messages"][0]["role"].as_str().unwrap(), "user");
    assert_eq!(v["messages"][0]["content"].as_str().unwrap(), "Hi");
    assert_eq!(v["stream"].as_bool().unwrap(), false);
    assert!(v.get("temperature").is_none());
    assert!(v.get("max_tokens").is_none());
    assert!(v.get("top_p").is_none());
}

#[test]
fn optional_fields_absent_when_unset() {
    let p = provider("m", "https://nim.example/v1/");
    let body = p.make_body(&plain_request(vec![user_message("x")])).unwrap();
    let text = String::from_utf8(body).unwrap();
    assert!(!text.contains("temperature"));
    assert!(!text.contains("max_tokens"));
    assert!(!text.contains("top_p"));
    assert!(!text.contains("null"));
}

#[test]
fn optional_fields_present_when_set() {
    let p = provider("m", "https://nim.example/v1/");
    let mut request = plain_request(vec![user_message("x")]);
    request.temperature = Some(ParamValue { thousandths: 700 });
    request.max_tokens = Some(100);
    request.top_p = Some(ParamValue { thousandths: 950 });
    request.stream = true;
    let body = p.make_body(&request).unwrap();
    assert_eq!(
        body,
        br#"{"model":"m","messages":[{"role":"user","content":"x"}],"stream":true,"temperature":0.7,"max_tokens":100,"top_p":0.95}"#
            .to_vec()
    );
}

#[test]
fn param_rendering_trims_and_splits() {
    let p = provider("m", "https://nim.example/v1/");
    let mut request = plain_request(vec![user_message("x")]);
    request.temperature = Some(ParamValue { thousandths: 1250 });
    request.top_p = Some(ParamValue { thousandths: 205 });
    let body = String::from_utf8(p.make_body(&request).unwrap()).unwrap();
    assert!(body.contains(r#""temperature":1.25"#));
    assert!(body.contains(r#""top_p":0.205"#));
    let mut r2 = plain_request(vec![user_message("x")]);
    r2.temperature = Some(ParamValue { thousandths: 2000 });
    let b2 = String::from_utf8(p.make_body(&r2).unwrap()).unwrap();
    assert!(b2.contains(r#""temperature":2"#));
    assert!(!b2.contains(r#""temperature":2."#));
}

#[test]
fn content_join_single_spaces_in_order() {
    let p = provider("m", "https://nim.example/v1/");
    let blocks = vec![text_block("Hello"), text_block("world"), text_block("again")];
    assert_eq!(p.format_content_blocks(&blocks), b"Hello world again".to_vec());
}

#[test]
fn non_text_blocks_are_dropped() {
    let p = provider("m", "https://nim.example/v1/");
    let blocks = vec![
        text_block("a"),
        ContentBlock::ToolCall(ToolCall {
            id: b"1".to_vec(),
            name: b"look".to_vec(),
            arguments: b"{}".to_vec(),
        }),
        text_block("b"),
    ];
    assert_eq!(p.format_content_blocks(&blocks), b"a b".to_vec());
}

#[test]
fn empty_content_is_empty() {
    let p = provider("m", "https://nim.example/v1/");
    assert_eq!(p.format_content_blocks(&vec![]), Vec::<u8>::new());
}

#[test]
fn assistant_role_token() {
    let p = provider("m", "https://nim.example/v1/");
    let messages = vec![
        user_message("q"),
        RequestMessage { role: Role::Assistant, content: vec![text_block("a")] },
    ];
    let wire = String::from_utf8(p.format_messages(&messages)).unwrap();
    assert_eq!(
        wire,
        r#"[{"role":"user","content":"q"},{"role":"assistant","content":"a"}]"#
    );
}

#[test]
fn content_is_json_escaped() {
    let p = provider("m", "https://nim.example/v1/");
    let request = plain_request(vec![user_message("a\"b\\c\nd\te\u{1}f")]);
    let body = p.make_body(&request).unwrap();
    let v: serde_json::Value = serde_json::from_slice(&body).unwrap();
    assert_eq!(v["messages"][0]["content"].as_str().unwrap(), "a\"b\\c\nd\te\u{1}f");
}

#[test]
fn model_name_is_escaped_and_echoed() {
    let p = provider("odd\"name", "https://nim.example/v1/");
    assert_eq!(p.model_name(), &b"odd\"name".to_vec());
    let body = p.make_body(&plain_request(vec![user_message("x")])).unwrap();
    let v: serde_json::Value = serde_json::from_slice(&body).unwrap();
    assert_eq!(v["model"].as_str().unwrap(), "odd\"name");
}
