//! Tests of response normalization against the wire schema.

use nvidia_nim::{
    ContentBlockOutput, Credential, CredentialStore, ErrorDetails, FinishReason, Latency,
    ModelInferenceRequest, NvidiaNimProvider, RequestMessage, Role, Text,
};

fn provider() -> NvidiaNimProvider {
    let store = CredentialStore::new(Credential::Missing).unwrap();
    NvidiaNimProvider::new(
        b"llama-70b".to_vec(),
        b"https://nim.example/v1/".to_vec(),
        None,
        &store,
    )
    .unwrap()
}

fn request() -> ModelInferenceRequest {
    ModelInferenceRequest {
        messages: vec![RequestMessage {
            role: Role::User,
            content: vec![nvidia_nim::ContentBlock::Text(Text { text: b"Hi".to_vec() })],
        }],
        system: Some(b"be brief".to_vec()),
        temperature: None,
        max_tokens: None,
        top_p: None,
        stream: false,
        extra_body: None,
        extra_headers: None,
    }
}

fn latency() -> Latency {
    Latency::NonStreaming { response_time_ms: 42 }
}

fn texts(output: &[ContentBlockOutput]) -> Vec<String> {
    output
        .iter()
        .map(|b| match b {
            ContentBlockOutput::Text(t) => String::from_utf8(t.text.clone()).unwrap(),
        })
        .collect()
}

#[test]
fn parse_scenario_success() {
    let p = provider();
    let raw_request = b"{\"model\":\"llama-70b\"}".to_vec();
    let raw_response =
        br#"{"choices":[{"message":{"content":"Hello!"}}],"usage":{"prompt_tokens":5,"completion_tokens":2}}"#
            .to_vec();
    let resp = p
        .parse_response(&request(), raw_request.clone(), raw_response.clone(), latency())
        .unwrap();
    assert_eq!(texts(&resp.output), vec!["Hello!".to_string()]);
    assert_eq!(resp.usage.input_tokens, 5);
    assert_eq!(resp.usage.output_tokens, 2);
    assert_eq!(resp.raw_request, raw_request);
    assert_eq!(resp.raw_response, raw_response);
    assert_eq!(resp.system, Some(b"be brief".to_vec()));
    assert_eq!(resp.input_messages, request().messages);
    assert_eq!(resp.finish_reason, Some(FinishReason::Stop));
    assert_eq!(resp.latency, latency());
    assert_eq!(resp.id.len(), 36);
}

#[test]
fn fresh_ids_differ_between_calls() {
    let p = provider();
    let raw = br#"{"choices":[],"usage":{"prompt_tokens":0,"completion_tokens":0}}"#.to_vec();
    let a = p.parse_response(&request(), b"r".to_vec(), raw.clone(), latency()).unwrap();
    let b = p.parse_response(&request(), b"r".to_vec(), raw, latency()).unwrap();
    assert_ne!(a.id, b.id);
}

#[test]
fn null_content_choices_are_skipped() {
    let p = provider();
    let raw = br#"{"choices":[{"message":{"content":"A"}},{"message":{"content":null}},{"message":{"content":"B"}}],"usage":{"prompt_tokens":1,"completion_tokens":1}}"#
        .to_vec();
    let resp = p.parse_response(&request(), b"r".to_vec(), raw, latency()).unwrap();
    assert_eq!(texts(&resp.output), vec!["A".to_string(), "B".to_string()]);
}

#[test]
fn missing_content_member_counts_as_null() {
    let p = provider();
    let raw = br#"{"choices":[{"message":{}}],"usage":{"prompt_tokens":1,"completion_tokens":1}}"#
        .to_vec();
    let resp = p.parse_response(&request(), b"r".to_vec(), raw, latency()).unwrap();
    assert_eq!(resp.output.len(), 0);
}

#[test]
fn schema_mismatch_carries_both_raw_strings() {
    let p = provider();
    let raw_request = b"sent".to_vec();
    let raw_response = b"not json at all".to_vec();
    let err = p
        .parse_response(&request(), raw_request.clone(), raw_response.clone(), latency())
        .unwrap_err();
    match err.get_details() {
        ErrorDetails::InferenceServer { message, provider_type, raw_request: rr, raw_response: rb } => {
            assert_eq!(message, &b"Error parsing NIM response".to_vec());
            assert_eq!(provider_type, &b"nvidia_nim".to_vec());
            assert_eq!(rr, &Some(raw_request));
            assert_eq!(rb, &Some(raw_response));
        },
        _ => panic!("expected a server error"),
    }
}

#[test]
fn unknown_members_and_whitespace_are_accepted() {
    let p = provider();
    let raw = br#" {
        "id": "cmpl-1",
        "object": "chat.completion",
        "choices": [ { "index": 0, "message": { "role": "assistant", "content": "ok" }, "finish_reason": "stop" } ],
        "usage": { "prompt_tokens": 7, "completion_tokens": 3, "total_tokens": 10 },
        "model": "llama-70b"
    } "#
        .to_vec();
    let resp = p.parse_response(&request(), b"r".to_vec(), raw, latency()).unwrap();
    assert_eq!(texts(&resp.output), vec!["ok".to_string()]);
    assert_eq!(resp.usage.input_tokens, 7);
    assert_eq!(resp.usage.output_tokens, 3);
}

#[test]
fn string_escapes_are_decoded() {
    let p = provider();
    let raw = r#"{"choices":[{"message":{"content":"a\"b\\c\ndA😀"}}],"usage":{"prompt_tokens":1,"completion_tokens":1}}"#
        .as_bytes()
        .to_vec();
    let resp = p.parse_response(&request(), b"r".to_vec(), raw, latency()).unwrap();
    assert_eq!(texts(&resp.output), vec!["a\"b\\c\ndA\u{1F600}".to_string()]);
}

#[test]
fn unicode_escapes_are_decoded() {
    let p = provider();
    let raw = br#"{"choices":[{"message":{"content":"\u0041\u00e9\u20ac\ud83d\ude00"}}],"usage":{"prompt_tokens":1,"completion_tokens":1}}"#
        .to_vec();
    let resp = p.parse_response(&request(), b"r".to_vec(), raw, latency()).unwrap();
    assert_eq!(texts(&resp.output), vec!["A\u{e9}\u{20ac}\u{1F600}".to_string()]);
}

#[test]
fn lone_surrogate_escape_fails() {
    let p = provider();
    let raw = br#"{"choices":[{"message":{"content":"\ud83d"}}],"usage":{"prompt_tokens":1,"completion_tokens":1}}"#
        .to_vec();
    assert!(p.parse_response(&request(), b"r".to_vec(), raw, latency()).is_err());
}

#[test]
fn trailing_input_fails() {
    let p = provider();
    let raw = br#"{"choices":[],"usage":{"prompt_tokens":0,"completion_tokens":0}} extra"#.to_vec();
    assert!(p.parse_response(&request(), b"r".to_vec(), raw, latency()).is_err());
}

#[test]
fn duplicate_member_fails() {
    let p = provider();
    let raw = br#"{"choices":[],"choices":[],"usage":{"prompt_tokens":0,"completion_tokens":0}}"#
        .to_vec();
    assert!(p.parse_response(&request(), b"r".to_vec(), raw, latency()).is_err());
}

#[test]
fn missing_usage_fails() {
    let p = provider();
    let raw = br#"{"choices":[]}"#.to_vec();
    assert!(p.parse_response(&request(), b"r".to_vec(), raw, latency()).is_err());
}

#[test]
fn missing_choices_fails() {
    let p = provider();
    let raw = br#"{"usage":{"prompt_tokens":0,"completion_tokens":0}}"#.to_vec();
    assert!(p.parse_response(&request(), b"r".to_vec(), raw, latency()).is_err());
}

#[test]
fn fractional_token_count_fails() {
    let p = provider();
    let raw = br#"{"choices":[],"usage":{"prompt_tokens":5.5,"completion_tokens":2}}"#.to_vec();
    assert!(p.parse_response(&request(), b"r".to_vec(), raw, latency()).is_err());
}

#[test]
fn token_count_overflow_fails() {
    let p = provider();
    let raw =
        br#"{"choices":[],"usage":{"prompt_tokens":4294967296,"completion_tokens":2}}"#.to_vec();
    assert!(p.parse_response(&request(), b"r".to_vec(), raw, latency()).is_err());
}

#[test]
fn leading_zero_token_count_fails() {
    let p = provider();
    let raw = br#"{"choices":[],"usage":{"prompt_tokens":07,"completion_tokens":2}}"#.to_vec();
    assert!(p.parse_response(&request(), b"r".to_vec(), raw, latency()).is_err());
}

#[test]
fn non_string_content_fails() {
    let p = provider();
    let raw = br#"{"choices":[{"message":{"content":5}}],"usage":{"prompt_tokens":0,"completion_tokens":0}}"#
        .to_vec();
    assert!(p.parse_response(&request(), b"r".to_vec(), raw, latency()).is_err());
}

#[test]
fn choice_without_message_fails() {
    let p = provider();
    let raw = br#"{"choices":[{"index":0}],"usage":{"prompt_tokens":0,"completion_tokens":0}}"#
        .to_vec();
    assert!(p.parse_response(&request(), b"r".to_vec(), raw, latency()).is_err());
}
