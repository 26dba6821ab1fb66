//! Tests of the adapter's orchestration and capability interface.

use nvidia_nim::{
    Credential, CredentialStore, ErrorDetails, InferenceCredentials, Latency,
    ModelInferenceRequest, NvidiaNimProvider, RequestMessage, Role, SecretKey, Text,
};

fn key(s: &str) -> SecretKey {
    SecretKey::new(s.as_bytes().to_vec())
}

fn anonymous_store() -> CredentialStore {
    CredentialStore::new(Credential::Missing).unwrap()
}

fn request() -> ModelInferenceRequest {
    ModelInferenceRequest {
        messages: vec![RequestMessage {
            role: Role::User,
            content: vec![nvidia_nim::ContentBlock::Text(Text { text: b"Hi".to_vec() })],
        }],
        system: None,
        temperature: None,
        max_tokens: None,
        top_p: None,
        stream: false,
        extra_body: Some(b"{\"nim\":true}".to_vec()),
        extra_headers: None,
    }
}

fn latency() -> Latency {
    Latency::NonStreaming { response_time_ms: 7 }
}

fn assert_unsupported(e: &nvidia_nim::Error) {
    match e.get_details() {
        ErrorDetails::UnsupportedModelProviderForBatchInference { provider_type } => {
            assert_eq!(provider_type, &b"nvidia_nim".to_vec());
        },
        _ => panic!("expected the unsupported-capability error"),
    }
}

#[test]
fn provider_reports_its_type_tag() {
    assert_eq!(nvidia_nim::provider_type(), "nvidia_nim");
}

#[test]
fn streaming_fails_with_unsupported_capability() {
    let store = anonymous_store();
    let p = NvidiaNimProvider::new(
        b"m".to_vec(),
        b"https://nim.example/v1/".to_vec(),
        None,
        &store,
    )
    .unwrap();
    let map = InferenceCredentials::new();
    assert_unsupported(&p.infer_stream(&request(), &map).unwrap_err());
}

#[test]
fn batch_start_fails_with_unsupported_capability() {
    let store = anonymous_store();
    let p = NvidiaNimProvider::new(
        b"m".to_vec(),
        b"https://nim.example/v1/".to_vec(),
        None,
        &store,
    )
    .unwrap();
    let map = InferenceCredentials::new();
    let requests = vec![request()];
    assert_unsupported(&p.start_batch_inference(&requests, &map).unwrap_err());
}

#[test]
fn batch_poll_fails_with_unsupported_capability() {
    let store = anonymous_store();
    let p = NvidiaNimProvider::new(
        b"m".to_vec(),
        b"https://nim.example/v1/".to_vec(),
        None,
        &store,
    )
    .unwrap();
    assert_unsupported(&p.poll_batch_inference().unwrap_err());
}

#[test]
fn malformed_base_endpoint_is_a_configuration_error() {
    let store = anonymous_store();
    // A cannot-be-a-base URL parses but refuses to resolve a relative path.
    let p = NvidiaNimProvider::new(b"m".to_vec(), b"mailto:x@y".to_vec(), None, &store).unwrap();
    let map = InferenceCredentials::new();
    match p.infer_prepare(&request(), &map) {
        Err(e) => match e.get_details() {
            ErrorDetails::Config { message } => {
                assert_eq!(message, &b"Invalid API base URL".to_vec());
            },
            _ => panic!("expected a configuration error"),
        },
        Ok(_) => panic!("a malformed base must fail before any transport work"),
    }
}

#[test]
fn unparseable_base_endpoint_is_a_configuration_error() {
    let store = anonymous_store();
    let p = NvidiaNimProvider::new(b"m".to_vec(), b"not a url".to_vec(), None, &store).unwrap();
    let map = InferenceCredentials::new();
    match p.infer_prepare(&request(), &map) {
        Err(e) => assert!(matches!(e.get_details(), ErrorDetails::Config { .. })),
        Ok(_) => panic!("an unparseable base must fail"),
    }
}

#[test]
fn prepare_joins_endpoint_and_attaches_bearer() {
    let store = CredentialStore::new(Credential::Static(key("sk-live"))).unwrap();
    let p = NvidiaNimProvider::new(
        b"llama-70b".to_vec(),
        b"https://nim.example/v1/".to_vec(),
        None,
        &store,
    )
    .unwrap();
    let map = InferenceCredentials::new();
    let prepared = p.infer_prepare(&request(), &map).unwrap();
    assert_eq!(prepared.url, b"https://nim.example/v1/chat/completions".to_vec());
    assert_eq!(prepared.body, p.make_body(&request()).unwrap());
    assert_eq!(
        prepared.api_key.as_ref().unwrap().expose_secret(),
        &b"sk-live".to_vec()
    );
    assert_eq!(prepared.extra_body, Some(b"{\"nim\":true}".to_vec()));
    assert_eq!(prepared.extra_headers, None);
}

#[test]
fn prepare_without_credential_attaches_nothing() {
    let store = anonymous_store();
    let p = NvidiaNimProvider::new(
        b"m".to_vec(),
        b"https://nim.example/v1/".to_vec(),
        None,
        &store,
    )
    .unwrap();
    let map = InferenceCredentials::new();
    let prepared = p.infer_prepare(&request(), &map).unwrap();
    assert!(prepared.api_key.is_none());
}

#[test]
fn prepare_dynamic_uses_per_request_map() {
    let store = anonymous_store();
    let p = NvidiaNimProvider::new(
        b"m".to_vec(),
        b"https://nim.example/v1/".to_vec(),
        Some(Credential::Dynamic(b"nim_key".to_vec())),
        &store,
    )
    .unwrap();
    let mut map = InferenceCredentials::new();
    map.insert(b"nim_key".to_vec(), key("sk-dyn"));
    let prepared = p.infer_prepare(&request(), &map).unwrap();
    assert_eq!(
        prepared.api_key.as_ref().unwrap().expose_secret(),
        &b"sk-dyn".to_vec()
    );
    let empty = InferenceCredentials::new();
    match p.infer_prepare(&request(), &empty) {
        Err(e) => assert!(matches!(e.get_details(), ErrorDetails::ApiKeyMissing { .. })),
        Ok(_) => panic!("a missing dynamic key must fail"),
    }
}

#[test]
fn adapters_sharing_a_store_resolve_identically() {
    let store = CredentialStore::new(Credential::Static(key("sk-shared"))).unwrap();
    let a = NvidiaNimProvider::new(
        b"m1".to_vec(),
        b"https://nim.example/v1/".to_vec(),
        None,
        &store,
    )
    .unwrap();
    let b = NvidiaNimProvider::new(
        b"m2".to_vec(),
        b"https://nim.example/v1/".to_vec(),
        None,
        &store,
    )
    .unwrap();
    let map = InferenceCredentials::new();
    let pa = a.infer_prepare(&request(), &map).unwrap();
    let pb = b.infer_prepare(&request(), &map).unwrap();
    assert_eq!(
        pa.api_key.as_ref().unwrap().expose_secret(),
        pb.api_key.as_ref().unwrap().expose_secret()
    );
}

#[test]
fn http_error_status_carries_payload_verbatim() {
    let store = anonymous_store();
    let p = NvidiaNimProvider::new(
        b"m".to_vec(),
        b"https://nim.example/v1/".to_vec(),
        None,
        &store,
    )
    .unwrap();
    let err = p
        .infer_finish(
            &request(),
            b"sent-request".to_vec(),
            false,
            Some(b"unauthorized".to_vec()),
            latency(),
        )
        .unwrap_err();
    match err.get_details() {
        ErrorDetails::InferenceServer { message, provider_type, raw_request, raw_response } => {
            assert_eq!(message, &b"NIM API error".to_vec());
            assert_eq!(provider_type, &b"nvidia_nim".to_vec());
            assert_eq!(raw_request, &Some(b"sent-request".to_vec()));
            assert_eq!(raw_response, &Some(b"unauthorized".to_vec()));
        },
        _ => panic!("expected a server error"),
    }
}

#[test]
fn unreadable_body_fails_without_raw_response() {
    let store = anonymous_store();
    let p = NvidiaNimProvider::new(
        b"m".to_vec(),
        b"https://nim.example/v1/".to_vec(),
        None,
        &store,
    )
    .unwrap();
    let err = p
        .infer_finish(&request(), b"sent".to_vec(), true, None, latency())
        .unwrap_err();
    match err.get_details() {
        ErrorDetails::InferenceServer { raw_request, raw_response, .. } => {
            assert_eq!(raw_request, &Some(b"sent".to_vec()));
            assert_eq!(raw_response, &None);
        },
        _ => panic!("expected a server error"),
    }
}

#[test]
fn successful_exchange_normalizes_response() {
    let store = anonymous_store();
    let p = NvidiaNimProvider::new(
        b"llama-70b".to_vec(),
        b"https://nim.example/v1/".to_vec(),
        None,
        &store,
    )
    .unwrap();
    let body =
        br#"{"choices":[{"message":{"content":"Hello!"}}],"usage":{"prompt_tokens":5,"completion_tokens":2}}"#
            .to_vec();
    let resp = p
        .infer_finish(&request(), b"sent".to_vec(), true, Some(body), latency())
        .unwrap();
    assert_eq!(resp.usage.input_tokens, 5);
    assert_eq!(resp.usage.output_tokens, 2);
    assert_eq!(resp.raw_request, b"sent".to_vec());
}
