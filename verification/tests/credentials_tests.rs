//! Tests of credential configuration and resolution.

use nvidia_nim::{
    default_api_key_location, Credential, CredentialLocation, CredentialStore, ErrorDetails,
    InferenceCredentials, NvidiaNimCredentials, SecretKey,
};

fn key(s: &str) -> SecretKey {
    SecretKey::new(s.as_bytes().to_vec())
}

#[test]
fn default_location_is_env_nvidia_api_key() {
    match default_api_key_location() {
        CredentialLocation::Env(name) => assert_eq!(name, b"NVIDIA_API_KEY".to_vec()),
        _ => panic!("default location must be the environment variable"),
    }
}

#[test]
fn static_credential_returns_stored_secret() {
    let creds = NvidiaNimCredentials::try_from_credential(Credential::Static(key("sk-1"))).unwrap();
    let map = InferenceCredentials::new();
    let got = creds.get_api_key(&map).unwrap().unwrap();
    assert_eq!(got.expose_secret(), &b"sk-1".to_vec());
}

#[test]
fn file_contents_resolves_to_static() {
    let creds =
        NvidiaNimCredentials::try_from_credential(Credential::FileContents(key("sk-file"))).unwrap();
    let map = InferenceCredentials::new();
    let got = creds.get_api_key(&map).unwrap().unwrap();
    assert_eq!(got.expose_secret(), &b"sk-file".to_vec());
}

#[test]
fn dynamic_lookup_returns_per_request_value() {
    let creds =
        NvidiaNimCredentials::try_from_credential(Credential::Dynamic(b"nim_key".to_vec())).unwrap();
    let mut map = InferenceCredentials::new();
    map.insert(b"other".to_vec(), key("wrong"));
    map.insert(b"nim_key".to_vec(), key("sk-dyn"));
    let got = creds.get_api_key(&map).unwrap().unwrap();
    assert_eq!(got.expose_secret(), &b"sk-dyn".to_vec());
}

#[test]
fn dynamic_missing_fails_despite_cached_static_default() {
    // An adapter configured with a dynamic name consults the per-request map
    // only, even while a store nearby caches a static default.
    let store = CredentialStore::new(Credential::Static(key("sk-default"))).unwrap();
    assert!(matches!(
        store.default_credentials(),
        NvidiaNimCredentials::Static(_)
    ));
    let creds =
        NvidiaNimCredentials::try_from_credential(Credential::Dynamic(b"absent".to_vec())).unwrap();
    let map = InferenceCredentials::new();
    match creds.get_api_key(&map) {
        Err(e) => match e.get_details() {
            ErrorDetails::ApiKeyMissing { provider_name } => {
                assert_eq!(provider_name, &b"nvidia_nim".to_vec());
            },
            _ => panic!("expected the missing-key error"),
        },
        Ok(_) => panic!("a missing dynamic key must fail"),
    }
}

#[test]
fn anonymous_credential_attaches_nothing() {
    let creds = NvidiaNimCredentials::try_from_credential(Credential::Anonymous).unwrap();
    let map = InferenceCredentials::new();
    assert!(creds.get_api_key(&map).unwrap().is_none());
}

#[test]
fn missing_credential_resolves_to_anonymous() {
    let creds = NvidiaNimCredentials::try_from_credential(Credential::Missing).unwrap();
    let map = InferenceCredentials::new();
    assert!(creds.get_api_key(&map).unwrap().is_none());
}

#[test]
fn sealed_credential_is_rejected_at_construction() {
    match NvidiaNimCredentials::try_from_credential(Credential::Sealed(key("x"))) {
        Err(e) => match e.get_details() {
            ErrorDetails::Config { message } => {
                assert_eq!(
                    message,
                    &b"Invalid api_key_location for NVIDIA NIM provider".to_vec()
                );
            },
            _ => panic!("expected a configuration error"),
        },
        Ok(_) => panic!("a sealed credential must be rejected"),
    }
}

#[test]
fn store_rejects_unsupported_default() {
    assert!(CredentialStore::new(Credential::Sealed(key("x"))).is_err());
}

#[test]
fn insert_shadows_earlier_entry() {
    let mut map = InferenceCredentials::new();
    map.insert(b"k".to_vec(), key("first"));
    map.insert(b"k".to_vec(), key("second"));
    let creds =
        NvidiaNimCredentials::try_from_credential(Credential::Dynamic(b"k".to_vec())).unwrap();
    let got = creds.get_api_key(&map).unwrap().unwrap();
    assert_eq!(got.expose_secret(), &b"second".to_vec());
}
