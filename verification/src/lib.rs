//! Adapter for an OpenAI-compatible NVIDIA NIM inference backend.
//!
//! The crate translates a provider-agnostic inference request into the
//! backend's JSON wire format, normalizes the backend's JSON response into a
//! canonical result, resolves API credentials under the configured strategy,
//! and signals unsupported capabilities (streaming, batch) with a typed
//! error.  All text travels as UTF-8 bytes (`Vec<u8>`); the HTTP exchange
//! itself is left to the caller, which hands back status and body.

mod bytes;
mod credentials;
mod error;
mod jsonenc;
mod provider;
mod types;
mod wire;

pub use credentials::{
    creds_eqv, default_api_key_location, is_api_key_missing_error, is_invalid_credential_error,
    lemma_default_credentials_shared, lookup_key, narrowed_credentials, Credential,
    CredentialLocation, CredentialStore, InferenceCredentials, NvidiaNimCredentials, SecretKey,
};
pub use provider::{
    body_bytes, content_bytes, count_some, is_api_error, is_body_read_error,
    is_invalid_base_url_error, lemma_all_text_content, lemma_optional_fields, lemma_output_blocks,
    messages_list_bytes, some_index, text_of,
    is_response_parse_error, is_unsupported_capability_error, join_space, joined_completions_url,
    mandatory_bytes, max_tokens_field, message_bytes, messages_bytes, non_null_texts,
    outputs_match, prepared_matches, provider_type, response_assembled, role_bytes,
    temperature_field, text_views, top_p_field, NvidiaNimProvider, PreparedRequest,
};
pub use wire::{
    choice_views, parse_wire_response, wire_spec, NimChoice, NimMessage, NimResponse, NimUsage,
};
pub use error::{Error, ErrorDetails};
pub use types::{
    BlockView, ContentBlock, ContentBlockOutput, FinishReason, Latency, MessageView,
    ModelInferenceRequest, ParamValue, ProviderInferenceResponse, RequestMessage, RequestView,
    Role, Text, ToolCall, ToolResult, Usage,
};
