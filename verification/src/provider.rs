//! The NVIDIA NIM adapter: request translation, response normalization, and
//! the four-operation capability interface.

use vstd::prelude::*;
use vstd::string::StringSliceAdditionalSpecFns;

use crate::bytes::{dec_of, push_bytes};
use crate::credentials::{
    creds_eqv, is_api_key_missing_error, is_invalid_credential_error, lookup_key,
    narrowed_credentials, Credential, CredentialStore, InferenceCredentials, NvidiaNimCredentials,
    SecretKey,
};
use crate::error::{Error, ErrorDetails};
use crate::jsonenc::{bool_bytes, escaped, param_bytes, push_bool, push_escaped, push_lit, push_param};
use crate::types::{
    clone_bytes, clone_messages, clone_opt_bytes, opt_bytes_view, BlockView, ContentBlock,
    ContentBlockOutput, FinishReason, Latency, MessageView, ModelInferenceRequest,
    ProviderInferenceResponse, RequestMessage, RequestView, Role, Text, Usage,
};
use crate::wire::{choice_views, parse_wire_response, wire_spec, NimUsage};

verus! {

/// The tag under which this backend reports itself in errors.
pub fn provider_type() -> (r: &'static str)
    ensures
        r@ == "nvidia_nim"@,
{
    "nvidia_nim"
}

/// The wire spelling of a role.
pub open spec fn role_bytes(r: Role) -> Seq<u8> {
    match r {
        Role::User => "user".spec_bytes(),
        Role::Assistant => "assistant".spec_bytes(),
    }
}

/// The texts of the text blocks, in order; other block kinds contribute
/// nothing (they are dropped by this adapter's translation).
pub open spec fn text_views(blocks: Seq<BlockView>) -> Seq<Seq<u8>>
    decreases blocks.len(),
{
    if blocks.len() == 0 {
        Seq::empty()
    } else {
        let rest = text_views(blocks.drop_last());
        match blocks.last() {
            BlockView::Text(t) => rest.push(t),
            _ => rest,
        }
    }
}

/// Texts joined by a single space.
pub open spec fn join_space(ts: Seq<Seq<u8>>) -> Seq<u8>
    decreases ts.len(),
{
    if ts.len() == 0 {
        Seq::empty()
    } else if ts.len() == 1 {
        ts[0]
    } else {
        join_space(ts.drop_last()) + seq![0x20u8] + ts.last()
    }
}

/// The translated content of one message: its text blocks joined by single
/// spaces.
pub open spec fn content_bytes(blocks: Seq<BlockView>) -> Seq<u8> {
    join_space(text_views(blocks))
}

/// The wire form of one message.
pub open spec fn message_bytes(m: MessageView) -> Seq<u8> {
    "{\"role\":\"".spec_bytes() + role_bytes(m.role) + "\",\"content\":\"".spec_bytes() + escaped(
        content_bytes(m.content),
    ) + "\"}".spec_bytes()
}

/// The comma-separated list of wire messages.
pub open spec fn messages_list_bytes(ms: Seq<MessageView>) -> Seq<u8>
    decreases ms.len(),
{
    if ms.len() == 0 {
        Seq::empty()
    } else if ms.len() == 1 {
        message_bytes(ms[0])
    } else {
        messages_list_bytes(ms.drop_last()) + seq![0x2cu8] + message_bytes(ms.last())
    }
}

/// The wire form of the message array.
pub open spec fn messages_bytes(ms: Seq<MessageView>) -> Seq<u8> {
    seq![0x5bu8] + messages_list_bytes(ms) + seq![0x5du8]
}

/// The optional `temperature` member: absent when unset, never a null.
pub open spec fn temperature_field(t: Option<u32>) -> Seq<u8> {
    match t {
        Some(v) => ",\"temperature\":".spec_bytes() + param_bytes(v),
        None => Seq::empty(),
    }
}

/// The optional `max_tokens` member: absent when unset, never a null.
pub open spec fn max_tokens_field(t: Option<u32>) -> Seq<u8> {
    match t {
        Some(v) => ",\"max_tokens\":".spec_bytes() + dec_of(v as nat),
        None => Seq::empty(),
    }
}

/// The optional `top_p` member: absent when unset, never a null.
pub open spec fn top_p_field(t: Option<u32>) -> Seq<u8> {
    match t {
        Some(v) => ",\"top_p\":".spec_bytes() + param_bytes(v),
        None => Seq::empty(),
    }
}

/// The unconditional part of the wire body: model, messages, stream.
pub open spec fn mandatory_bytes(model: Seq<u8>, rv: RequestView) -> Seq<u8> {
    "{\"model\":\"".spec_bytes() + escaped(model) + "\",\"messages\":".spec_bytes() + messages_bytes(
        rv.messages,
    ) + ",\"stream\":".spec_bytes() + bool_bytes(rv.stream)
}

/// The whole wire body: the mandatory members, then one optional segment per
/// numeric parameter, then the closing brace.
pub open spec fn body_bytes(model: Seq<u8>, rv: RequestView) -> Seq<u8> {
    mandatory_bytes(model, rv) + temperature_field(rv.temperature) + max_tokens_field(rv.max_tokens)
        + top_p_field(rv.top_p) + seq![0x7du8]
}

/// The adapter for one configured NVIDIA NIM model endpoint.
pub struct NvidiaNimProvider {
    model_name: Vec<u8>,
    api_base: Vec<u8>,
    credentials: NvidiaNimCredentials,
}

impl NvidiaNimProvider {
    /// The configured model name.
    pub closed spec fn model_name_spec(&self) -> Seq<u8> {
        self.model_name@
    }

    /// The configured base endpoint.
    pub closed spec fn api_base_spec(&self) -> Seq<u8> {
        self.api_base@
    }

    /// The resolved credentials.
    pub closed spec fn credentials_spec(&self) -> NvidiaNimCredentials {
        self.credentials
    }

    /// Builds an adapter.  With no explicit credential the store's cached
    /// default is used; an explicit credential is narrowed here, and an
    /// unsupported kind is rejected with a configuration error.
    pub fn new(
        model_name: Vec<u8>,
        api_base: Vec<u8>,
        api_key_credential: Option<Credential>,
        store: &CredentialStore,
    ) -> (r: Result<NvidiaNimProvider, Error>)
        ensures
            match api_key_credential {
                Option::None => r matches Ok(p) && p.model_name_spec() == model_name@
                    && p.api_base_spec() == api_base@ && creds_eqv(
                    p.credentials_spec(),
                    store.spec_default(),
                ),
                Option::Some(c) => match narrowed_credentials(c) {
                    Some(nc) => r matches Ok(p) && p.model_name_spec() == model_name@
                        && p.api_base_spec() == api_base@ && creds_eqv(p.credentials_spec(), nc),
                    None => r matches Err(e) && is_invalid_credential_error(e),
                },
            },
    {
        let credentials = match api_key_credential {
            Option::None => store.default_credentials().duplicate(),
            Option::Some(c) => NvidiaNimCredentials::try_from_credential(c)?,
        };
        Ok(NvidiaNimProvider { model_name, api_base, credentials })
    }

    /// The configured model name.
    pub fn model_name(&self) -> (r: &Vec<u8>)
        ensures
            r@ == self.model_name_spec(),
    {
        &self.model_name
    }

    /// Joins the text blocks with single spaces, dropping every other block
    /// kind.
    pub fn format_content_blocks(&self, content: &Vec<ContentBlock>) -> (r: Vec<u8>)
        ensures
            r@ == content_bytes(content@.map_values(|b: ContentBlock| b@)),
    {
        let ghost bs = content@.map_values(|b: ContentBlock| b@);
        let mut out: Vec<u8> = Vec::new();
        let mut has_text = false;
        proof {
            assert(bs.take(0) =~= Seq::<BlockView>::empty());
            assert(out@ =~= join_space(text_views(bs.take(0))));
        }
        let mut i: usize = 0;
        while i < content.len()
            invariant
                i <= content@.len(),
                bs == content@.map_values(|b: ContentBlock| b@),
                bs.len() == content@.len(),
                out@ == join_space(text_views(bs.take(i as int))),
                has_text <==> text_views(bs.take(i as int)).len() > 0,
            decreases content@.len() - i,
        {
            proof {
                assert(bs.take(i + 1).drop_last() =~= bs.take(i as int));
                assert(bs.take(i + 1).last() == bs[i as int]);
            }
            match &content[i] {
                ContentBlock::Text(t) => {
                    if has_text {
                        out.push(0x20);
                    }
                    push_bytes(&mut out, t.text.as_slice());
                    has_text = true;
                    proof {
                        let tv = text_views(bs.take(i as int));
                        assert(text_views(bs.take(i + 1)) == tv.push(t.text@));
                        if tv.len() == 0 {
                            assert(join_space(tv.push(t.text@)) == t.text@);
                            assert(out@ =~= join_space(text_views(bs.take(i + 1))));
                        } else {
                            assert(tv.push(t.text@).drop_last() =~= tv);
                            assert(out@ =~= join_space(text_views(bs.take(i + 1))));
                        }
                    }
                },
                _ => {
                    proof {
                        assert(text_views(bs.take(i + 1)) == text_views(bs.take(i as int)));
                    }
                },
            }
            i += 1;
        }
        proof {
            assert(bs.take(content@.len() as int) =~= bs);
        }
        out
    }

    /// Writes one wire message.
    fn push_message(&self, out: &mut Vec<u8>, m: &RequestMessage)
        ensures
            final(out)@ == old(out)@ + message_bytes(m@),
    {
        push_lit(out, "{\"role\":\"");
        match m.role {
            Role::User => push_lit(out, "user"),
            Role::Assistant => push_lit(out, "assistant"),
        }
        push_lit(out, "\",\"content\":\"");
        let content = self.format_content_blocks(&m.content);
        push_escaped(out, &content);
        push_lit(out, "\"}");
        proof {
            assert(out@ =~= old(out)@ + message_bytes(m@));
        }
    }

    /// Translates the messages to the wire array, each role to its wire
    /// token and each content to its joined text.
    pub fn format_messages(&self, messages: &Vec<RequestMessage>) -> (r: Vec<u8>)
        ensures
            r@ == messages_bytes(messages@.map_values(|m: RequestMessage| m@)),
    {
        let ghost ms = messages@.map_values(|m: RequestMessage| m@);
        let mut out: Vec<u8> = Vec::new();
        out.push(0x5b);
        proof {
            assert(ms.take(0) =~= Seq::<MessageView>::empty());
            assert(out@ =~= seq![0x5bu8] + messages_list_bytes(ms.take(0)));
        }
        let mut i: usize = 0;
        while i < messages.len()
            invariant
                i <= messages@.len(),
                ms == messages@.map_values(|m: RequestMessage| m@),
                ms.len() == messages@.len(),
                out@ == seq![0x5bu8] + messages_list_bytes(ms.take(i as int)),
            decreases messages@.len() - i,
        {
            proof {
                assert(ms.take(i + 1).drop_last() =~= ms.take(i as int));
                assert(ms.take(i + 1).last() == ms[i as int]);
            }
            if i > 0 {
                out.push(0x2c);
            }
            self.push_message(&mut out, &messages[i]);
            proof {
                if i == 0 {
                    assert(messages_list_bytes(ms.take(1)) == message_bytes(ms[0]));
                    assert(out@ =~= seq![0x5bu8] + messages_list_bytes(ms.take(i + 1)));
                } else {
                    assert(messages_list_bytes(ms.take(i + 1)) == messages_list_bytes(
                        ms.take(i as int),
                    ) + seq![0x2cu8] + message_bytes(ms[i as int]));
                    assert(out@ =~= seq![0x5bu8] + messages_list_bytes(ms.take(i + 1)));
                }
            }
            i += 1;
        }
        out.push(0x5d);
        proof {
            assert(ms.take(messages@.len() as int) =~= ms);
            assert(out@ =~= messages_bytes(ms));
        }
        out
    }

    /// Builds the wire body: model, translated messages and the stream flag
    /// unconditionally, the numeric parameters only when set.
    pub fn make_body(&self, request: &ModelInferenceRequest) -> (r: Result<Vec<u8>, Error>)
        ensures
            r matches Ok(b) && b@ == body_bytes(self.model_name_spec(), request@),
    {
        let mut out: Vec<u8> = Vec::new();
        push_lit(&mut out, "{\"model\":\"");
        push_escaped(&mut out, &self.model_name);
        push_lit(&mut out, "\",\"messages\":");
        let msgs = self.format_messages(&request.messages);
        push_bytes(&mut out, msgs.as_slice());
        push_lit(&mut out, ",\"stream\":");
        push_bool(&mut out, request.stream);
        let ghost rv = request@;
        proof {
            assert(out@ =~= mandatory_bytes(self.model_name@, rv));
        }
        match request.temperature {
            Some(t) => {
                push_lit(&mut out, ",\"temperature\":");
                push_param(&mut out, t.thousandths);
            },
            None => {},
        }
        let ghost with_temp = mandatory_bytes(self.model_name@, rv) + temperature_field(
            rv.temperature,
        );
        proof {
            assert(out@ =~= with_temp);
        }
        match request.max_tokens {
            Some(m) => {
                push_lit(&mut out, ",\"max_tokens\":");
                crate::bytes::push_dec(&mut out, m);
            },
            None => {},
        }
        let ghost with_max = with_temp + max_tokens_field(rv.max_tokens);
        proof {
            assert(out@ =~= with_max);
        }
        match request.top_p {
            Some(t) => {
                push_lit(&mut out, ",\"top_p\":");
                push_param(&mut out, t.thousandths);
            },
            None => {},
        }
        proof {
            assert(out@ =~= with_max + top_p_field(rv.top_p));
        }
        out.push(0x7d);
        proof {
            assert(out@ =~= body_bytes(self.model_name@, rv));
        }
        Ok(out)
    }
}

/// What `url::Url::parse` followed by `join("chat/completions")` yields for a
/// base endpoint: the joined URL's text, or nothing when the base cannot be
/// parsed or cannot serve as a base.
pub uninterp spec fn joined_completions_url(base: Seq<u8>) -> Option<Seq<u8>>;

/// Relies on url::Url::parse and url::Url::join: resolves the fixed
/// `chat/completions` path against the configured base endpoint.  The result
/// is a function of the base text alone.
#[verifier::external_body]
fn join_completions(base: &Vec<u8>) -> (r: Option<Vec<u8>>)
    ensures
        match r {
            Some(u) => joined_completions_url(base@) == Some(u@),
            None => joined_completions_url(base@) is None,
        },
{
    let text = match core::str::from_utf8(base.as_slice()) {
        Ok(t) => t,
        Err(_) => return None,
    };
    let parsed = match url::Url::parse(text) {
        Ok(u) => u,
        Err(_) => return None,
    };
    match parsed.join("chat/completions") {
        Ok(u) => Some(u.as_str().as_bytes().to_vec()),
        Err(_) => None,
    }
}

/// Relies on uuid::Uuid::now_v7: a fresh, time-ordered unique id.  Only the
/// hyphenated length is promised of the value.
#[verifier::external_body]
fn fresh_response_id() -> (r: Vec<u8>)
    ensures
        r@.len() == 36,
{
    uuid::Uuid::now_v7().hyphenated().to_string().into_bytes()
}

/// Relies on std::time::SystemTime::now: the wall-clock seconds since the
/// Unix epoch at the moment of the call.  Nothing is promised of the value;
/// a clock reading before the epoch is reported as 0 rather than panicking.
#[verifier::external_body]
fn unix_timestamp() -> (r: u64)
{
    match std::time::SystemTime::now().duration_since(std::time::UNIX_EPOCH) {
        Ok(d) => d.as_secs(),
        Err(_) => 0,
    }
}

/// The texts of the non-null choice contents, in their original order; null
/// contents contribute nothing.
pub open spec fn non_null_texts(cv: Seq<Option<Seq<u8>>>) -> Seq<Seq<u8>>
    decreases cv.len(),
{
    if cv.len() == 0 {
        Seq::empty()
    } else {
        let rest = non_null_texts(cv.drop_last());
        match cv.last() {
            Some(t) => rest.push(t),
            None => rest,
        }
    }
}

/// Whether `out` is exactly one `Text` block per entry of `texts`, in order.
pub open spec fn outputs_match(out: Seq<ContentBlockOutput>, texts: Seq<Seq<u8>>) -> bool {
    &&& out.len() == texts.len()
    &&& forall|k: int|
        0 <= k < out.len() ==> (#[trigger] out[k] matches ContentBlockOutput::Text(t) && t.text@
            == texts[k])
}

/// The schema-mismatch failure: a server error carrying both raw strings.
pub open spec fn is_response_parse_error(e: Error, rr: Seq<u8>, rb: Seq<u8>) -> bool {
    &&& e.details matches ErrorDetails::InferenceServer {
        message,
        provider_type,
        raw_request,
        raw_response,
    }
    &&& message@ == "Error parsing NIM response".spec_bytes()
    &&& provider_type@ == "nvidia_nim".spec_bytes()
    &&& raw_request matches Some(v) && v@ == rr
    &&& raw_response matches Some(w) && w@ == rb
}

/// The unreadable-body failure: a server error with the raw request but no
/// raw response.
pub open spec fn is_body_read_error(e: Error, status_success: bool, rr: Seq<u8>) -> bool {
    &&& e.details matches ErrorDetails::InferenceServer {
        message,
        provider_type,
        raw_request,
        raw_response,
    }
    &&& message@ == (if status_success {
        "Error parsing response".spec_bytes()
    } else {
        "Error parsing error response".spec_bytes()
    })
    &&& provider_type@ == "nvidia_nim".spec_bytes()
    &&& raw_request matches Some(v) && v@ == rr
    &&& raw_response is None
}

/// The non-success-status failure: a server error carrying the error payload
/// verbatim as the raw response.
pub open spec fn is_api_error(e: Error, rr: Seq<u8>, rb: Seq<u8>) -> bool {
    &&& e.details matches ErrorDetails::InferenceServer {
        message,
        provider_type,
        raw_request,
        raw_response,
    }
    &&& message@ == "NIM API error".spec_bytes()
    &&& provider_type@ == "nvidia_nim".spec_bytes()
    &&& raw_request matches Some(v) && v@ == rr
    &&& raw_response matches Some(w) && w@ == rb
}

/// The unsupported-capability failure naming this backend.
pub open spec fn is_unsupported_capability_error(e: Error) -> bool {
    &&& e.details matches ErrorDetails::UnsupportedModelProviderForBatchInference { provider_type }
    &&& provider_type@ == "nvidia_nim".spec_bytes()
}

/// The malformed-endpoint failure.
pub open spec fn is_invalid_base_url_error(e: Error) -> bool {
    &&& e.details matches ErrorDetails::Config { message }
    &&& message@ == "Invalid API base URL".spec_bytes()
}

/// How a normalized response relates to the request it answers, the raw
/// strings, and the decoded wire content `cv` and usage `u`: the output is
/// exactly the non-null choice texts in order, the usage counts are copied,
/// the system prompt and input messages are echoed, the raw strings are held
/// verbatim, the finish reason is the fixed `Stop`, and the id has the
/// hyphenated unique-id length.
pub open spec fn response_assembled(
    resp: ProviderInferenceResponse,
    rv: RequestView,
    rr: Seq<u8>,
    rb: Seq<u8>,
    latency: Latency,
    cv: Seq<Option<Seq<u8>>>,
    u: NimUsage,
) -> bool {
    &&& outputs_match(resp.output@, non_null_texts(cv))
    &&& opt_bytes_view(resp.system) == rv.system
    &&& resp.input_messages@.map_values(|m: RequestMessage| m@) == rv.messages
    &&& resp.raw_request@ == rr
    &&& resp.raw_response@ == rb
    &&& resp.usage == (Usage { input_tokens: u.prompt_tokens, output_tokens: u.completion_tokens })
    &&& resp.latency == latency
    &&& resp.finish_reason == Some(FinishReason::Stop)
    &&& resp.id@.len() == 36
}

/// Everything the transport needs for one exchange: the joined endpoint, the
/// wire body, the resolved bearer credential, and the opaque extra payloads
/// carried through from the request.
pub struct PreparedRequest {
    pub url: Vec<u8>,
    pub body: Vec<u8>,
    pub api_key: Option<SecretKey>,
    pub extra_body: Option<Vec<u8>>,
    pub extra_headers: Option<Vec<u8>>,
}

/// Whether a prepared request holds exactly the given url, body, credential
/// and pass-through payloads.
pub open spec fn prepared_matches(
    p: PreparedRequest,
    url: Seq<u8>,
    body: Seq<u8>,
    key: Option<Seq<u8>>,
    rv: RequestView,
) -> bool {
    &&& p.url@ == url
    &&& p.body@ == body
    &&& match (p.api_key, key) {
        (Some(k), Some(v)) => k@ == v,
        (Option::None, Option::None) => true,
        _ => false,
    }
    &&& opt_bytes_view(p.extra_body) == rv.extra_body
    &&& opt_bytes_view(p.extra_headers) == rv.extra_headers
}

impl NvidiaNimProvider {
    /// Normalizes a success body: it succeeds exactly when the body decodes
    /// under the wire schema, and then holds one `Text` block per non-null
    /// choice content in order, the usage counts copied, the raw strings
    /// verbatim, a fresh id and wall-clock creation time, and the fixed
    /// `Stop` finish reason.  A body that fails the schema yields a server
    /// error carrying both raw strings.
    pub fn parse_response(
        &self,
        request: &ModelInferenceRequest,
        raw_request: Vec<u8>,
        raw_response: Vec<u8>,
        latency: Latency,
    ) -> (r: Result<ProviderInferenceResponse, Error>)
        ensures
            r is Ok <==> wire_spec(raw_response@) is Some,
            r matches Ok(resp) ==> (wire_spec(raw_response@) matches Some(w)
                ==> response_assembled(
                    resp,
                    request@,
                    raw_request@,
                    raw_response@,
                    latency,
                    w.0,
                    w.1,
                )),
            r matches Err(e) ==> is_response_parse_error(e, raw_request@, raw_response@),
    {
        let ghost rr = raw_request@;
        let ghost rb = raw_response@;
        let wire = match parse_wire_response(&raw_response) {
            Some(w) => w,
            None => {
                let mut message: Vec<u8> = Vec::new();
                push_lit(&mut message, "Error parsing NIM response");
                let mut tag: Vec<u8> = Vec::new();
                push_lit(&mut tag, "nvidia_nim");
                return Err(
                    Error::new(
                        ErrorDetails::InferenceServer {
                            message,
                            provider_type: tag,
                            raw_request: Some(raw_request),
                            raw_response: Some(raw_response),
                        },
                    ),
                );
            },
        };
        let ghost cv = choice_views(wire.choices@);
        let mut output: Vec<ContentBlockOutput> = Vec::new();
        proof {
            assert(cv.take(0) =~= Seq::<Option<Seq<u8>>>::empty());
        }
        let mut i: usize = 0;
        while i < wire.choices.len()
            invariant
                i <= wire.choices@.len(),
                cv == choice_views(wire.choices@),
                cv.len() == wire.choices@.len(),
                outputs_match(output@, non_null_texts(cv.take(i as int))),
            decreases wire.choices@.len() - i,
        {
            proof {
                assert(cv.take(i + 1).drop_last() =~= cv.take(i as int));
                assert(cv.take(i + 1).last() == cv[i as int]);
            }
            match &wire.choices[i].message.content {
                Some(text) => {
                    let t = clone_bytes(text);
                    output.push(ContentBlockOutput::Text(Text { text: t }));
                    proof {
                        assert(cv[i as int] == Some(text@));
                        assert(non_null_texts(cv.take(i + 1)) == non_null_texts(
                            cv.take(i as int),
                        ).push(text@));
                        assert(outputs_match(output@, non_null_texts(cv.take(i + 1))));
                    }
                },
                None => {
                    proof {
                        assert(cv[i as int] is None);
                        assert(non_null_texts(cv.take(i + 1)) == non_null_texts(cv.take(i as int)));
                    }
                },
            }
            i += 1;
        }
        proof {
            assert(cv.take(wire.choices@.len() as int) =~= cv);
        }
        let id = fresh_response_id();
        let created = unix_timestamp();
        let system = clone_opt_bytes(&request.system);
        let input_messages = clone_messages(&request.messages);
        let resp = ProviderInferenceResponse {
            id,
            created,
            output,
            system,
            input_messages,
            raw_request,
            raw_response,
            usage: Usage {
                input_tokens: wire.usage.prompt_tokens,
                output_tokens: wire.usage.completion_tokens,
            },
            latency,
            finish_reason: Some(FinishReason::Stop),
        };
        proof {
            assert(response_assembled(resp, request@, rr, rb, latency, cv, wire.usage));
        }
        Ok(resp)
    }

    /// Prepares one synchronous exchange: builds the wire body, resolves the
    /// completions endpoint against the base (a malformed base fails here,
    /// with no transport work prepared), then resolves the credential.
    pub fn infer_prepare(
        &self,
        request: &ModelInferenceRequest,
        dynamic_api_keys: &InferenceCredentials,
    ) -> (r: Result<PreparedRequest, Error>)
        ensures
            match joined_completions_url(self.api_base_spec()) {
                Option::None => r matches Err(e) && is_invalid_base_url_error(e),
                Option::Some(u) => match self.credentials_spec() {
                    NvidiaNimCredentials::Static(key) => r matches Ok(p) && prepared_matches(
                        p,
                        u,
                        body_bytes(self.model_name_spec(), request@),
                        Some(key@),
                        request@,
                    ),
                    NvidiaNimCredentials::Dynamic(name) => (match lookup_key(
                        dynamic_api_keys@,
                        name@,
                    ) {
                        Some(v) => r matches Ok(p) && prepared_matches(
                            p,
                            u,
                            body_bytes(self.model_name_spec(), request@),
                            Some(v),
                            request@,
                        ),
                        None => r matches Err(e) && is_api_key_missing_error(e),
                    }),
                    NvidiaNimCredentials::Anonymous => r matches Ok(p) && prepared_matches(
                        p,
                        u,
                        body_bytes(self.model_name_spec(), request@),
                        Option::None,
                        request@,
                    ),
                },
            },
    {
        let body = match self.make_body(request) {
            Ok(b) => b,
            Err(e) => {
                return Err(e);
            },
        };
        let url = match join_completions(&self.api_base) {
            Some(u) => u,
            None => {
                let mut message: Vec<u8> = Vec::new();
                push_lit(&mut message, "Invalid API base URL");
                return Err(Error::new(ErrorDetails::Config { message }));
            },
        };
        let key = match self.credentials.get_api_key(dynamic_api_keys) {
            Ok(k) => k,
            Err(e) => {
                return Err(e);
            },
        };
        let api_key = match key {
            Some(k) => Some(k.duplicate()),
            None => None,
        };
        Ok(
            PreparedRequest {
                url,
                body,
                api_key,
                extra_body: clone_opt_bytes(&request.extra_body),
                extra_headers: clone_opt_bytes(&request.extra_headers),
            },
        )
    }

    /// Finishes one exchange from what the transport observed: an unreadable
    /// body fails with a server error carrying only the raw request; a
    /// non-success status fails with a server error carrying the error
    /// payload verbatim; a success body is normalized by
    /// [`Self::parse_response`], succeeding exactly when it decodes under
    /// the wire schema.
    pub fn infer_finish(
        &self,
        request: &ModelInferenceRequest,
        raw_request: Vec<u8>,
        status_success: bool,
        response_body: Option<Vec<u8>>,
        latency: Latency,
    ) -> (r: Result<ProviderInferenceResponse, Error>)
        ensures
            response_body is None ==> (r matches Err(e) && is_body_read_error(
                e,
                status_success,
                raw_request@,
            )),
            !status_success ==> (response_body matches Some(b) ==> (r matches Err(e)
                && is_api_error(e, raw_request@, b@))),
            status_success ==> (response_body matches Some(b) ==> (r is Ok <==> wire_spec(b@)
                is Some)),
            status_success ==> (response_body matches Some(b) ==> (r matches Err(e)
                ==> is_response_parse_error(e, raw_request@, b@))),
            status_success ==> (response_body matches Some(b) ==> (r matches Ok(resp)
                ==> (wire_spec(b@) matches Some(w) ==> response_assembled(
                resp,
                request@,
                raw_request@,
                b@,
                latency,
                w.0,
                w.1,
            )))),
    {
        let body = match response_body {
            Some(b) => b,
            None => {
                let mut message: Vec<u8> = Vec::new();
                if status_success {
                    push_lit(&mut message, "Error parsing response");
                } else {
                    push_lit(&mut message, "Error parsing error response");
                }
                let mut tag: Vec<u8> = Vec::new();
                push_lit(&mut tag, "nvidia_nim");
                return Err(
                    Error::new(
                        ErrorDetails::InferenceServer {
                            message,
                            provider_type: tag,
                            raw_request: Some(raw_request),
                            raw_response: Option::None,
                        },
                    ),
                );
            },
        };
        if status_success {
            self.parse_response(request, raw_request, body, latency)
        } else {
            let mut message: Vec<u8> = Vec::new();
            push_lit(&mut message, "NIM API error");
            let mut tag: Vec<u8> = Vec::new();
            push_lit(&mut tag, "nvidia_nim");
            Err(
                Error::new(
                    ErrorDetails::InferenceServer {
                        message,
                        provider_type: tag,
                        raw_request: Some(raw_request),
                        raw_response: Some(body),
                    },
                ),
            )
        }
    }

    /// Streaming inference: not supported by this backend; fails before any
    /// transport work with the typed capability signal.
    pub fn infer_stream(
        &self,
        _request: &ModelInferenceRequest,
        _dynamic_api_keys: &InferenceCredentials,
    ) -> (r: Result<(), Error>)
        ensures
            r matches Err(e) && is_unsupported_capability_error(e),
    {
        Err(Error::new(unsupported_capability_details()))
    }

    /// Batch start: not supported by this backend; fails before any
    /// transport work with the typed capability signal.
    pub fn start_batch_inference(
        &self,
        _requests: &Vec<ModelInferenceRequest>,
        _dynamic_api_keys: &InferenceCredentials,
    ) -> (r: Result<(), Error>)
        ensures
            r matches Err(e) && is_unsupported_capability_error(e),
    {
        Err(Error::new(unsupported_capability_details()))
    }

    /// Batch poll: not supported by this backend; fails before any transport
    /// work with the typed capability signal.
    pub fn poll_batch_inference(&self) -> (r: Result<(), Error>)
        ensures
            r matches Err(e) && is_unsupported_capability_error(e),
    {
        Err(Error::new(unsupported_capability_details()))
    }
}

/// The text a block contributes when it is a text block; nothing otherwise.
pub open spec fn text_of(b: BlockView) -> Seq<u8> {
    match b {
        BlockView::Text(t) => t,
        _ => Seq::empty(),
    }
}

proof fn lemma_text_views_all_text(blocks: Seq<BlockView>)
    requires
        forall|i: int| 0 <= i < blocks.len() ==> blocks[i] is Text,
    ensures
        text_views(blocks) == blocks.map_values(|b: BlockView| text_of(b)),
    decreases blocks.len(),
{
    if blocks.len() == 0 {
        assert(text_views(blocks) =~= blocks.map_values(|b: BlockView| text_of(b)));
    } else {
        let pre = blocks.drop_last();
        lemma_text_views_all_text(pre);
        assert(blocks.last() is Text);
        assert(text_views(blocks) == text_views(pre).push(text_of(blocks.last())));
        assert(text_views(blocks) =~= blocks.map_values(|b: BlockView| text_of(b)));
    }
}

/// For a message whose blocks are all text, the translated content is
/// exactly those texts joined by single spaces, in their original order.
pub proof fn lemma_all_text_content(blocks: Seq<BlockView>)
    requires
        forall|i: int| 0 <= i < blocks.len() ==> blocks[i] is Text,
    ensures
        content_bytes(blocks) == join_space(blocks.map_values(|b: BlockView| text_of(b))),
{
    lemma_text_views_all_text(blocks);
}

/// Optional numeric fields appear in the wire body exactly when set: the
/// body is the mandatory members followed by one segment per optional field,
/// where an unset field contributes nothing at all and a set one contributes
/// its key and plain numeral — never a null placeholder.
pub proof fn lemma_optional_fields(model: Seq<u8>, rv: RequestView)
    ensures
        body_bytes(model, rv) == mandatory_bytes(model, rv) + temperature_field(rv.temperature)
            + max_tokens_field(rv.max_tokens) + top_p_field(rv.top_p) + seq![0x7du8],
        rv.temperature is None ==> temperature_field(rv.temperature) == Seq::<u8>::empty(),
        rv.max_tokens is None ==> max_tokens_field(rv.max_tokens) == Seq::<u8>::empty(),
        rv.top_p is None ==> top_p_field(rv.top_p) == Seq::<u8>::empty(),
        rv.temperature matches Some(v) ==> temperature_field(rv.temperature)
            == ",\"temperature\":".spec_bytes() + param_bytes(v),
        rv.max_tokens matches Some(v) ==> max_tokens_field(rv.max_tokens)
            == ",\"max_tokens\":".spec_bytes() + dec_of(v as nat),
        rv.top_p matches Some(v) ==> top_p_field(rv.top_p) == ",\"top_p\":".spec_bytes()
            + param_bytes(v),
{
}

/// How many choice contents are non-null.
pub open spec fn count_some(cv: Seq<Option<Seq<u8>>>) -> int
    decreases cv.len(),
{
    if cv.len() == 0 {
        0
    } else {
        count_some(cv.drop_last()) + if cv.last() is Some {
            1int
        } else {
            0int
        }
    }
}

/// The position of the k-th non-null choice content.
pub open spec fn some_index(cv: Seq<Option<Seq<u8>>>, k: int) -> int
    decreases cv.len(),
{
    if cv.len() == 0 {
        0
    } else if k < count_some(cv.drop_last()) {
        some_index(cv.drop_last(), k)
    } else {
        cv.len() - 1
    }
}

/// The normalized output holds exactly one text per non-null choice content,
/// in their relative order: there are `count_some(cv)` of them, and the k-th
/// is the content of the k-th non-null choice, at a strictly increasing
/// position; null contents contribute nothing.
pub proof fn lemma_output_blocks(cv: Seq<Option<Seq<u8>>>)
    ensures
        non_null_texts(cv).len() == count_some(cv),
        forall|k: int| 0 <= k < count_some(cv) ==> 0 <= #[trigger] some_index(cv, k) < cv.len(),
        forall|k: int|
            0 <= k < count_some(cv) ==> (cv[#[trigger] some_index(cv, k)] matches Some(t)
                && non_null_texts(cv)[k] == t),
        forall|k1: int, k2: int|
            0 <= k1 < k2 < count_some(cv) ==> #[trigger] some_index(cv, k1) < #[trigger] some_index(
                cv,
                k2,
            ),
    decreases cv.len(),
{
    if cv.len() == 0 {
    } else {
        let pre = cv.drop_last();
        lemma_output_blocks(pre);
        assert(forall|j: int| 0 <= j < pre.len() ==> pre[j] == cv[j]);
        if cv.last() is Some {
            assert(count_some(cv) == count_some(pre) + 1);
            assert forall|k: int| 0 <= k < count_some(cv) implies 0 <= #[trigger] some_index(cv, k)
                < cv.len() by {
                if k < count_some(pre) {
                    assert(some_index(cv, k) == some_index(pre, k));
                } else {
                    assert(some_index(cv, k) == cv.len() - 1);
                }
            }
            assert forall|k: int| 0 <= k < count_some(cv) implies (cv[#[trigger] some_index(
                cv,
                k,
            )] matches Some(t) && non_null_texts(cv)[k] == t) by {
                if k < count_some(pre) {
                    assert(some_index(cv, k) == some_index(pre, k));
                    assert(cv[some_index(pre, k)] == pre[some_index(pre, k)]);
                    assert(non_null_texts(cv)[k] == non_null_texts(pre)[k]);
                } else {
                    assert(some_index(cv, k) == cv.len() - 1);
                    assert(non_null_texts(cv)[k] == cv.last()->0);
                }
            }
            assert forall|k1: int, k2: int| 0 <= k1 < k2 < count_some(cv) implies #[trigger]
            some_index(cv, k1) < #[trigger] some_index(cv, k2) by {
                if k2 < count_some(pre) {
                    assert(some_index(cv, k1) == some_index(pre, k1));
                    assert(some_index(cv, k2) == some_index(pre, k2));
                } else {
                    assert(some_index(cv, k2) == cv.len() - 1);
                    assert(some_index(cv, k1) == some_index(pre, k1));
                    assert(some_index(pre, k1) < pre.len());
                }
            }
        } else {
            assert(count_some(cv) == count_some(pre));
            assert(non_null_texts(cv) == non_null_texts(pre));
            assert forall|k: int| 0 <= k < count_some(cv) implies 0 <= #[trigger] some_index(cv, k)
                < cv.len() by {
                assert(some_index(cv, k) == some_index(pre, k));
            }
            assert forall|k: int| 0 <= k < count_some(cv) implies (cv[#[trigger] some_index(
                cv,
                k,
            )] matches Some(t) && non_null_texts(cv)[k] == t) by {
                assert(some_index(cv, k) == some_index(pre, k));
                assert(cv[some_index(pre, k)] == pre[some_index(pre, k)]);
            }
            assert forall|k1: int, k2: int| 0 <= k1 < k2 < count_some(cv) implies #[trigger]
            some_index(cv, k1) < #[trigger] some_index(cv, k2) by {
                assert(some_index(cv, k1) == some_index(pre, k1));
                assert(some_index(cv, k2) == some_index(pre, k2));
            }
        }
    }
}

/// The shared unsupported-capability error payload.
fn unsupported_capability_details() -> (r: ErrorDetails)
    ensures
        r matches ErrorDetails::UnsupportedModelProviderForBatchInference { provider_type }
            && provider_type@ == "nvidia_nim".spec_bytes(),
{
    let mut tag: Vec<u8> = Vec::new();
    push_lit(&mut tag, "nvidia_nim");
    ErrorDetails::UnsupportedModelProviderForBatchInference { provider_type: tag }
}

} // verus!
