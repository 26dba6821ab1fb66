//! Canonical, provider-agnostic request and response types.
//!
//! All text is carried as UTF-8 bytes (`Vec<u8>`), so that the contracts can
//! speak of the exact bytes that reach the wire.  Fractional sampling
//! parameters are carried as thousandths (see [`ParamValue`]), since the
//! verified core holds no floating point.

use vstd::prelude::*;

verus! {

/// The speaker of a message.
#[derive(Debug, Clone, Copy, PartialEq, Eq, Structural)]
pub enum Role {
    User,
    Assistant,
}

/// A text content block.
#[derive(Debug, Clone, PartialEq, Eq)]
pub struct Text {
    pub text: Vec<u8>,
}

/// A tool invocation requested by the model.
#[derive(Debug, Clone, PartialEq, Eq)]
pub struct ToolCall {
    pub id: Vec<u8>,
    pub name: Vec<u8>,
    pub arguments: Vec<u8>,
}

/// The result of a tool invocation, echoed back to the model.
#[derive(Debug, Clone, PartialEq, Eq)]
pub struct ToolResult {
    pub id: Vec<u8>,
    pub name: Vec<u8>,
    pub result: Vec<u8>,
}

/// One content block of a message.  Only `Text` blocks survive translation
/// to this backend's wire format; the other kinds are dropped (a deliberate,
/// lossy step of this adapter).
#[derive(Debug, Clone, PartialEq, Eq)]
pub enum ContentBlock {
    Text(Text),
    ToolCall(ToolCall),
    ToolResult(ToolResult),
}

/// The ghost shape of a content block.
pub ghost enum BlockView {
    Text(Seq<u8>),
    ToolCall { id: Seq<u8>, name: Seq<u8>, arguments: Seq<u8> },
    ToolResult { id: Seq<u8>, name: Seq<u8>, result: Seq<u8> },
}

impl View for ContentBlock {
    type V = BlockView;

    open spec fn view(&self) -> BlockView {
        match self {
            ContentBlock::Text(t) => BlockView::Text(t.text@),
            ContentBlock::ToolCall(c) => BlockView::ToolCall {
                id: c.id@,
                name: c.name@,
                arguments: c.arguments@,
            },
            ContentBlock::ToolResult(r) => BlockView::ToolResult {
                id: r.id@,
                name: r.name@,
                result: r.result@,
            },
        }
    }
}

/// One message of a conversation.
#[derive(Debug, Clone, PartialEq, Eq)]
pub struct RequestMessage {
    pub role: Role,
    pub content: Vec<ContentBlock>,
}

/// The ghost shape of a message.
pub ghost struct MessageView {
    pub role: Role,
    pub content: Seq<BlockView>,
}

impl View for RequestMessage {
    type V = MessageView;

    open spec fn view(&self) -> MessageView {
        MessageView { role: self.role, content: self.content@.map_values(|b: ContentBlock| b@) }
    }
}

/// A fractional sampling parameter (temperature, top_p), held in thousandths:
/// `ParamValue { thousandths: 700 }` stands for 0.7.
#[derive(Debug, Clone, Copy, PartialEq, Eq, Structural)]
pub struct ParamValue {
    pub thousandths: u32,
}

/// The canonical inference request handed to the adapter.
#[derive(Debug, Clone, PartialEq, Eq)]
pub struct ModelInferenceRequest {
    pub messages: Vec<RequestMessage>,
    pub system: Option<Vec<u8>>,
    pub temperature: Option<ParamValue>,
    pub max_tokens: Option<u32>,
    pub top_p: Option<ParamValue>,
    pub stream: bool,
    /// Opaque extra-body payload, injected into the outgoing call by the
    /// external transport; carried through untouched.
    pub extra_body: Option<Vec<u8>>,
    /// Opaque extra-headers payload, carried through untouched.
    pub extra_headers: Option<Vec<u8>>,
}

/// The ghost shape of a canonical request.
pub ghost struct RequestView {
    pub messages: Seq<MessageView>,
    pub system: Option<Seq<u8>>,
    pub temperature: Option<u32>,
    pub max_tokens: Option<u32>,
    pub top_p: Option<u32>,
    pub stream: bool,
    pub extra_body: Option<Seq<u8>>,
    pub extra_headers: Option<Seq<u8>>,
}

impl View for ModelInferenceRequest {
    type V = RequestView;

    open spec fn view(&self) -> RequestView {
        RequestView {
            messages: self.messages@.map_values(|m: RequestMessage| m@),
            system: match self.system {
                Some(s) => Some(s@),
                None => None,
            },
            temperature: match self.temperature {
                Some(p) => Some(p.thousandths),
                None => None,
            },
            max_tokens: self.max_tokens,
            top_p: match self.top_p {
                Some(p) => Some(p.thousandths),
                None => None,
            },
            stream: self.stream,
            extra_body: match self.extra_body {
                Some(b) => Some(b@),
                None => None,
            },
            extra_headers: match self.extra_headers {
                Some(h) => Some(h@),
                None => None,
            },
        }
    }
}

/// The view of an optional byte string.
pub open spec fn opt_bytes_view(o: Option<Vec<u8>>) -> Option<Seq<u8>> {
    match o {
        Some(v) => Some(v@),
        None => None,
    }
}

/// A copy of a byte vector.
pub fn clone_bytes(v: &Vec<u8>) -> (r: Vec<u8>)
    ensures
        r@ == v@,
{
    let mut copy: Vec<u8> = Vec::new();
    crate::bytes::push_bytes(&mut copy, v.as_slice());
    copy
}

/// A copy of an optional byte vector.
pub fn clone_opt_bytes(v: &Option<Vec<u8>>) -> (r: Option<Vec<u8>>)
    ensures
        opt_bytes_view(r) == opt_bytes_view(*v),
{
    match v {
        Some(b) => Some(clone_bytes(b)),
        None => None,
    }
}

/// A copy of a content block.
pub fn clone_block(b: &ContentBlock) -> (r: ContentBlock)
    ensures
        r@ == b@,
{
    match b {
        ContentBlock::Text(t) => ContentBlock::Text(Text { text: clone_bytes(&t.text) }),
        ContentBlock::ToolCall(c) => ContentBlock::ToolCall(
            ToolCall {
                id: clone_bytes(&c.id),
                name: clone_bytes(&c.name),
                arguments: clone_bytes(&c.arguments),
            },
        ),
        ContentBlock::ToolResult(t) => ContentBlock::ToolResult(
            ToolResult {
                id: clone_bytes(&t.id),
                name: clone_bytes(&t.name),
                result: clone_bytes(&t.result),
            },
        ),
    }
}

/// A copy of a message.
pub fn clone_message(m: &RequestMessage) -> (r: RequestMessage)
    ensures
        r@ == m@,
{
    let mut content: Vec<ContentBlock> = Vec::new();
    let mut i: usize = 0;
    while i < m.content.len()
        invariant
            i <= m.content@.len(),
            content@.len() == i,
            forall|j: int| 0 <= j < i ==> content@[j]@ == m.content@[j]@,
        decreases m.content@.len() - i,
    {
        content.push(clone_block(&m.content[i]));
        i += 1;
    }
    let r = RequestMessage { role: m.role, content };
    proof {
        assert(r.content@.map_values(|b: ContentBlock| b@) =~= m.content@.map_values(
            |b: ContentBlock| b@,
        ));
    }
    r
}

/// A copy of a message sequence, preserving every view.
pub fn clone_messages(v: &Vec<RequestMessage>) -> (r: Vec<RequestMessage>)
    ensures
        r@.map_values(|m: RequestMessage| m@) == v@.map_values(|m: RequestMessage| m@),
{
    let mut copy: Vec<RequestMessage> = Vec::new();
    let mut i: usize = 0;
    while i < v.len()
        invariant
            i <= v@.len(),
            copy@.len() == i,
            forall|j: int| 0 <= j < i ==> copy@[j]@ == v@[j]@,
        decreases v@.len() - i,
    {
        copy.push(clone_message(&v[i]));
        i += 1;
    }
    proof {
        assert(copy@.map_values(|m: RequestMessage| m@) =~= v@.map_values(
            |m: RequestMessage| m@,
        ));
    }
    copy
}

/// An output content block of a normalized response.
#[derive(Debug, Clone, PartialEq, Eq)]
pub enum ContentBlockOutput {
    Text(Text),
}

/// Token accounting copied from the backend's usage object.
#[derive(Debug, Clone, Copy, PartialEq, Eq, Structural)]
pub struct Usage {
    pub input_tokens: u32,
    pub output_tokens: u32,
}

/// Wall-time taken by one exchange, in milliseconds.
#[derive(Debug, Clone, Copy, PartialEq, Eq, Structural)]
pub enum Latency {
    NonStreaming { response_time_ms: u64 },
    Streaming { ttft_ms: u64, response_time_ms: u64 },
}

/// Why the backend stopped generating.  This adapter does not interpret the
/// backend's stop signal and always reports `Stop`.
#[derive(Debug, Clone, Copy, PartialEq, Eq, Structural)]
pub enum FinishReason {
    Stop,
    Length,
    ToolCall,
    ContentFilter,
    Unknown,
}

/// The canonical, normalized result of one successful inference call.
#[derive(Debug, PartialEq, Eq)]
pub struct ProviderInferenceResponse {
    /// Freshly generated unique id, independent of the backend's reply.
    pub id: Vec<u8>,
    /// Wall-clock seconds since the Unix epoch, taken when the response was
    /// normalized.
    pub created: u64,
    pub output: Vec<ContentBlockOutput>,
    pub system: Option<Vec<u8>>,
    pub input_messages: Vec<RequestMessage>,
    /// The serialized outgoing request, verbatim.
    pub raw_request: Vec<u8>,
    /// The backend's response body, verbatim.
    pub raw_response: Vec<u8>,
    pub usage: Usage,
    pub latency: Latency,
    pub finish_reason: Option<FinishReason>,
}

} // verus!
