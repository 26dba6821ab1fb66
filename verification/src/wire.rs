//! The backend's success wire schema and its decoder.
//!
//! The schema is `{"choices":[{"message":{"content": string|null}}, ...],
//! "usage":{"prompt_tokens": int, "completion_tokens": int}}`.  The decoder
//! accepts any JSON object of that shape — members in any order, unknown
//! members skipped, surrounding whitespace and the standard string escapes
//! allowed — and rejects everything else, including duplicate members and
//! trailing input, as a schema mismatch.  Unknown members are skipped with
//! structural checks only; their number tokens are not held to the full
//! number grammar.  Content bytes at or above 0x20 pass through unchanged
//! and are not themselves held to UTF-8 shape: a body that arrived as text
//! is already valid UTF-8, and decoded contents then are too.
//!
//! The whole grammar is stated twice: once as spec functions ([`wire_spec`]
//! and its parts), once as executable code proved equal to them, so that
//! callers' contracts can speak of what a given body decodes to.  In the
//! spec functions, every recursion at a computed position is guarded by a
//! bounds test (`start < end <= len`); decoded pieces always satisfy it, so
//! the guards only make termination plain.

use vstd::prelude::*;

use crate::bytes::{digits_val, slice_eq};
use vstd::string::StringSliceAdditionalSpecFns;

verus! {

/// The `message` object of one choice.
#[derive(Debug, PartialEq, Eq)]
pub struct NimMessage {
    pub content: Option<Vec<u8>>,
}

/// One element of the `choices` array.
#[derive(Debug, PartialEq, Eq)]
pub struct NimChoice {
    pub message: NimMessage,
}

/// The `usage` object.
#[derive(Debug, Clone, Copy, PartialEq, Eq, Structural)]
pub struct NimUsage {
    pub prompt_tokens: u32,
    pub completion_tokens: u32,
}

/// A decoded success response.
#[derive(Debug, PartialEq, Eq)]
pub struct NimResponse {
    pub choices: Vec<NimChoice>,
    pub usage: NimUsage,
}

/// The content of each choice, in order.
pub open spec fn choice_views(cs: Seq<NimChoice>) -> Seq<Option<Seq<u8>>> {
    cs.map_values(
        |c: NimChoice|
            match c.message.content {
                Some(v) => Some(v@),
                None => None,
            },
    )
}

/// Whether a byte is JSON whitespace.
pub open spec fn spec_is_ws(b: u8) -> bool {
    b == 0x20 || b == 0x09 || b == 0x0a || b == 0x0d
}

/// The index after the run of whitespace at `i`.
pub open spec fn ws_end(s: Seq<u8>, i: int) -> int
    decreases s.len() - i,
{
    if 0 <= i < s.len() && spec_is_ws(s[i]) {
        ws_end(s, i + 1)
    } else {
        i
    }
}

/// The index after the bytes of `w` at `i`, when exactly they stand there.
pub open spec fn lit_end(s: Seq<u8>, i: int, w: Seq<u8>) -> Option<int> {
    if w.len() > 0 && 0 <= i && i + w.len() <= s.len() && s.subrange(i, i + w.len()) == w {
        Some(i + w.len())
    } else {
        None
    }
}

/// The value of one hex digit, or -1.
pub open spec fn hex_val(b: u8) -> int {
    if 0x30 <= b && b <= 0x39 {
        b - 0x30
    } else if 0x61 <= b && b <= 0x66 {
        b - 0x57
    } else if 0x41 <= b && b <= 0x46 {
        b - 0x37
    } else {
        -1
    }
}

/// The scalar written by four hex digits at `i`.
pub open spec fn hex4_val(s: Seq<u8>, i: int) -> Option<u32> {
    if 0 <= i && i + 4 <= s.len() && hex_val(s[i]) >= 0 && hex_val(s[i + 1]) >= 0 && hex_val(
        s[i + 2],
    ) >= 0 && hex_val(s[i + 3]) >= 0 {
        Some(
            (hex_val(s[i]) * 0x1000 + hex_val(s[i + 1]) * 0x100 + hex_val(s[i + 2]) * 0x10
                + hex_val(s[i + 3])) as u32,
        )
    } else {
        None
    }
}

/// The UTF-8 encoding of a scalar value.
pub open spec fn utf8_bytes(cp: u32) -> Seq<u8> {
    if cp < 0x80 {
        seq![cp as u8]
    } else if cp < 0x800 {
        seq![(0xc0 + cp / 0x40) as u8, (0x80 + cp % 0x40) as u8]
    } else if cp < 0x10000 {
        seq![(0xe0 + cp / 0x1000) as u8, (0x80 + cp / 0x40 % 0x40) as u8, (0x80 + cp % 0x40) as u8]
    } else {
        seq![
            (0xf0 + cp / 0x40000) as u8,
            (0x80 + cp / 0x1000 % 0x40) as u8,
            (0x80 + cp / 0x40 % 0x40) as u8,
            (0x80 + cp % 0x40) as u8,
        ]
    }
}

/// Prepends a decoded piece to the content of a string remainder.
pub open spec fn prepend(piece: Seq<u8>, rest: Option<(Seq<u8>, int)>) -> Option<(Seq<u8>, int)> {
    match rest {
        Some(p) => Some((piece + p.0, p.1)),
        None => None,
    }
}

/// The decoded remainder of a JSON string from `j` (just after the opening
/// quote): the unescaped content and the index after the closing quote.
pub open spec fn string_rest(s: Seq<u8>, j: int) -> Option<(Seq<u8>, int)>
    decreases s.len() - j,
{
    if !(0 <= j < s.len()) {
        None
    } else if s[j] == 0x22 {
        Some((Seq::<u8>::empty(), j + 1))
    } else if s[j] == 0x5c {
        if j + 2 > s.len() {
            None
        } else {
            let e = s[j + 1];
            if e == 0x22 || e == 0x5c || e == 0x2f {
                prepend(seq![e], string_rest(s, j + 2))
            } else if e == 0x62 {
                prepend(seq![0x08u8], string_rest(s, j + 2))
            } else if e == 0x66 {
                prepend(seq![0x0cu8], string_rest(s, j + 2))
            } else if e == 0x6e {
                prepend(seq![0x0au8], string_rest(s, j + 2))
            } else if e == 0x72 {
                prepend(seq![0x0du8], string_rest(s, j + 2))
            } else if e == 0x74 {
                prepend(seq![0x09u8], string_rest(s, j + 2))
            } else if e == 0x75 {
                match hex4_val(s, j + 2) {
                    Some(v1) => if 0xd800 <= v1 && v1 < 0xdc00 {
                        // A high surrogate must pair with a following `\u`
                        // low surrogate to form one scalar value.
                        if j + 8 <= s.len() && s[j + 6] == 0x5c && s[j + 7] == 0x75 {
                            match hex4_val(s, j + 8) {
                                Some(v2) => if 0xdc00 <= v2 && v2 < 0xe000 {
                                    prepend(
                                        utf8_bytes(
                                            (0x10000 + (v1 - 0xd800) * 0x400 + (v2
                                                - 0xdc00)) as u32,
                                        ),
                                        string_rest(s, j + 12),
                                    )
                                } else {
                                    None
                                },
                                None => None,
                            }
                        } else {
                            None
                        }
                    } else if 0xdc00 <= v1 && v1 < 0xe000 {
                        None
                    } else {
                        prepend(utf8_bytes(v1), string_rest(s, j + 6))
                    },
                    None => None,
                }
            } else {
                None
            }
        }
    } else if s[j] < 0x20 {
        None
    } else {
        prepend(seq![s[j]], string_rest(s, j + 1))
    }
}

/// A decoded JSON string at `i`: its content and the index after it.
pub open spec fn string_at(s: Seq<u8>, i: int) -> Option<(Seq<u8>, int)> {
    if 0 <= i < s.len() && s[i] == 0x22 {
        string_rest(s, i + 1)
    } else {
        None
    }
}

/// The index after a number token's tail characters.
pub open spec fn numtail_end(s: Seq<u8>, j: int) -> int
    decreases s.len() - j,
{
    if 0 <= j < s.len() && (s[j] == 0x2b || s[j] == 0x2d || s[j] == 0x2e || s[j] == 0x45 || s[j]
        == 0x65 || (0x30 <= s[j] && s[j] <= 0x39)) {
        numtail_end(s, j + 1)
    } else {
        j
    }
}

/// The index after one skipped JSON value at `i`.
pub open spec fn value_end(s: Seq<u8>, i: int) -> Option<int>
    decreases s.len() - i, 0int,
{
    if !(0 <= i < s.len()) {
        None
    } else {
        let b = s[i];
        if b == 0x22 {
            match string_at(s, i) {
                Some(p) => Some(p.1),
                None => None,
            }
        } else if b == 0x7b {
            let cur = ws_end(s, i + 1);
            if i < cur < s.len() && s[cur] == 0x7d {
                Some(cur + 1)
            } else if !(i < cur && cur <= s.len()) {
                None
            } else {
                obj_rest(s, cur)
            }
        } else if b == 0x5b {
            let cur = ws_end(s, i + 1);
            if i < cur < s.len() && s[cur] == 0x5d {
                Some(cur + 1)
            } else if !(i < cur && cur <= s.len()) {
                None
            } else {
                arr_rest(s, cur)
            }
        } else if b == 0x74 {
            lit_end(s, i, "true".spec_bytes())
        } else if b == 0x66 {
            lit_end(s, i, "false".spec_bytes())
        } else if b == 0x6e {
            lit_end(s, i, "null".spec_bytes())
        } else if b == 0x2d || (0x30 <= b && b <= 0x39) {
            Some(numtail_end(s, i + 1))
        } else {
            None
        }
    }
}

/// The remainder of a skipped object from its first member at `cur`.
pub open spec fn obj_rest(s: Seq<u8>, cur: int) -> Option<int>
    decreases s.len() - cur, 1int,
{
    match string_at(s, cur) {
        Some(key) => {
            let k = ws_end(s, key.1);
            if !(cur < k < s.len() && s[k] == 0x3a) {
                None
            } else {
                let k2 = ws_end(s, k + 1);
                if !(k < k2 && k2 <= s.len()) {
                    None
                } else {
                    match value_end(s, k2) {
                        Some(av) => {
                            let t = ws_end(s, av);
                            if !(cur < t < s.len()) {
                                None
                            } else if s[t] == 0x7d {
                                Some(t + 1)
                            } else if s[t] != 0x2c {
                                None
                            } else {
                                let next = ws_end(s, t + 1);
                                if !(cur < next && next <= s.len()) {
                                    None
                                } else {
                                    obj_rest(s, next)
                                }
                            }
                        },
                        None => None,
                    }
                }
            }
        },
        None => None,
    }
}

/// The remainder of a skipped array from its first element at `cur`.
pub open spec fn arr_rest(s: Seq<u8>, cur: int) -> Option<int>
    decreases s.len() - cur, 1int,
{
    if !(0 <= cur < s.len()) {
        None
    } else {
        match value_end(s, cur) {
            Some(av) => {
                let t = ws_end(s, av);
                if !(cur < t < s.len()) {
                    None
                } else if s[t] == 0x5d {
                    Some(t + 1)
                } else if s[t] != 0x2c {
                    None
                } else {
                    let next = ws_end(s, t + 1);
                    if !(cur < next && next <= s.len()) {
                        None
                    } else {
                        arr_rest(s, next)
                    }
                }
            },
            None => None,
        }
    }
}

/// The index after the digit run at `j`.
pub open spec fn digits_end(s: Seq<u8>, j: int) -> int
    decreases s.len() - j,
{
    if 0 <= j < s.len() && 0x30 <= s[j] && s[j] <= 0x39 {
        digits_end(s, j + 1)
    } else {
        j
    }
}

/// A decoded `u32` at `i`: the maximal digit run there, without a spare
/// leading zero, valued within `u32`, and not continuing as a fraction or
/// exponent.
pub open spec fn u32_at(s: Seq<u8>, i: int) -> Option<(u32, int)> {
    let e = digits_end(s, i);
    if !(0 <= i < s.len() && 0x30 <= s[i] && s[i] <= 0x39) {
        None
    } else if s[i] == 0x30 && i + 1 < s.len() && 0x30 <= s[i + 1] && s[i + 1] <= 0x39 {
        None
    } else if digits_val(s.subrange(i, e)) > 0xffff_ffff {
        None
    } else if e < s.len() && (s[e] == 0x2e || s[e] == 0x45 || s[e] == 0x65) {
        None
    } else {
        Some((digits_val(s.subrange(i, e)) as u32, e))
    }
}

/// The decoded `message` object members from `cur`, carrying the content
/// seen so far: yields the content (an absent member counts as null) and the
/// index after the closing brace.
pub open spec fn message_members(
    s: Seq<u8>,
    cur: int,
    content: Option<Option<Seq<u8>>>,
) -> Option<(Option<Seq<u8>>, int)>
    decreases s.len() - cur,
{
    match string_at(s, cur) {
        Some(key) => {
            let k = ws_end(s, key.1);
            if !(cur < k < s.len() && s[k] == 0x3a) {
                None
            } else {
                let k2 = ws_end(s, k + 1);
                if !(k < k2 && k2 <= s.len()) {
                    None
                } else {
                    let decoded: Option<(Option<Option<Seq<u8>>>, int)> = if key.0
                        == "content".spec_bytes() {
                        if content is Some {
                            None
                        } else if k2 < s.len() && s[k2] == 0x22 {
                            match string_at(s, k2) {
                                Some(text) => Some((Some(Some(text.0)), text.1)),
                                None => None,
                            }
                        } else {
                            match lit_end(s, k2, "null".spec_bytes()) {
                                Some(e) => Some((Some(None), e)),
                                None => None,
                            }
                        }
                    } else {
                        match value_end(s, k2) {
                            Some(e) => Some((content, e)),
                            None => None,
                        }
                    };
                    match decoded {
                        Some(d) => {
                            let t = ws_end(s, d.1);
                            if !(cur < t < s.len()) {
                                None
                            } else if s[t] == 0x7d {
                                Some(
                                    (
                                        match d.0 {
                                            Some(c) => c,
                                            None => None,
                                        },
                                        t + 1,
                                    ),
                                )
                            } else if s[t] != 0x2c {
                                None
                            } else {
                                let next = ws_end(s, t + 1);
                                if !(cur < next && next <= s.len()) {
                                    None
                                } else {
                                    message_members(s, next, d.0)
                                }
                            }
                        },
                        None => None,
                    }
                }
            }
        },
        None => None,
    }
}

/// A decoded `message` object at `i`.
pub open spec fn message_at(s: Seq<u8>, i: int) -> Option<(Option<Seq<u8>>, int)> {
    if !(0 <= i < s.len() && s[i] == 0x7b) {
        None
    } else {
        let cur = ws_end(s, i + 1);
        if i < cur < s.len() && s[cur] == 0x7d {
            Some((None, cur + 1))
        } else if !(i < cur && cur <= s.len()) {
            None
        } else {
            message_members(s, cur, None)
        }
    }
}

/// The decoded choice-object members from `cur`, carrying the message seen
/// so far; the `message` member is required.
pub open spec fn choice_members(
    s: Seq<u8>,
    cur: int,
    message: Option<Option<Seq<u8>>>,
) -> Option<(Option<Seq<u8>>, int)>
    decreases s.len() - cur,
{
    match string_at(s, cur) {
        Some(key) => {
            let k = ws_end(s, key.1);
            if !(cur < k < s.len() && s[k] == 0x3a) {
                None
            } else {
                let k2 = ws_end(s, k + 1);
                if !(k < k2 && k2 <= s.len()) {
                    None
                } else {
                    let decoded: Option<(Option<Option<Seq<u8>>>, int)> = if key.0
                        == "message".spec_bytes() {
                        if message is Some {
                            None
                        } else {
                            match message_at(s, k2) {
                                Some(m) => Some((Some(m.0), m.1)),
                                None => None,
                            }
                        }
                    } else {
                        match value_end(s, k2) {
                            Some(e) => Some((message, e)),
                            None => None,
                        }
                    };
                    match decoded {
                        Some(d) => {
                            let t = ws_end(s, d.1);
                            if !(cur < t < s.len()) {
                                None
                            } else if s[t] == 0x7d {
                                match d.0 {
                                    Some(m) => Some((m, t + 1)),
                                    None => None,
                                }
                            } else if s[t] != 0x2c {
                                None
                            } else {
                                let next = ws_end(s, t + 1);
                                if !(cur < next && next <= s.len()) {
                                    None
                                } else {
                                    choice_members(s, next, d.0)
                                }
                            }
                        },
                        None => None,
                    }
                }
            }
        },
        None => None,
    }
}

/// A decoded choice object at `i`: its message content and end.
pub open spec fn choice_at(s: Seq<u8>, i: int) -> Option<(Option<Seq<u8>>, int)> {
    if !(0 <= i < s.len() && s[i] == 0x7b) {
        None
    } else {
        let cur = ws_end(s, i + 1);
        if i < cur < s.len() && s[cur] == 0x7d {
            // The `message` member is required.
            None
        } else if !(i < cur && cur <= s.len()) {
            None
        } else {
            choice_members(s, cur, None)
        }
    }
}

/// The decoded elements of the `choices` array from `cur`, appended to the
/// contents decoded so far.
pub open spec fn choices_items(s: Seq<u8>, cur: int, acc: Seq<Option<Seq<u8>>>) -> Option<
    (Seq<Option<Seq<u8>>>, int),
>
    decreases s.len() - cur,
{
    match choice_at(s, cur) {
        Some(c) => {
            let t = ws_end(s, c.1);
            if !(cur < t < s.len()) {
                None
            } else if s[t] == 0x5d {
                Some((acc.push(c.0), t + 1))
            } else if s[t] != 0x2c {
                None
            } else {
                let next = ws_end(s, t + 1);
                if !(cur < next && next <= s.len()) {
                    None
                } else {
                    choices_items(s, next, acc.push(c.0))
                }
            }
        },
        None => None,
    }
}

/// A decoded `choices` array at `i`: the choice contents in order, and the
/// index after the closing bracket.
pub open spec fn choices_at(s: Seq<u8>, i: int) -> Option<(Seq<Option<Seq<u8>>>, int)> {
    if !(0 <= i < s.len() && s[i] == 0x5b) {
        None
    } else {
        let cur = ws_end(s, i + 1);
        if i < cur < s.len() && s[cur] == 0x5d {
            Some((Seq::<Option<Seq<u8>>>::empty(), cur + 1))
        } else if !(i < cur && cur <= s.len()) {
            None
        } else {
            choices_items(s, cur, Seq::<Option<Seq<u8>>>::empty())
        }
    }
}

/// The decoded `usage` object members from `cur`, carrying the counts seen
/// so far; both counts are required.
pub open spec fn usage_members(s: Seq<u8>, cur: int, pt: Option<u32>, ct: Option<u32>) -> Option<
    (NimUsage, int),
>
    decreases s.len() - cur,
{
    match string_at(s, cur) {
        Some(key) => {
            let k = ws_end(s, key.1);
            if !(cur < k < s.len() && s[k] == 0x3a) {
                None
            } else {
                let k2 = ws_end(s, k + 1);
                if !(k < k2 && k2 <= s.len()) {
                    None
                } else {
                    let decoded: Option<(Option<u32>, Option<u32>, int)> = if key.0
                        == "prompt_tokens".spec_bytes() {
                        if pt is Some {
                            None
                        } else {
                            match u32_at(s, k2) {
                                Some(v) => Some((Some(v.0), ct, v.1)),
                                None => None,
                            }
                        }
                    } else if key.0 == "completion_tokens".spec_bytes() {
                        if ct is Some {
                            None
                        } else {
                            match u32_at(s, k2) {
                                Some(v) => Some((pt, Some(v.0), v.1)),
                                None => None,
                            }
                        }
                    } else {
                        match value_end(s, k2) {
                            Some(e) => Some((pt, ct, e)),
                            None => None,
                        }
                    };
                    match decoded {
                        Some(d) => {
                            let t = ws_end(s, d.2);
                            if !(cur < t < s.len()) {
                                None
                            } else if s[t] == 0x7d {
                                match (d.0, d.1) {
                                    (Some(p), Some(c)) => Some(
                                        ((NimUsage { prompt_tokens: p, completion_tokens: c }), t
                                            + 1),
                                    ),
                                    _ => None,
                                }
                            } else if s[t] != 0x2c {
                                None
                            } else {
                                let next = ws_end(s, t + 1);
                                if !(cur < next && next <= s.len()) {
                                    None
                                } else {
                                    usage_members(s, next, d.0, d.1)
                                }
                            }
                        },
                        None => None,
                    }
                }
            }
        },
        None => None,
    }
}

/// A decoded `usage` object at `i`.
pub open spec fn usage_at(s: Seq<u8>, i: int) -> Option<(NimUsage, int)> {
    if !(0 <= i < s.len() && s[i] == 0x7b) {
        None
    } else {
        let cur = ws_end(s, i + 1);
        if i < cur < s.len() && s[cur] == 0x7d {
            None
        } else if !(i < cur && cur <= s.len()) {
            None
        } else {
            usage_members(s, cur, None, None)
        }
    }
}

/// The decoded top-level members from `cur`, carrying what was seen so far;
/// `choices` and `usage` are both required, and nothing but whitespace may
/// follow the closing brace.
pub open spec fn wire_members(
    s: Seq<u8>,
    cur: int,
    choices: Option<Seq<Option<Seq<u8>>>>,
    usage: Option<NimUsage>,
) -> Option<(Seq<Option<Seq<u8>>>, NimUsage)>
    decreases s.len() - cur,
{
    match string_at(s, cur) {
        Some(key) => {
            let k = ws_end(s, key.1);
            if !(cur < k < s.len() && s[k] == 0x3a) {
                None
            } else {
                let k2 = ws_end(s, k + 1);
                if !(k < k2 && k2 <= s.len()) {
                    None
                } else {
                    let decoded: Option<(Option<Seq<Option<Seq<u8>>>>, Option<NimUsage>, int)> =
                        if key.0 == "choices".spec_bytes() {
                        if choices is Some {
                            None
                        } else {
                            match choices_at(s, k2) {
                                Some(c) => Some((Some(c.0), usage, c.1)),
                                None => None,
                            }
                        }
                    } else if key.0 == "usage".spec_bytes() {
                        if usage is Some {
                            None
                        } else {
                            match usage_at(s, k2) {
                                Some(u) => Some((choices, Some(u.0), u.1)),
                                None => None,
                            }
                        }
                    } else {
                        match value_end(s, k2) {
                            Some(e) => Some((choices, usage, e)),
                            None => None,
                        }
                    };
                    match decoded {
                        Some(d) => {
                            let t = ws_end(s, d.2);
                            if !(cur < t < s.len()) {
                                None
                            } else if s[t] == 0x7d {
                                if ws_end(s, t + 1) != s.len() {
                                    None
                                } else {
                                    match (d.0, d.1) {
                                        (Some(cs), Some(u)) => Some((cs, u)),
                                        _ => None,
                                    }
                                }
                            } else if s[t] != 0x2c {
                                None
                            } else {
                                let next = ws_end(s, t + 1);
                                if !(cur < next && next <= s.len()) {
                                    None
                                } else {
                                    wire_members(s, next, d.0, d.1)
                                }
                            }
                        },
                        None => None,
                    }
                }
            }
        },
        None => None,
    }
}

/// What a whole response body decodes to under the wire schema: the choice
/// contents in order and the usage counts, or nothing on any mismatch.
pub open spec fn wire_spec(raw: Seq<u8>) -> Option<(Seq<Option<Seq<u8>>>, NimUsage)> {
    let i = ws_end(raw, 0);
    if !(0 <= i < raw.len() && raw[i] == 0x7b) {
        None
    } else {
        let cur = ws_end(raw, i + 1);
        if i < cur < raw.len() && raw[cur] == 0x7d {
            None
        } else if !(i < cur && cur <= raw.len()) {
            None
        } else {
            wire_members(raw, cur, None, None)
        }
    }
}

/// Whether a byte is JSON whitespace.
fn is_ws(b: u8) -> (r: bool)
    ensures
        r == spec_is_ws(b),
{
    b == 0x20 || b == 0x09 || b == 0x0a || b == 0x0d
}

/// Advances past whitespace.
fn skip_ws(s: &Vec<u8>, i: usize) -> (j: usize)
    requires
        i <= s@.len(),
    ensures
        i <= j <= s@.len(),
        j == ws_end(s@, i as int),
{
    let mut j = i;
    while j < s.len() && is_ws(s[j])
        invariant
            i <= j <= s@.len(),
            ws_end(s@, i as int) == ws_end(s@, j as int),
        decreases s@.len() - j,
    {
        j += 1;
    }
    j
}

/// Matches the bytes of `w` at `i`, returning the index just past them.
fn match_lit(s: &Vec<u8>, i: usize, w: &str) -> (r: Option<usize>)
    requires
        i <= s@.len(),
    ensures
        match r {
            Some(j) => i < j <= s@.len() && lit_end(s@, i as int, w.spec_bytes()) == Some(j as int),
            None => lit_end(s@, i as int, w.spec_bytes()) is None,
        },
{
    let w_bytes = w.as_bytes();
    let n = s.len();
    if w_bytes.len() == 0 || n - i < w_bytes.len() {
        return None;
    }
    let mut k: usize = 0;
    while k < w_bytes.len()
        invariant
            k <= w_bytes@.len(),
            0 < w_bytes@.len(),
            n == s@.len(),
            w_bytes@ == w.spec_bytes(),
            i + w_bytes@.len() <= n,
            forall|m: int| 0 <= m < k ==> s@[i + m] == w_bytes@[m],
        decreases w_bytes@.len() - k,
    {
        if s[i + k] != w_bytes[k] {
            proof {
                assert(s@.subrange(i as int, i + w_bytes@.len())[k as int] != w_bytes@[k as int]);
            }
            return None;
        }
        k += 1;
    }
    proof {
        assert(s@.subrange(i as int, i + w_bytes@.len()) =~= w_bytes@);
    }
    Some(i + w_bytes.len())
}

/// The value of one hex digit byte.
fn hex_digit_val(b: u8) -> (r: Option<u8>)
    ensures
        match r {
            Some(d) => hex_val(b) == d as int,
            None => hex_val(b) < 0,
        },
{
    if 0x30 <= b && b <= 0x39 {
        Some(b - 0x30)
    } else if 0x61 <= b && b <= 0x66 {
        Some(b - 0x57)
    } else if 0x41 <= b && b <= 0x46 {
        Some(b - 0x37)
    } else {
        None
    }
}

/// Reads four hex digits as a scalar.
fn parse_hex4(s: &Vec<u8>, i: usize) -> (r: Option<(u32, usize)>)
    requires
        i <= s@.len(),
    ensures
        match r {
            Some(p) => p.1 == i + 4 && p.1 <= s@.len() && p.0 < 0x10000 && hex4_val(s@, i as int)
                == Some(p.0),
            None => hex4_val(s@, i as int) is None,
        },
{
    let n = s.len();
    if n - i < 4 {
        return None;
    }
    let d0 = match hex_digit_val(s[i]) {
        Some(d) => d,
        None => {
            return None;
        },
    };
    let d1 = match hex_digit_val(s[i + 1]) {
        Some(d) => d,
        None => {
            return None;
        },
    };
    let d2 = match hex_digit_val(s[i + 2]) {
        Some(d) => d,
        None => {
            return None;
        },
    };
    let d3 = match hex_digit_val(s[i + 3]) {
        Some(d) => d,
        None => {
            return None;
        },
    };
    let v = (d0 as u32) * 0x1000 + (d1 as u32) * 0x100 + (d2 as u32) * 0x10 + (d3 as u32);
    Some((v, i + 4))
}

/// Appends the UTF-8 encoding of a scalar value.
fn push_utf8(out: &mut Vec<u8>, cp: u32)
    requires
        cp < 0x110000,
    ensures
        final(out)@ == old(out)@ + utf8_bytes(cp),
{
    if cp < 0x80 {
        out.push(cp as u8);
        proof {
            assert(out@ =~= old(out)@ + utf8_bytes(cp));
        }
    } else if cp < 0x800 {
        out.push(0xc0 + ((cp / 0x40) as u8));
        out.push(0x80 + ((cp % 0x40) as u8));
        proof {
            assert(out@ =~= old(out)@ + utf8_bytes(cp));
        }
    } else if cp < 0x10000 {
        out.push(0xe0 + ((cp / 0x1000) as u8));
        out.push(0x80 + ((cp / 0x40 % 0x40) as u8));
        out.push(0x80 + ((cp % 0x40) as u8));
        proof {
            assert(out@ =~= old(out)@ + utf8_bytes(cp));
        }
    } else {
        out.push(0xf0 + ((cp / 0x40000) as u8));
        out.push(0x80 + ((cp / 0x1000 % 0x40) as u8));
        out.push(0x80 + ((cp / 0x40 % 0x40) as u8));
        out.push(0x80 + ((cp % 0x40) as u8));
        proof {
            assert(out@ =~= old(out)@ + utf8_bytes(cp));
        }
    }
}

/// One decoding step of a string: consuming a piece keeps the loop's
/// relation between the string's whole content and the remainder.
proof fn lemma_string_step(s: Seq<u8>, i: int, j: int, piece: Seq<u8>, adv: int, pre: Seq<u8>, post: Seq<u8>)
    requires
        string_rest(s, j) == prepend(piece, string_rest(s, j + adv)),
        post == pre + piece,
        match string_rest(s, j) {
            Some(p) => string_at(s, i) == Some((pre + p.0, p.1)),
            None => string_at(s, i) is None,
        },
    ensures
        match string_rest(s, j + adv) {
            Some(p) => string_at(s, i) == Some((post + p.0, p.1)),
            None => string_at(s, i) is None,
        },
{
    match string_rest(s, j + adv) {
        Some(p) => {
            assert(string_rest(s, j) == Some((piece + p.0, p.1)));
            assert(pre + (piece + p.0) =~= (pre + piece) + p.0);
        },
        None => {},
    }
}

/// Reads a JSON string starting at its opening quote, returning its unescaped
/// content and the index after the closing quote.
fn parse_string(s: &Vec<u8>, i: usize) -> (r: Option<(Vec<u8>, usize)>)
    requires
        i <= s@.len(),
    ensures
        match r {
            Some(p) => i < p.1 <= s@.len() && string_at(s@, i as int) == Some((p.0@, p.1 as int)),
            None => string_at(s@, i as int) is None,
        },
{
    if i >= s.len() || s[i] != 0x22 {
        return None;
    }
    let mut out: Vec<u8> = Vec::new();
    let mut j = i + 1;
    proof {
        match string_rest(s@, j as int) {
            Some(p) => {
                assert(out@ + p.0 =~= p.0);
            },
            None => {},
        }
    }
    while j < s.len()
        invariant
            i < j <= s@.len(),
            s@[i as int] == 0x22,
            i < s@.len(),
            match string_rest(s@, j as int) {
                Some(p) => string_at(s@, i as int) == Some((out@ + p.0, p.1)),
                None => string_at(s@, i as int) is None,
            },
        decreases s@.len() - j,
    {
        let ghost out_pre = out@;
        let b = s[j];
        if b == 0x22 {
            proof {
                assert(string_rest(s@, j as int) == Some((Seq::<u8>::empty(), j + 1)));
                assert(out@ + Seq::<u8>::empty() =~= out@);
            }
            return Some((out, j + 1));
        } else if b == 0x5c {
            if s.len() - j < 2 {
                return None;
            }
            let e = s[j + 1];
            if e == 0x22 || e == 0x5c || e == 0x2f {
                out.push(e);
                proof {
                    assert(out@ =~= out_pre + seq![e]);
                    lemma_string_step(s@, i as int, j as int, seq![e], 2, out_pre, out@);
                }
                j += 2;
            } else if e == 0x62 {
                out.push(0x08);
                proof {
                    assert(out@ =~= out_pre + seq![0x08u8]);
                    lemma_string_step(s@, i as int, j as int, seq![0x08u8], 2, out_pre, out@);
                }
                j += 2;
            } else if e == 0x66 {
                out.push(0x0c);
                proof {
                    assert(out@ =~= out_pre + seq![0x0cu8]);
                    lemma_string_step(s@, i as int, j as int, seq![0x0cu8], 2, out_pre, out@);
                }
                j += 2;
            } else if e == 0x6e {
                out.push(0x0a);
                proof {
                    assert(out@ =~= out_pre + seq![0x0au8]);
                    lemma_string_step(s@, i as int, j as int, seq![0x0au8], 2, out_pre, out@);
                }
                j += 2;
            } else if e == 0x72 {
                out.push(0x0d);
                proof {
                    assert(out@ =~= out_pre + seq![0x0du8]);
                    lemma_string_step(s@, i as int, j as int, seq![0x0du8], 2, out_pre, out@);
                }
                j += 2;
            } else if e == 0x74 {
                out.push(0x09);
                proof {
                    assert(out@ =~= out_pre + seq![0x09u8]);
                    lemma_string_step(s@, i as int, j as int, seq![0x09u8], 2, out_pre, out@);
                }
                j += 2;
            } else if e == 0x75 {
                let (v1, j2) = match parse_hex4(s, j + 2) {
                    Some(p) => p,
                    None => {
                        return None;
                    },
                };
                if 0xd800 <= v1 && v1 < 0xdc00 {
                    // A high surrogate must pair with a following `\u` low
                    // surrogate to form one scalar value.
                    if s.len() - j2 < 2 || s[j2] != 0x5c || s[j2 + 1] != 0x75 {
                        return None;
                    }
                    let (v2, j3) = match parse_hex4(s, j2 + 2) {
                        Some(p) => p,
                        None => {
                            return None;
                        },
                    };
                    if !(0xdc00 <= v2 && v2 < 0xe000) {
                        return None;
                    }
                    let cp: u32 = 0x10000 + (v1 - 0xd800) * 0x400 + (v2 - 0xdc00);
                    push_utf8(&mut out, cp);
                    proof {
                        assert(j2 == j + 6 && j3 == j + 12);
                        assert(cp == (0x10000 + (v1 - 0xd800) * 0x400 + (v2 - 0xdc00)) as u32);
                        lemma_string_step(s@, i as int, j as int, utf8_bytes(cp), 12, out_pre, out@);
                    }
                    j = j3;
                } else if 0xdc00 <= v1 && v1 < 0xe000 {
                    return None;
                } else {
                    push_utf8(&mut out, v1);
                    proof {
                        assert(j2 == j + 6);
                        lemma_string_step(s@, i as int, j as int, utf8_bytes(v1), 6, out_pre, out@);
                    }
                    j = j2;
                }
            } else {
                return None;
            }
        } else if b < 0x20 {
            return None;
        } else {
            out.push(b);
            proof {
                assert(out@ =~= out_pre + seq![b]);
                lemma_string_step(s@, i as int, j as int, seq![b], 1, out_pre, out@);
            }
            j += 1;
        }
    }
    None
}

/// Skips a JSON string without keeping its content.
fn skip_string(s: &Vec<u8>, i: usize) -> (r: Option<usize>)
    requires
        i <= s@.len(),
    ensures
        match r {
            Some(j) => i < j <= s@.len() && (string_at(s@, i as int) matches Some(p) && p.1 == j),
            None => string_at(s@, i as int) is None,
        },
{
    match parse_string(s, i) {
        Some((_, j)) => Some(j),
        None => None,
    }
}

/// Skips the remainder of a number token.
fn skip_number_tail(s: &Vec<u8>, i: usize) -> (j: usize)
    requires
        i <= s@.len(),
    ensures
        i <= j <= s@.len(),
        j == numtail_end(s@, i as int),
{
    let mut j = i;
    while j < s.len() && (s[j] == 0x2b || s[j] == 0x2d || s[j] == 0x2e || s[j] == 0x45 || s[j]
        == 0x65 || (0x30 <= s[j] && s[j] <= 0x39))
        invariant
            i <= j <= s@.len(),
            numtail_end(s@, i as int) == numtail_end(s@, j as int),
        decreases s@.len() - j,
    {
        j += 1;
    }
    j
}

/// Skips one JSON value of any shape.
fn skip_value(s: &Vec<u8>, i: usize) -> (r: Option<usize>)
    requires
        i <= s@.len(),
    ensures
        match r {
            Some(j) => i < j <= s@.len() && value_end(s@, i as int) == Some(j as int),
            None => value_end(s@, i as int) is None,
        },
    decreases s@.len() - i,
{
    if i >= s.len() {
        return None;
    }
    let b = s[i];
    if b == 0x22 {
        skip_string(s, i)
    } else if b == 0x7b {
        // object
        let mut cur = skip_ws(s, i + 1);
        if cur < s.len() && s[cur] == 0x7d {
            return Some(cur + 1);
        }
        loop
            invariant
                i < cur <= s@.len(),
                i < s@.len(),
                s@[i as int] == 0x7b,
                value_end(s@, i as int) == obj_rest(s@, cur as int),
            decreases s@.len() - cur,
        {
            let after_key = match skip_string(s, cur) {
                Some(j) => j,
                None => {
                    return None;
                },
            };
            let mut k = skip_ws(s, after_key);
            if k >= s.len() || s[k] != 0x3a {
                return None;
            }
            k = skip_ws(s, k + 1);
            let after_val = match skip_value(s, k) {
                Some(j) => j,
                None => {
                    return None;
                },
            };
            let t = skip_ws(s, after_val);
            if t >= s.len() {
                return None;
            }
            if s[t] == 0x7d {
                return Some(t + 1);
            }
            if s[t] != 0x2c {
                return None;
            }
            let next = skip_ws(s, t + 1);
            if next <= cur {
                return None;
            }
            cur = next;
        }
    } else if b == 0x5b {
        // array
        let mut cur = skip_ws(s, i + 1);
        if cur < s.len() && s[cur] == 0x5d {
            return Some(cur + 1);
        }
        loop
            invariant
                i < cur <= s@.len(),
                i < s@.len(),
                s@[i as int] == 0x5b,
                value_end(s@, i as int) == arr_rest(s@, cur as int),
            decreases s@.len() - cur,
        {
            let after_val = match skip_value(s, cur) {
                Some(j) => j,
                None => {
                    return None;
                },
            };
            let t = skip_ws(s, after_val);
            if t >= s.len() {
                return None;
            }
            if s[t] == 0x5d {
                return Some(t + 1);
            }
            if s[t] != 0x2c {
                return None;
            }
            let next = skip_ws(s, t + 1);
            if next <= cur {
                return None;
            }
            cur = next;
        }
    } else if b == 0x74 {
        match_lit(s, i, "true")
    } else if b == 0x66 {
        match_lit(s, i, "false")
    } else if b == 0x6e {
        match_lit(s, i, "null")
    } else if b == 0x2d || (0x30 <= b && b <= 0x39) {
        Some(skip_number_tail(s, i + 1))
    } else {
        None
    }
}

/// Reads an unsigned decimal integer that fits a `u32`.
fn parse_u32(s: &Vec<u8>, i: usize) -> (r: Option<(u32, usize)>)
    requires
        i <= s@.len(),
    ensures
        match r {
            Some(p) => i < p.1 <= s@.len() && u32_at(s@, i as int) == Some((p.0, p.1 as int)),
            None => u32_at(s@, i as int) is None,
        },
{
    if i >= s.len() || !(0x30 <= s[i] && s[i] <= 0x39) {
        return None;
    }
    // A leading zero stands alone in a JSON number.
    if s[i] == 0x30 && i + 1 < s.len() && 0x30 <= s[i + 1] && s[i + 1] <= 0x39 {
        return None;
    }
    let mut v: u32 = 0;
    let mut j = i;
    proof {
        assert(s@.subrange(i as int, i as int) =~= Seq::<u8>::empty());
    }
    while j < s.len() && 0x30 <= s[j] && s[j] <= 0x39
        invariant
            i <= j <= s@.len(),
            digits_end(s@, i as int) == digits_end(s@, j as int),
            forall|m: int| i <= m < j ==> 0x30 <= #[trigger] s@[m] <= 0x39,
            v == digits_val(s@.subrange(i as int, j as int)),
        decreases s@.len() - j,
    {
        let d = (s[j] - 0x30) as u32;
        if v > (0xffff_ffffu32 - d) / 10 {
            proof {
                assert(digits_end(s@, j as int) == digits_end(s@, j + 1));
                lemma_digit_run(s@, i as int, j + 1);
                assert(s@.subrange(i as int, j + 1).drop_last() =~= s@.subrange(i as int, j as int));
                assert(s@.subrange(i as int, j + 1).last() == s@[j as int]);
                assert(digits_val(s@.subrange(i as int, j + 1)) > 0xffff_ffff);
                lemma_digits_val_prefix(s@, i as int, j + 1, digits_end(s@, i as int));
            }
            return None;
        }
        v = v * 10 + d;
        j += 1;
        proof {
            assert(s@.subrange(i as int, j as int).drop_last() =~= s@.subrange(i as int, j - 1));
            assert(s@.subrange(i as int, j as int).last() == s@[j - 1]);
        }
    }
    // A number token that continues as a fraction or exponent is not an
    // integer.
    if j < s.len() && (s[j] == 0x2e || s[j] == 0x45 || s[j] == 0x65) {
        return None;
    }
    Some((v, j))
}

/// Every index of `[i, digits_end(s, i))` holds a digit, and the run ends
/// where no digit follows.
proof fn lemma_digit_run(s: Seq<u8>, i: int, j: int)
    requires
        0 <= i <= j,
        digits_end(s, i) == digits_end(s, j),
        forall|m: int| i <= m < j ==> 0x30 <= #[trigger] s[m] <= 0x39,
    ensures
        j <= digits_end(s, i),
        digits_end(s, i) <= s.len() || digits_end(s, i) == j,
        forall|m: int| i <= m < digits_end(s, i) ==> 0x30 <= #[trigger] s[m] <= 0x39,
    decreases s.len() - j,
{
    if 0 <= j < s.len() && 0x30 <= s[j] && s[j] <= 0x39 {
        lemma_digit_run(s, i, j + 1);
    }
}

/// The value of a digit-run prefix never exceeds the whole run's value.
proof fn lemma_digits_val_prefix(s: Seq<u8>, i: int, k: int, e: int)
    requires
        0 <= i <= k <= e <= s.len(),
        forall|m: int| i <= m < e ==> 0x30 <= #[trigger] s[m] <= 0x39,
    ensures
        digits_val(s.subrange(i, k)) <= digits_val(s.subrange(i, e)),
    decreases e - k,
{
    if k < e {
        assert(s.subrange(i, k + 1).drop_last() =~= s.subrange(i, k));
        assert(s.subrange(i, k + 1).last() == s[k]);
        assert(digits_val(s.subrange(i, k + 1)) == digits_val(s.subrange(i, k)) * 10 + (s[k]
            - 0x30));
        lemma_digits_val_prefix(s, i, k + 1, e);
    }
}

/// Reads the `message` object of a choice.
fn parse_message(s: &Vec<u8>, i: usize) -> (r: Option<(NimMessage, usize)>)
    requires
        i <= s@.len(),
    ensures
        match r {
            Some(p) => i < p.1 <= s@.len() && message_at(s@, i as int) == Some(
                (crate::types::opt_bytes_view(p.0.content), p.1 as int),
            ),
            None => message_at(s@, i as int) is None,
        },
{
    if i >= s.len() || s[i] != 0x7b {
        return None;
    }
    let mut content: Option<Option<Vec<u8>>> = None;
    let mut cur = skip_ws(s, i + 1);
    if cur < s.len() && s[cur] == 0x7d {
        return Some((NimMessage { content: None }, cur + 1));
    }
    loop
        invariant
            i < cur <= s@.len(),
            i < s@.len(),
            s@[i as int] == 0x7b,
            message_at(s@, i as int) == message_members(s@, cur as int, oo_view(content)),
        decreases s@.len() - cur,
    {
        let ghost state = oo_view(content);
        let (key, after_key) = match parse_string(s, cur) {
            Some(p) => p,
            None => {
                return None;
            },
        };
        let mut k = skip_ws(s, after_key);
        if k >= s.len() || s[k] != 0x3a {
            return None;
        }
        k = skip_ws(s, k + 1);
        let after_val: usize;
        if slice_eq(key.as_slice(), "content".as_bytes()) {
            if content.is_some() {
                return None;
            }
            if k < s.len() && s[k] == 0x22 {
                let (text, j) = match parse_string(s, k) {
                    Some(p) => p,
                    None => {
                        return None;
                    },
                };
                content = Some(Some(text));
                after_val = j;
            } else {
                match match_lit(s, k, "null") {
                    Some(j) => {
                        content = Some(None);
                        after_val = j;
                    },
                    None => {
                        return None;
                    },
                }
            }
        } else {
            after_val = match skip_value(s, k) {
                Some(j) => j,
                None => {
                    return None;
                },
            };
        }
        let t = skip_ws(s, after_val);
        if t >= s.len() {
            return None;
        }
        if s[t] == 0x7d {
            let found = match content {
                Some(c) => c,
                None => None,
            };
            return Some((NimMessage { content: found }, t + 1));
        }
        if s[t] != 0x2c {
            return None;
        }
        let next = skip_ws(s, t + 1);
        if next <= cur {
            return None;
        }
        cur = next;
    }
}

/// The view of the decoder's member state for an optional byte string.
pub open spec fn oo_view(c: Option<Option<Vec<u8>>>) -> Option<Option<Seq<u8>>> {
    match c {
        Some(inner) => Some(crate::types::opt_bytes_view(inner)),
        None => None,
    }
}

/// Reads one element of the `choices` array.
fn parse_choice(s: &Vec<u8>, i: usize) -> (r: Option<(NimChoice, usize)>)
    requires
        i <= s@.len(),
    ensures
        match r {
            Some(p) => i < p.1 <= s@.len() && choice_at(s@, i as int) == Some(
                (crate::types::opt_bytes_view(p.0.message.content), p.1 as int),
            ),
            None => choice_at(s@, i as int) is None,
        },
{
    if i >= s.len() || s[i] != 0x7b {
        return None;
    }
    let mut message: Option<NimMessage> = None;
    let mut cur = skip_ws(s, i + 1);
    if cur < s.len() && s[cur] == 0x7d {
        // The `message` member is required.
        return None;
    }
    loop
        invariant
            i < cur <= s@.len(),
            i < s@.len(),
            s@[i as int] == 0x7b,
            choice_at(s@, i as int) == choice_members(s@, cur as int, msg_view(message)),
        decreases s@.len() - cur,
    {
        let (key, after_key) = match parse_string(s, cur) {
            Some(p) => p,
            None => {
                return None;
            },
        };
        let mut k = skip_ws(s, after_key);
        if k >= s.len() || s[k] != 0x3a {
            return None;
        }
        k = skip_ws(s, k + 1);
        let after_val: usize;
        if slice_eq(key.as_slice(), "message".as_bytes()) {
            if message.is_some() {
                return None;
            }
            let (m, j) = match parse_message(s, k) {
                Some(p) => p,
                None => {
                    return None;
                },
            };
            message = Some(m);
            after_val = j;
        } else {
            after_val = match skip_value(s, k) {
                Some(j) => j,
                None => {
                    return None;
                },
            };
        }
        let t = skip_ws(s, after_val);
        if t >= s.len() {
            return None;
        }
        if s[t] == 0x7d {
            match message {
                Some(m) => {
                    return Some((NimChoice { message: m }, t + 1));
                },
                None => {
                    return None;
                },
            }
        }
        if s[t] != 0x2c {
            return None;
        }
        let next = skip_ws(s, t + 1);
        if next <= cur {
            return None;
        }
        cur = next;
    }
}

/// The view of the decoder's member state for a found message.
pub open spec fn msg_view(m: Option<NimMessage>) -> Option<Option<Seq<u8>>> {
    match m {
        Some(inner) => Some(crate::types::opt_bytes_view(inner.content)),
        None => None,
    }
}

/// Reads the `choices` array.
#[verifier::rlimit(100)]
fn parse_choices(s: &Vec<u8>, i: usize) -> (r: Option<(Vec<NimChoice>, usize)>)
    requires
        i <= s@.len(),
    ensures
        match r {
            Some(p) => i < p.1 <= s@.len() && choices_at(s@, i as int) == Some(
                (choice_views(p.0@), p.1 as int),
            ),
            None => choices_at(s@, i as int) is None,
        },
{
    if i >= s.len() || s[i] != 0x5b {
        return None;
    }
    let mut choices: Vec<NimChoice> = Vec::new();
    let mut cur = skip_ws(s, i + 1);
    if cur < s.len() && s[cur] == 0x5d {
        proof {
            assert(choice_views(choices@) =~= Seq::<Option<Seq<u8>>>::empty());
        }
        return Some((choices, cur + 1));
    }
    proof {
        assert(choice_views(choices@) =~= Seq::<Option<Seq<u8>>>::empty());
    }
    loop
        invariant
            i < cur <= s@.len(),
            i < s@.len(),
            s@[i as int] == 0x5b,
            choices_at(s@, i as int) == choices_items(s@, cur as int, choice_views(choices@)),
        decreases s@.len() - cur,
    {
        let ghost acc = choice_views(choices@);
        let (c, after_val) = match parse_choice(s, cur) {
            Some(p) => p,
            None => {
                return None;
            },
        };
        let ghost cv = crate::types::opt_bytes_view(c.message.content);
        choices.push(c);
        proof {
            assert(choice_views(choices@) =~= acc.push(cv));
        }
        let t = skip_ws(s, after_val);
        if t >= s.len() {
            return None;
        }
        if s[t] == 0x5d {
            return Some((choices, t + 1));
        }
        if s[t] != 0x2c {
            return None;
        }
        let next = skip_ws(s, t + 1);
        if next <= cur {
            return None;
        }
        cur = next;
    }
}

/// Reads the `usage` object; both token counts are required.
fn parse_usage(s: &Vec<u8>, i: usize) -> (r: Option<(NimUsage, usize)>)
    requires
        i <= s@.len(),
    ensures
        match r {
            Some(p) => i < p.1 <= s@.len() && usage_at(s@, i as int) == Some((p.0, p.1 as int)),
            None => usage_at(s@, i as int) is None,
        },
{
    if i >= s.len() || s[i] != 0x7b {
        return None;
    }
    let mut prompt_tokens: Option<u32> = None;
    let mut completion_tokens: Option<u32> = None;
    let mut cur = skip_ws(s, i + 1);
    if cur < s.len() && s[cur] == 0x7d {
        return None;
    }
    loop
        invariant
            i < cur <= s@.len(),
            i < s@.len(),
            s@[i as int] == 0x7b,
            usage_at(s@, i as int) == usage_members(
                s@,
                cur as int,
                prompt_tokens,
                completion_tokens,
            ),
        decreases s@.len() - cur,
    {
        let (key, after_key) = match parse_string(s, cur) {
            Some(p) => p,
            None => {
                return None;
            },
        };
        let mut k = skip_ws(s, after_key);
        if k >= s.len() || s[k] != 0x3a {
            return None;
        }
        k = skip_ws(s, k + 1);
        let after_val: usize;
        if slice_eq(key.as_slice(), "prompt_tokens".as_bytes()) {
            if prompt_tokens.is_some() {
                return None;
            }
            let (v, j) = match parse_u32(s, k) {
                Some(p) => p,
                None => {
                    return None;
                },
            };
            prompt_tokens = Some(v);
            after_val = j;
        } else if slice_eq(key.as_slice(), "completion_tokens".as_bytes()) {
            if completion_tokens.is_some() {
                return None;
            }
            let (v, j) = match parse_u32(s, k) {
                Some(p) => p,
                None => {
                    return None;
                },
            };
            completion_tokens = Some(v);
            after_val = j;
        } else {
            after_val = match skip_value(s, k) {
                Some(j) => j,
                None => {
                    return None;
                },
            };
        }
        let t = skip_ws(s, after_val);
        if t >= s.len() {
            return None;
        }
        if s[t] == 0x7d {
            match (prompt_tokens, completion_tokens) {
                (Some(p), Some(c)) => {
                    return Some((NimUsage { prompt_tokens: p, completion_tokens: c }, t + 1));
                },
                _ => {
                    return None;
                },
            }
        }
        if s[t] != 0x2c {
            return None;
        }
        let next = skip_ws(s, t + 1);
        if next <= cur {
            return None;
        }
        cur = next;
    }
}

/// Decodes a whole response body against the wire schema: exactly what
/// [`wire_spec`] says of the bytes.
pub fn parse_wire_response(raw: &Vec<u8>) -> (r: Option<NimResponse>)
    ensures
        match r {
            Some(w) => wire_spec(raw@) == Some((choice_views(w.choices@), w.usage)),
            None => wire_spec(raw@) is None,
        },
{
    let i = skip_ws(raw, 0);
    if i >= raw.len() || raw[i] != 0x7b {
        return None;
    }
    let mut choices: Option<Vec<NimChoice>> = None;
    let mut usage: Option<NimUsage> = None;
    let mut cur = skip_ws(raw, i + 1);
    if cur < raw.len() && raw[cur] == 0x7d {
        return None;
    }
    loop
        invariant
            i < cur <= raw@.len(),
            i < raw@.len(),
            raw@[i as int] == 0x7b,
            i == ws_end(raw@, 0),
            wire_spec(raw@) == wire_members(raw@, cur as int, cs_view(choices), usage),
        decreases raw@.len() - cur,
    {
        let (key, after_key) = match parse_string(raw, cur) {
            Some(p) => p,
            None => {
                return None;
            },
        };
        let mut k = skip_ws(raw, after_key);
        if k >= raw.len() || raw[k] != 0x3a {
            return None;
        }
        k = skip_ws(raw, k + 1);
        let after_val: usize;
        if slice_eq(key.as_slice(), "choices".as_bytes()) {
            if choices.is_some() {
                return None;
            }
            let (cs, j) = match parse_choices(raw, k) {
                Some(p) => p,
                None => {
                    return None;
                },
            };
            choices = Some(cs);
            after_val = j;
        } else if slice_eq(key.as_slice(), "usage".as_bytes()) {
            if usage.is_some() {
                return None;
            }
            let (u, j) = match parse_usage(raw, k) {
                Some(p) => p,
                None => {
                    return None;
                },
            };
            usage = Some(u);
            after_val = j;
        } else {
            after_val = match skip_value(raw, k) {
                Some(j) => j,
                None => {
                    return None;
                },
            };
        }
        let t = skip_ws(raw, after_val);
        if t >= raw.len() {
            return None;
        }
        if raw[t] == 0x7d {
            let end = skip_ws(raw, t + 1);
            if end != raw.len() {
                return None;
            }
            match (choices, usage) {
                (Some(cs), Some(u)) => {
                    return Some(NimResponse { choices: cs, usage: u });
                },
                _ => {
                    return None;
                },
            }
        }
        if raw[t] != 0x2c {
            return None;
        }
        let next = skip_ws(raw, t + 1);
        if next <= cur {
            return None;
        }
        cur = next;
    }
}

/// The view of the decoder's member state for found choices.
pub open spec fn cs_view(c: Option<Vec<NimChoice>>) -> Option<Seq<Option<Seq<u8>>>> {
    match c {
        Some(cs) => Some(choice_views(cs@)),
        None => None,
    }
}

} // verus!
