//! JSON emission: string escaping and numeral rendering, with exact
//! byte-level specifications.

use vstd::prelude::*;

use crate::bytes::{dec_of, push_bytes, push_dec};
use vstd::string::StringSliceAdditionalSpecFns;

verus! {

/// Appends a literal text, stated over its UTF-8 bytes.
pub fn push_lit(out: &mut Vec<u8>, s: &str)
    ensures
        final(out)@ == old(out)@ + s.spec_bytes(),
{
    push_bytes(out, s.as_bytes());
}

/// The lower-case hex digit of `d` (`d < 16`).
pub open spec fn hex_digit(d: u8) -> u8 {
    if d < 10 {
        (0x30 + d) as u8
    } else {
        (0x57 + d) as u8
    }
}

/// How one byte of string content is written inside a JSON string: the
/// two-character escapes for quote, backslash and the common control
/// characters, `\u00XX` for the remaining control bytes, and the byte itself
/// otherwise (multi-byte UTF-8 sequences pass through unchanged).
pub open spec fn esc_byte(b: u8) -> Seq<u8> {
    if b == 0x22 {
        seq![0x5c, 0x22]
    } else if b == 0x5c {
        seq![0x5c, 0x5c]
    } else if b == 0x08 {
        seq![0x5c, 0x62]
    } else if b == 0x09 {
        seq![0x5c, 0x74]
    } else if b == 0x0a {
        seq![0x5c, 0x6e]
    } else if b == 0x0c {
        seq![0x5c, 0x66]
    } else if b == 0x0d {
        seq![0x5c, 0x72]
    } else if b < 0x20 {
        seq![0x5c, 0x75, 0x30, 0x30, hex_digit(b / 16), hex_digit(b % 16)]
    } else {
        seq![b]
    }
}

/// The escaped form of a whole string content.
pub open spec fn escaped(s: Seq<u8>) -> Seq<u8>
    decreases s.len(),
{
    if s.len() == 0 {
        Seq::empty()
    } else {
        escaped(s.drop_last()) + esc_byte(s.last())
    }
}

/// Appends the escaped form of `s` to `out`.
pub fn push_escaped(out: &mut Vec<u8>, s: &Vec<u8>)
    ensures
        final(out)@ == old(out)@ + escaped(s@),
{
    let mut i: usize = 0;
    proof {
        assert(s@.take(0) =~= Seq::<u8>::empty());
        assert(out@ =~= old(out)@ + escaped(s@.take(0)));
    }
    while i < s.len()
        invariant
            i <= s@.len(),
            out@ == old(out)@ + escaped(s@.take(i as int)),
        decreases s@.len() - i,
    {
        let b = s[i];
        if b == 0x22 {
            out.push(0x5c);
            out.push(0x22);
        } else if b == 0x5c {
            out.push(0x5c);
            out.push(0x5c);
        } else if b == 0x08 {
            out.push(0x5c);
            out.push(0x62);
        } else if b == 0x09 {
            out.push(0x5c);
            out.push(0x74);
        } else if b == 0x0a {
            out.push(0x5c);
            out.push(0x6e);
        } else if b == 0x0c {
            out.push(0x5c);
            out.push(0x66);
        } else if b == 0x0d {
            out.push(0x5c);
            out.push(0x72);
        } else if b < 0x20 {
            out.push(0x5c);
            out.push(0x75);
            out.push(0x30);
            out.push(0x30);
            let hi = b / 16;
            let lo = b % 16;
            out.push(if hi < 10 { 0x30 + hi } else { 0x57 + hi });
            out.push(if lo < 10 { 0x30 + lo } else { 0x57 + lo });
        } else {
            out.push(b);
        }
        i += 1;
        proof {
            assert(s@.take(i as int).drop_last() =~= s@.take(i - 1));
            assert(s@.take(i as int).last() == s@[i - 1]);
            assert(out@ =~= old(out)@ + escaped(s@.take(i as int)));
        }
    }
    proof {
        assert(s@.take(s@.len() as int) =~= s@);
    }
}

/// The decimal digit of `d` (`d < 10`).
pub open spec fn dec_digit(d: u32) -> u8 {
    (0x30 + d) as u8
}

/// How a fractional part in thousandths (`f < 1000`) is written: nothing when
/// zero, else a dot and one to three digits with trailing zeros trimmed.
pub open spec fn frac_bytes(f: u32) -> Seq<u8> {
    if f == 0 {
        Seq::empty()
    } else if f % 100 == 0 {
        seq![0x2e, dec_digit(f / 100)]
    } else if f % 10 == 0 {
        seq![0x2e, dec_digit(f / 100), dec_digit((f / 10) % 10)]
    } else {
        seq![0x2e, dec_digit(f / 100), dec_digit((f / 10) % 10), dec_digit(f % 10)]
    }
}

/// How a sampling parameter held in thousandths is written as a JSON number:
/// the integer part, then the trimmed fractional part.
pub open spec fn param_bytes(thousandths: u32) -> Seq<u8> {
    dec_of((thousandths / 1000) as nat) + frac_bytes(thousandths % 1000)
}

/// Appends the JSON numeral of a parameter held in thousandths.
pub fn push_param(out: &mut Vec<u8>, thousandths: u32)
    ensures
        final(out)@ == old(out)@ + param_bytes(thousandths),
{
    push_dec(out, thousandths / 1000);
    let f = thousandths % 1000;
    assert(f < 1000);
    if f == 0 {
        proof {
            assert(out@ =~= old(out)@ + param_bytes(thousandths));
        }
        return ;
    }
    out.push(0x2e);
    assert(f / 100 < 10);
    out.push(0x30 + ((f / 100) as u8));
    if f % 100 != 0 {
        out.push(0x30 + (((f / 10) % 10) as u8));
        if f % 10 != 0 {
            out.push(0x30 + ((f % 10) as u8));
        }
    }
    proof {
        assert(out@ =~= old(out)@ + param_bytes(thousandths));
    }
}

/// The wire spelling of a boolean.
pub open spec fn bool_bytes(b: bool) -> Seq<u8> {
    if b {
        "true".spec_bytes()
    } else {
        "false".spec_bytes()
    }
}

/// Appends `true` or `false`.
pub fn push_bool(out: &mut Vec<u8>, b: bool)
    ensures
        final(out)@ == old(out)@ + bool_bytes(b),
{
    if b {
        push_lit(out, "true");
    } else {
        push_lit(out, "false");
    }
}

} // verus!
