use vstd::prelude::*;
use vstd::utf8::{encode_scalar, is_scalar};
use crate::num::{digit_val, spec_digit_val};
use crate::token::LitBase;
use crate::util::str_chars;

verus! {

broadcast use vstd::utf8::char_is_scalar;

/// Why a quoted string's escapes failed to decode.
#[derive(Clone, Copy, PartialEq, Eq, Structural, Debug)]
pub enum EscFault {
    /// A `\u` escape without a well-formed `{...}` bracket pair.
    BadUnicode,
    /// A `\u{...}` whose content is not the hex form of a Unicode scalar.
    BadCodePoint,
    /// A `\XX` escape without two hex digits.
    BadHexPair,
}

/// Position of the first `}` at or after `i`, if any.
pub open spec fn find_rbrace(s: Seq<char>, i: int) -> Option<int>
    decreases s.len() - i,
{
    if i < 0 || i >= s.len() {
        None
    } else if s[i] == '}' {
        Some(i)
    } else {
        find_rbrace(s, i + 1)
    }
}

/// Hexadecimal value of a digit run, scanned left to right with no
/// separators; `None` on an empty run, a non-digit, or overflow past the
/// 32-bit range.
pub open spec fn spec_hex_scan(s: Seq<char>, acc: int, seen: bool) -> Option<u32>
    decreases s.len(),
{
    if s.len() == 0 {
        if seen {
            Some(acc as u32)
        } else {
            None
        }
    } else {
        match spec_digit_val(s[0], LitBase::Hex) {
            None => None,
            Some(d) => {
                let v = acc * 16 + d;
                if v > 0xffff_ffffu64 {
                    None
                } else {
                    spec_hex_scan(s.skip(1), v, true)
                }
            },
        }
    }
}

pub open spec fn prepend_bytes(b: Seq<u8>, r: Result<Seq<u8>, EscFault>) -> Result<
    Seq<u8>,
    EscFault,
> {
    match r {
        Ok(rest) => Ok(b + rest),
        Err(f) => Err(f),
    }
}

/// Exact meaning of escape decoding: each plain character contributes its
/// UTF-8 bytes; a backslash must begin a recognized escape, which contributes
/// its byte (or the UTF-8 bytes of its scalar); the first malformed escape
/// decides the fault.
pub open spec fn spec_escape(s: Seq<char>) -> Result<Seq<u8>, EscFault>
    decreases s.len(),
{
    if s.len() == 0 {
        Ok(Seq::empty())
    } else if s[0] != '\\' {
        prepend_bytes(encode_scalar(s[0] as u32), spec_escape(s.skip(1)))
    } else if s.len() < 2 {
        Err(EscFault::BadHexPair)
    } else if s[1] == 't' {
        prepend_bytes(seq![9u8], spec_escape(s.skip(2)))
    } else if s[1] == 'n' {
        prepend_bytes(seq![10u8], spec_escape(s.skip(2)))
    } else if s[1] == 'r' {
        prepend_bytes(seq![13u8], spec_escape(s.skip(2)))
    } else if s[1] == '"' {
        prepend_bytes(seq![34u8], spec_escape(s.skip(2)))
    } else if s[1] == '\'' {
        prepend_bytes(seq![39u8], spec_escape(s.skip(2)))
    } else if s[1] == '\\' {
        prepend_bytes(seq![92u8], spec_escape(s.skip(2)))
    } else if s[1] == 'u' {
        if s.len() < 3 || s[2] != '{' {
            Err(EscFault::BadUnicode)
        } else {
            match find_rbrace(s, 3) {
                None => Err(EscFault::BadUnicode),
                Some(j) => {
                    if !(3 <= j && j < s.len()) {
                        Err(EscFault::BadUnicode)
                    } else {
                        match spec_hex_scan(s.subrange(3, j), 0, false) {
                            None => Err(EscFault::BadCodePoint),
                            Some(v) => {
                                if !is_scalar(v) {
                                    Err(EscFault::BadCodePoint)
                                } else {
                                    prepend_bytes(encode_scalar(v), spec_escape(s.skip(j + 1)))
                                }
                            },
                        }
                    }
                },
            }
        }
    } else {
        match (spec_digit_val(s[1], LitBase::Hex), if s.len() >= 3 {
            spec_digit_val(s[2], LitBase::Hex)
        } else {
            None
        }) {
            (Some(hi), Some(lo)) => prepend_bytes(
                seq![(hi * 16 + lo) as u8],
                spec_escape(s.skip(3)),
            ),
            _ => Err(EscFault::BadHexPair),
        }
    }
}

/// `find_rbrace` over a suffix is `find_rbrace` over the whole, shifted.
proof fn lemma_find_shift(s: Seq<char>, i: int, m: int)
    requires
        0 <= i <= s.len(),
        0 <= m,
    ensures
        find_rbrace(s.skip(i), m) == (match find_rbrace(s, i + m) {
            Some(j) => Some(j - i),
            None => None::<int>,
        }),
    decreases s.len() - i - m,
{
    if i + m >= s.len() {
    } else {
        assert(s.skip(i)[m] == s[i + m]);
        if s[i + m] == '}' {
        } else {
            lemma_find_shift(s, i, m + 1);
        }
    }
}

/// Append the UTF-8 encoding of the scalar value `v` to `buf`.
fn push_utf8_scalar(buf: &mut Vec<u8>, v: u32)
    requires
        is_scalar(v),
    ensures
        final(buf)@ == old(buf)@ + encode_scalar(v),
{
    proof {
        assert((v & 0x7F) < 0x80 && ((v >> 6) & 0x1F) < 0x20 && ((v >> 12) & 0x0F) < 0x10 && ((v
            >> 18) & 0x7) < 0x8 && (v & 0x3F) < 0x40 && ((v >> 6) & 0x3F) < 0x40 && ((v >> 12)
            & 0x3F) < 0x40) by (bit_vector);
    }
    if v < 0x80 {
        buf.push((v & 0x7F) as u8);
    } else if v < 0x800 {
        buf.push(0xC0u8 | ((v >> 6) & 0x1F) as u8);
        buf.push(0x80u8 | (v & 0x3F) as u8);
    } else if v < 0x1_0000 {
        buf.push(0xE0u8 | ((v >> 12) & 0x0F) as u8);
        buf.push(0x80u8 | ((v >> 6) & 0x3F) as u8);
        buf.push(0x80u8 | (v & 0x3F) as u8);
    } else {
        buf.push(0xF0u8 | ((v >> 18) & 0x7) as u8);
        buf.push(0x80u8 | ((v >> 12) & 0x3F) as u8);
        buf.push(0x80u8 | ((v >> 6) & 0x3F) as u8);
        buf.push(0x80u8 | (v & 0x3F) as u8);
    }
    proof {
        assert(buf@ =~= old(buf)@ + encode_scalar(v));
    }
}

/// Decode the escapes of a string literal's raw text into bytes.
#[verifier::loop_isolation(false)]
pub fn parse_escaped_bytes(s: &str) -> (r: Result<Vec<u8>, EscFault>)
    ensures
        (match r {
            Ok(v) => spec_escape(s@) == Ok::<Seq<u8>, EscFault>(v@),
            Err(f) => spec_escape(s@) == Err::<Seq<u8>, EscFault>(f),
        }),
{
    let cs = str_chars(s);
    let ghost all = s@;
    let mut buf: Vec<u8> = Vec::new();
    let mut i: usize = 0;
    proof {
        assert(all.skip(0) =~= all);
        assert(prepend_bytes(buf@, spec_escape(all)) == spec_escape(all));
    }
    while i < cs.len()
        invariant
            all == s@,
            cs@ == all,
            0 <= i <= all.len(),
            spec_escape(all) == prepend_bytes(buf@, spec_escape(all.skip(i as int))),
        decreases all.len() - i,
    {
        let c = cs[i];
        proof {
            assert(all.skip(i as int)[0] == all[i as int]);
            if i + 1 < all.len() {
                assert(all.skip(i as int)[1] == all[i + 1]);
            }
            if i + 2 < all.len() {
                assert(all.skip(i as int)[2] == all[i + 2]);
            }
            assert(all.skip(i as int).skip(1) =~= all.skip(i + 1));
            if i + 2 <= all.len() {
                assert(all.skip(i as int).skip(2) =~= all.skip(i + 2));
            }
            if i + 3 <= all.len() {
                assert(all.skip(i as int).skip(3) =~= all.skip(i + 3));
            }
        }
        let ghost tail = all.skip(i as int);
        if c != '\\' {
            let u = c as u32;
            proof {
                vstd::utf8::char_is_scalar(c);
            }
            let ghost pre = buf@;
            push_utf8_scalar(&mut buf, u);
            i += 1;
            proof {
                lemma_prepend_assoc(pre, encode_scalar(c as u32), all.skip(i as int));
            }
        } else if i + 1 >= cs.len() {
            return Err(EscFault::BadHexPair);
        } else {
            let e = cs[i + 1];
            if e == 't' || e == 'n' || e == 'r' || e == '"' || e == '\'' || e == '\\' {
                let b: u8 = if e == 't' {
                    9
                } else if e == 'n' {
                    10
                } else if e == 'r' {
                    13
                } else if e == '"' {
                    34
                } else if e == '\'' {
                    39
                } else {
                    92
                };
                let ghost pre = buf@;
                buf.push(b);
                i += 2;
                proof {
                    assert(pre + seq![b] =~= buf@);
                    lemma_prepend_assoc(pre, seq![b], all.skip(i as int));
                }
            } else if e == 'u' {
                if i + 2 >= cs.len() || cs[i + 2] != '{' {
                    return Err(EscFault::BadUnicode);
                }
                // hunt for the closing brace
                let mut k: usize = i + 3;
                while k < cs.len() && cs[k] != '}'
                    invariant
                        cs@ == all,
                        i + 3 <= k <= all.len(),
                        find_rbrace(all, i + 3) == find_rbrace(all, k as int),
                    decreases all.len() - k,
                {
                    k += 1;
                }
                proof {
                    lemma_find_shift(all, i as int, 3);
                }
                if k >= cs.len() {
                    proof {
                        assert(find_rbrace(all, k as int) is None);
                    }
                    return Err(EscFault::BadUnicode);
                }
                proof {
                    assert(find_rbrace(all, k as int) == Some(k as int));
                    assert(tail.subrange(3, k - i) =~= all.subrange(i + 3, k as int));
                    assert(tail.skip(k - i + 1) =~= all.skip(k + 1));
                }
                // hex digits between the braces
                let mut v: u64 = 0;
                let mut seen: bool = false;
                let mut d: usize = i + 3;
                let ghost content = all.subrange(i + 3, k as int);
                proof {
                    assert(content.skip(0) =~= content);
                }
                while d < k
                    invariant
                        cs@ == all,
                        i + 3 <= d <= k <= all.len(),
                        v <= 0xffff_ffff,
                        content == all.subrange(i + 3, k as int),
                        spec_hex_scan(content, 0, false) == spec_hex_scan(
                            content.skip(d - i - 3),
                            v as int,
                            seen,
                        ),
                    decreases k - d,
                {
                    proof {
                        assert(content.skip(d - i - 3)[0] == all[d as int]);
                        assert(content.skip(d - i - 3).skip(1) =~= content.skip(d + 1 - i - 3));
                    }
                    match digit_val(cs[d], LitBase::Hex) {
                        None => {
                            return Err(EscFault::BadCodePoint);
                        },
                        Some(dv) => {
                            let w: u64 = v * 16 + dv as u64;
                            if w > 0xffff_ffff {
                                return Err(EscFault::BadCodePoint);
                            }
                            v = w;
                            seen = true;
                            d += 1;
                        },
                    }
                }
                proof {
                    assert(content.skip(d - i - 3) =~= Seq::<char>::empty());
                }
                if !seen {
                    return Err(EscFault::BadCodePoint);
                }
                let sv = v as u32;
                if !(sv < 0xD800 || (0xE000 <= sv && sv < 0x11_0000)) {
                    proof {
                        assert(!is_scalar(sv));
                    }
                    return Err(EscFault::BadCodePoint);
                }
                proof {
                    assert(is_scalar(sv));
                }
                let ghost pre = buf@;
                push_utf8_scalar(&mut buf, sv);
                i = k + 1;
                proof {
                    lemma_prepend_assoc(pre, encode_scalar(sv), all.skip(i as int));
                }
            } else {
                let hi = match digit_val(e, LitBase::Hex) {
                    Some(hv) => hv,
                    None => {
                        return Err(EscFault::BadHexPair);
                    },
                };
                if i + 2 >= cs.len() {
                    return Err(EscFault::BadHexPair);
                }
                let lo = match digit_val(cs[i + 2], LitBase::Hex) {
                    Some(lv) => lv,
                    None => {
                        return Err(EscFault::BadHexPair);
                    },
                };
                let b: u8 = (hi * 16 + lo) as u8;
                let ghost pre = buf@;
                buf.push(b);
                i += 3;
                proof {
                    assert(pre + seq![b] =~= buf@);
                    lemma_prepend_assoc(pre, seq![b], all.skip(i as int));
                }
            }
        }
    }
    proof {
        assert(all.skip(i as int) =~= Seq::<char>::empty());
        assert(buf@ + Seq::<u8>::empty() =~= buf@);
    }
    Ok(buf)
}

/// Concatenation under `prepend_bytes` re-associates.
proof fn lemma_prepend_assoc(a: Seq<u8>, b: Seq<u8>, s: Seq<char>)
    ensures
        prepend_bytes(a, prepend_bytes(b, spec_escape(s))) == prepend_bytes(a + b, spec_escape(s)),
{
    match spec_escape(s) {
        Ok(rest) => {
            assert(a + (b + rest) =~= (a + b) + rest);
        },
        Err(_) => {},
    }
}


/// Why a string literal failed to decode as text.
#[derive(Clone, Copy, PartialEq, Eq, Structural, Debug)]
pub enum TextFault {
    /// The escapes themselves are malformed.
    Esc(EscFault),
    /// The decoded bytes are not valid text.
    NotText,
}

/// Relies on `String::from_utf8`: it succeeds exactly on valid UTF-8 and
/// returns the string those bytes spell.
#[verifier::external_body]
fn string_from_utf8(b: Vec<u8>) -> (r: Option<String>)
    ensures
        r is Some <==> vstd::utf8::valid_utf8(b@),
        (match r {
            Some(t) => t@ == vstd::utf8::decode_utf8(b@),
            None => true,
        }),
{
    std::string::String::from_utf8(b).ok()
}

/// Exact meaning of text decoding: the escapes decode to bytes, which must
/// spell valid text.
pub open spec fn spec_escape_text(s: Seq<char>) -> Result<Seq<char>, TextFault> {
    match spec_escape(s) {
        Err(f) => Err(TextFault::Esc(f)),
        Ok(b) => if vstd::utf8::valid_utf8(b) {
            Ok(vstd::utf8::decode_utf8(b))
        } else {
            Err(TextFault::NotText)
        },
    }
}

/// Decode the escapes of a string literal's raw text into owned text.
pub fn parse_escaped_text(s: &str) -> (r: Result<String, TextFault>)
    ensures
        (match r {
            Ok(t) => spec_escape_text(s@) == Ok::<Seq<char>, TextFault>(t@),
            Err(f) => spec_escape_text(s@) == Err::<Seq<char>, TextFault>(f),
        }),
{
    match parse_escaped_bytes(s) {
        Err(f) => Err(TextFault::Esc(f)),
        Ok(b) => match string_from_utf8(b) {
            Some(t) => Ok(t),
            None => Err(TextFault::NotText),
        },
    }
}

} // verus!
