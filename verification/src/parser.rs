use vstd::prelude::*;
use vstd::string::StrSliceExecFns;
use vstd::string::StringExecFns;
use crate::ast::{
    AssertExhaustion, AssertInvalid, AssertMalformed, AssertReturn, AssertTrap, AssertUnlinkable,
    Const, Directive, Embedded, EmbeddedModule, GetGlobal, Invoke, Register, Root,
};
use crate::error::{Error, ErrorKind, IntFault};
use crate::escape::{parse_escaped_bytes, parse_escaped_text, spec_escape, spec_escape_text, EscFault, TextFault};
use crate::fp::{
    dec_bits, hex_bits, int_bits, signed32, signed64, spec_dec_bits, spec_hex_bits, spec_int_bits,
    spec_signed32, spec_signed64, INF32, INF64, QNAN32, QNAN64,
};
use crate::lex::{
    can_peek, compile_inline, la_clean, la_clone, la_new, la_next, la_offs, la_peek2, la_toks,
    lex_clean, lex_offs, lex_toks, wat_accepts, wat_consumed, LexStep,
};
use vstd::string::StringSliceAdditionalSpecFns;
use crate::num::{decode_i32, decode_i64, spec_decode_i32, spec_decode_i64, IntDecodeErr};
use crate::token::{FloatTok, LitBase, LitSign, SpecFloatTok, SpecTok, Tok};
use crate::util::{opt_str_view, str_eq};

verus! {

// ---------------------------------------------------------------------------
// The reference grammar, over the modeled token stream.
// ---------------------------------------------------------------------------

/// Meaning of a constant's value token under its `<ty>.const` keyword.
pub open spec fn spec_const_val(kw: Seq<char>, vt: SpecTok) -> Option<Const> {
    if kw == "i32.const"@ {
        match vt {
            SpecTok::Int(sg, b, d) => match spec_decode_i32(sg, b, d) {
                Ok(v) => Some(Const::I32(v)),
                Err(_) => None,
            },
            _ => None,
        }
    } else if kw == "i64.const"@ {
        match vt {
            SpecTok::Int(sg, b, d) => match spec_decode_i64(sg, b, d) {
                Ok(v) => Some(Const::I64(v)),
                Err(_) => None,
            },
            _ => None,
        }
    } else if kw == "f32.const"@ {
        match vt {
            SpecTok::Keyword(k) => if k == "nan:canonical"@ {
                Some(Const::CanonicalNan)
            } else if k == "nan:arithmetic"@ {
                Some(Const::ArithmeticNan)
            } else {
                None
            },
            SpecTok::Int(sg, b, d) => match spec_decode_i64(sg, b, d) {
                Ok(v) => Some(Const::Fp32(spec_int_bits(v, 24, -149i64, INF32 as u64, 255) as u32)),
                Err(_) => None,
            },
            SpecTok::Float(sg, SpecFloatTok::Nan(_)) => Some(
                Const::Fp32(spec_signed32(QNAN32, sg == LitSign::Minus)),
            ),
            SpecTok::Float(sg, SpecFloatTok::Inf) => Some(
                Const::Fp32(spec_signed32(INF32, sg == LitSign::Minus)),
            ),
            SpecTok::Float(sg, SpecFloatTok::Val { base, frac, exp }) => {
                let bits = if base == LitBase::Hex {
                    spec_hex_bits(frac, exp, 24, -149i64, INF32 as u64, 255)
                } else {
                    spec_dec_bits(frac, exp, 24, -149i64, INF32 as u64, 255)
                };
                match bits {
                    Some(b) => Some(Const::Fp32(spec_signed32(b as u32, sg == LitSign::Minus))),
                    None => None,
                }
            },
            _ => None,
        }
    } else if kw == "f64.const"@ {
        match vt {
            SpecTok::Keyword(k) => if k == "nan:canonical"@ {
                Some(Const::CanonicalNan)
            } else if k == "nan:arithmetic"@ {
                Some(Const::ArithmeticNan)
            } else {
                None
            },
            SpecTok::Int(sg, b, d) => match spec_decode_i64(sg, b, d) {
                Ok(v) => Some(Const::Fp64(spec_int_bits(v, 53, -1074i64, INF64, 2047))),
                Err(_) => None,
            },
            SpecTok::Float(sg, SpecFloatTok::Nan(_)) => Some(
                Const::Fp64(spec_signed64(QNAN64, sg == LitSign::Minus)),
            ),
            SpecTok::Float(sg, SpecFloatTok::Inf) => Some(
                Const::Fp64(spec_signed64(INF64, sg == LitSign::Minus)),
            ),
            SpecTok::Float(sg, SpecFloatTok::Val { base, frac, exp }) => {
                let bits = if base == LitBase::Hex {
                    spec_hex_bits(frac, exp, 53, -1074i64, INF64, 2047)
                } else {
                    spec_dec_bits(frac, exp, 53, -1074i64, INF64, 2047)
                };
                match bits {
                    Some(b) => Some(Const::Fp64(spec_signed64(b, sg == LitSign::Minus))),
                    None => None,
                }
            },
            _ => None,
        }
    } else {
        None
    }
}

/// A constant form: `(` `<ty>.const` value `)`, exactly four tokens.
pub open spec fn spec_const_form(t: Seq<SpecTok>) -> Option<Const> {
    if t.len() >= 4 && t[0] == SpecTok::LParen && t[3] == SpecTok::RParen {
        match t[1] {
            SpecTok::Keyword(kw) => spec_const_val(kw, t[2]),
            _ => None,
        }
    } else {
        None
    }
}

/// A run of constant forms, ending before the first token that does not open
/// one.
pub open spec fn spec_const_list(t: Seq<SpecTok>) -> Option<(Seq<Const>, int)>
    decreases t.len(),
{
    if t.len() == 0 || t[0] != SpecTok::LParen {
        Some((Seq::empty(), 0))
    } else {
        match spec_const_form(t) {
            None => None,
            Some(c) => match spec_const_list(t.skip(4)) {
                None => None,
                Some((cs, m)) => Some((seq![c] + cs, 4 + m)),
            },
        }
    }
}

/// An optional leading identifier: the name and how many tokens it took.
pub open spec fn spec_maybe_id(t: Seq<SpecTok>) -> (Option<Seq<char>>, int) {
    if t.len() > 0 {
        match t[0] {
            SpecTok::Ident(id) => (Some(id), 1),
            _ => (None, 0),
        }
    } else {
        (None, 0)
    }
}

/// Meaning of a name token: a string literal whose escapes decode to text.
pub open spec fn spec_name_tok(t: SpecTok) -> Option<Seq<char>> {
    match t {
        SpecTok::StrLit(lit) => match spec_escape_text(lit) {
            Ok(cs) => Some(cs),
            Err(_) => None,
        },
        _ => None,
    }
}

/// An invoke form: `(` `invoke` id? name constant* `)`; gives the fields and
/// the token count.
pub open spec fn spec_invoke_form(t: Seq<SpecTok>) -> Option<
    (Option<Seq<char>>, Seq<char>, Seq<Const>, int),
> {
    if t.len() >= 2 && t[0] == SpecTok::LParen && t[1] == SpecTok::Keyword("invoke"@) {
        let (id, k) = spec_maybe_id(t.skip(2));
        if t.len() > 2 + k {
            match spec_name_tok(t[2 + k]) {
                None => None,
                Some(nm) => match spec_const_list(t.skip(3 + k)) {
                    None => None,
                    Some((args, m)) => {
                        if t.len() > 3 + k + m && t[3 + k + m] == SpecTok::RParen {
                            Some((id, nm, args, 4 + k + m))
                        } else {
                            None
                        }
                    },
                },
            }
        } else {
            None
        }
    } else {
        None
    }
}

/// Embedded module payloads: quoted source text or raw bytes.
pub ghost enum SpecEmbedded {
    Quote(Seq<char>),
    Binary(Seq<u8>),
}

/// String items of a quote module, up to and including the closing paren.
pub open spec fn spec_quote_items(t: Seq<SpecTok>) -> Option<(Seq<char>, int)>
    decreases t.len(),
{
    if t.len() == 0 {
        None
    } else {
        match t[0] {
            SpecTok::RParen => Some((Seq::empty(), 1)),
            SpecTok::StrLit(lit) => match spec_escape_text(lit) {
                Err(_) => None,
                Ok(cs) => match spec_quote_items(t.skip(1)) {
                    None => None,
                    Some((rest, m)) => Some((cs + rest, 1 + m)),
                },
            },
            _ => None,
        }
    }
}

/// String items of a binary module, up to and including the closing paren.
pub open spec fn spec_binary_items(t: Seq<SpecTok>) -> Option<(Seq<u8>, int)>
    decreases t.len(),
{
    if t.len() == 0 {
        None
    } else {
        match t[0] {
            SpecTok::RParen => Some((Seq::empty(), 1)),
            SpecTok::StrLit(lit) => match spec_escape(lit) {
                Err(_) => None,
                Ok(bs) => match spec_binary_items(t.skip(1)) {
                    None => None,
                    Some((rest, m)) => Some((bs + rest, 1 + m)),
                },
            },
            _ => None,
        }
    }
}

/// An embedded module form: `(` `module` id? (`quote` strings | `binary`
/// strings) `)`.
pub open spec fn spec_embedded_form(t: Seq<SpecTok>) -> Option<(SpecEmbedded, int)> {
    if t.len() >= 2 && t[0] == SpecTok::LParen && t[1] == SpecTok::Keyword("module"@) {
        let (_id, k) = spec_maybe_id(t.skip(2));
        if t.len() > 2 + k {
            match t[2 + k] {
                SpecTok::Keyword(kw) => if kw == "quote"@ {
                    match spec_quote_items(t.skip(3 + k)) {
                        None => None,
                        Some((cs, m)) => Some((SpecEmbedded::Quote(cs), 3 + k + m)),
                    }
                } else if kw == "binary"@ {
                    match spec_binary_items(t.skip(3 + k)) {
                        None => None,
                        Some((bs, m)) => Some((SpecEmbedded::Binary(bs), 3 + k + m)),
                    }
                } else {
                    None
                },
                _ => None,
            }
        } else {
            None
        }
    } else {
        None
    }
}

// ---------------------------------------------------------------------------
// The parser.
// ---------------------------------------------------------------------------

/// The directive parser: the source text, the lookahead buffer over its
/// tokens, the offset of the last consumed token, and at most one error
/// discarded by speculative parsing, kept as context for the next error.
pub struct Parser<'s> {
    source: &'s str,
    tokens: wain_syntax_text::parser::LookAhead<wain_syntax_text::lexer::Lexer<'s>>,
    current_pos: usize,
    ignored_error: Option<Box<Error>>,
}

pub type PResult<T> = Result<T, Box<Error>>;

impl<'s> Parser<'s> {
    /// The tokens still to be consumed.
    pub closed spec fn toks(&self) -> Seq<SpecTok> {
        la_toks(self.tokens)
    }

    /// Whether the remaining stream lexes to its end.
    pub closed spec fn clean(&self) -> bool {
        la_clean(self.tokens)
    }

    /// The byte offsets of the remaining tokens, parallel to `toks`.
    pub closed spec fn offs(&self) -> Seq<int> {
        la_offs(self.tokens)
    }

    /// The byte offset of the last consumed token (the source's byte length
    /// once the input is exhausted).
    pub closed spec fn pos(&self) -> int {
        self.current_pos as int
    }

    /// The source's byte length, as the platform reports it.
    pub closed spec fn src_bytes(&self) -> int {
        (self.source.spec_bytes().len() as usize) as int
    }

    /// The stream advanced by `n` tokens and nothing else about it changed.
    pub open spec fn advanced(&self, post: Self, n: int) -> bool {
        post.toks() == self.toks().skip(n) && post.clean() == self.clean()
    }

    /// Whether an error discarded by speculative parsing is being held as
    /// context for the next error.
    pub closed spec fn has_ignored(&self) -> bool {
        self.ignored_error is Some
    }

    /// A parser positioned at the start of the source's token stream.
    pub fn new(source: &'s str) -> (p: Self)
        ensures
            p.toks() == lex_toks(source@),
            p.clean() == lex_clean(source@),
            p.offs() == lex_offs(source@),
            !p.has_ignored(),
    {
        Parser { source, tokens: la_new(source), current_pos: 0, ignored_error: None }
    }

    /// Build an error at the current offset, attaching (one level of) a
    /// previously discarded error as context.
    fn error(&mut self, kind: ErrorKind) -> (r: Box<Error>)
        ensures
            r.bounded_chain(),
            r.kind == kind,
            !final(self).has_ignored(),
            final(self).toks() == old(self).toks(),
            final(self).clean() == old(self).clean(),
    {
        let prev = match self.ignored_error.take() {
            Some(ig) => Some(Box::new(Error { kind: ig.kind, pos: ig.pos, prev_error: None })),
            None => None,
        };
        Box::new(Error { kind, pos: self.current_pos, prev_error: prev })
    }

    fn fail<T>(&mut self, kind: ErrorKind) -> (r: PResult<T>)
        ensures
            r is Err,
            (match r {
                Err(e) => e.bounded_chain() && e.kind == kind,
                Ok(_) => true,
            }),
            !final(self).has_ignored(),
            final(self).toks() == old(self).toks(),
            final(self).clean() == old(self).clean(),
    {
        let e = self.error(kind);
        Err(e)
    }

    fn unexpected_token<T>(&mut self, token: Option<Tok>, expected: &str) -> (r: PResult<T>)
        ensures
            r is Err,
            (match r {
                Err(e) => e.bounded_chain() && (e.kind matches ErrorKind::Unexpected { expected: x, token: tk }
                    && x@ == expected@ && tk == token),
                Ok(_) => true,
            }),
            final(self).toks() == old(self).toks(),
            final(self).clean() == old(self).clean(),
    {
        let msg = String::from_str(expected);
        self.fail(ErrorKind::Unexpected { expected: msg, token })
    }

    /// Take the next token; at the end of input, `None`.
    fn consume(&mut self) -> (r: PResult<Option<Tok>>)
        ensures
            old(self).toks().len() > 0 ==> (match r {
                Ok(Some(t)) => ({
                    &&& t@ == old(self).toks()[0]
                    &&& old(self).advanced(*final(self), 1)
                    &&& old(self).offs().len() == old(self).toks().len()
                    &&& final(self).pos() == old(self).offs()[0]
                    &&& final(self).offs() == old(self).offs().skip(1)
                }),
                _ => false,
            }),
            old(self).toks().len() == 0 && old(self).clean() ==> (match r {
                Ok(None) => ({
                    &&& final(self).toks().len() == 0
                    &&& final(self).clean()
                    &&& final(self).pos() == old(self).src_bytes()
                }),
                _ => false,
            }),
            old(self).toks().len() == 0 && !old(self).clean() ==> r is Err,
            (match r {
                Err(e) => e.bounded_chain() && e.kind is Lex,
                Ok(_) => true,
            }),
    {
        match la_next(&mut self.tokens) {
            LexStep::Tok(t, off) => {
                self.current_pos = off;
                Ok(Some(t))
            },
            LexStep::End => {
                self.current_pos = self.source.len();
                Ok(None)
            },
            LexStep::Fail(e) => Err(e),
        }
    }

    /// Show the next two tokens without advancing.
    fn peek(&self) -> (r: PResult<(Option<Tok>, Option<Tok>)>)
        ensures
            r is Ok <==> can_peek(self.toks(), self.clean()),
            r is Ok ==> (match r.unwrap().0 {
                Some(t) => self.toks().len() >= 1 && t@ == self.toks()[0],
                None => self.toks().len() == 0,
            }),
            r is Ok ==> (match r.unwrap().1 {
                Some(t) => self.toks().len() >= 2 && t@ == self.toks()[1],
                None => self.toks().len() <= 1,
            }),
            (match r {
                Err(e) => e.bounded_chain() && e.kind is Lex,
                Ok(_) => true,
            }),
    {
        la_peek2(&self.tokens)
    }

    /// Whether the input is exhausted.
    fn is_done(&self) -> (r: PResult<bool>)
        ensures
            r is Ok <==> can_peek(self.toks(), self.clean()),
            (match r {
                Ok(b) => b == (self.toks().len() == 0),
                Err(e) => e.bounded_chain() && e.kind is Lex,
            }),
    {
        match self.peek() {
            Ok((t1, _)) => Ok(t1.is_none()),
            Err(e) => Err(e),
        }
    }

    /// Consume `(` and the directive's keyword, returning the directive's
    /// start offset.
    fn parse_start(&mut self, directive: &str) -> (r: PResult<usize>)
        ensures
            r is Ok <==> (old(self).toks().len() >= 2 && old(self).toks()[0] == SpecTok::LParen
                && old(self).toks()[1] == SpecTok::Keyword(directive@)),
            r is Ok ==> ({
                &&& old(self).advanced(*final(self), 2)
                &&& r.unwrap() as int == old(self).offs()[0]
                &&& final(self).offs() == old(self).offs().skip(2)
            }),
            (match r {
                Err(e) => e.bounded_chain() && (e.kind is Lex || e.kind is Unexpected) && (e.kind
                    is Lex ==> !old(self).clean() && old(self).toks().len() <= 1) && ((old(
                    self,
                ).clean() || old(self).toks().len() >= 2) ==> e.kind is Unexpected),
                Ok(_) => true,
            }),
    {
        match self.consume()? {
            Some(Tok::LParen) => {},
            x => {
                let mut msg = String::from_str("'(' for '");
                msg.append(directive);
                msg.append("'");
                return self.fail(ErrorKind::Unexpected { expected: msg, token: x });
            },
        }
        let start = self.current_pos;
        match self.consume()? {
            Some(Tok::Keyword(k)) => {
                if str_eq(k.as_str(), directive) {
                    proof {
                        assert(old(self).toks().skip(1).skip(1) =~= old(self).toks().skip(2));
                        assert(old(self).offs().skip(1).skip(1) =~= old(self).offs().skip(2));
                    }
                    Ok(start)
                } else {
                    let mut msg = String::from_str("keyword for '");
                    msg.append(directive);
                    msg.append("'");
                    self.fail(ErrorKind::Unexpected { expected: msg, token: Some(Tok::Keyword(k)) })
                }
            },
            x => {
                let mut msg = String::from_str("keyword for '");
                msg.append(directive);
                msg.append("'");
                self.fail(ErrorKind::Unexpected { expected: msg, token: x })
            },
        }
    }

    /// Consume an identifier if one is next.
    fn parse_maybe_id(&mut self) -> (r: PResult<Option<String>>)
        ensures
            r is Ok <==> can_peek(old(self).toks(), old(self).clean()),
            (match r {
                Ok(Some(id)) => old(self).toks().len() >= 1 && old(self).toks()[0]
                    == SpecTok::Ident(id@) && old(self).advanced(*final(self), 1),
                Ok(None) => final(self).toks() == old(self).toks() && final(self).clean() == old(
                    self,
                ).clean() && spec_maybe_id(old(self).toks()).1 == 0,
                Err(e) => e.bounded_chain() && e.kind is Lex,
            }),
    {
        let (t1, _) = match self.peek() {
            Ok(p) => p,
            Err(e) => {
                return Err(e);
            },
        };
        match t1 {
            Some(Tok::Ident(_)) => {
                match la_next(&mut self.tokens) {
                    LexStep::Tok(t, _off) => {
                        match t {
                            Tok::Ident(id) => Ok(Some(id)),
                            _ => vstd::pervasive::unreached(),
                        }
                    },
                    _ => vstd::pervasive::unreached(),
                }
            },
            _ => Ok(None),
        }
    }

    /// Consume a string literal and decode it as a name.
    fn parse_name(&mut self) -> (r: PResult<String>)
        ensures
            (match r {
                Ok(nm) => old(self).toks().len() >= 1 && spec_name_tok(old(self).toks()[0])
                    == Some(nm@) && old(self).advanced(*final(self), 1),
                Err(e) => e.bounded_chain() && ({
                    let t = old(self).toks();
                    &&& (t.len() >= 1 ==> (match t[0] {
                        SpecTok::StrLit(lit) => (match spec_escape_text(lit) {
                            Err(TextFault::Esc(f)) => e.kind matches ErrorKind::InvalidStringLiteral {
                                lit: l,
                                reason: rs,
                            } && l@ == lit && rs@ == spec_esc_reason(f),
                            Err(TextFault::NotText) => e.kind is Utf8Error,
                            Ok(_) => true,
                        }),
                        _ => e.kind is Unexpected,
                    }))
                    &&& (t.len() == 0 && old(self).clean() ==> e.kind is Unexpected)
                    &&& (t.len() == 0 && !old(self).clean() ==> e.kind is Lex)
                }),
            }),
            old(self).toks().len() >= 1 && spec_name_tok(old(self).toks()[0]) is Some ==> r is Ok,
    {
        let lit = match self.consume()? {
            Some(Tok::StrLit(s)) => s,
            x => {
                return self.unexpected_token(x, "string literal");
            },
        };
        match parse_escaped_text(lit.as_str()) {
            Ok(t) => Ok(t),
            Err(TextFault::Esc(f)) => {
                let reason = esc_reason(f);
                self.fail(ErrorKind::InvalidStringLiteral { lit, reason })
            },
            Err(TextFault::NotText) => self.fail(ErrorKind::Utf8Error),
        }
    }
}

/// The reason text each escape fault carries.
pub open spec fn spec_esc_reason(f: EscFault) -> Seq<char> {
    match f {
        EscFault::BadUnicode => "invalid \\u{xxxx} format"@,
        EscFault::BadCodePoint => "invalid code point in \\u{xxxx}"@,
        EscFault::BadHexPair => "invalid \\XX format"@,
    }
}

/// The reason text for a malformed escape.
fn esc_reason(f: EscFault) -> (r: String)
    ensures
        r@ == spec_esc_reason(f),
{
    match f {
        EscFault::BadUnicode => String::from_str("invalid \\u{xxxx} format"),
        EscFault::BadCodePoint => String::from_str("invalid code point in \\u{xxxx}"),
        EscFault::BadHexPair => String::from_str("invalid \\XX format"),
    }
}


/// The error kind a constant value token's failure carries under its keyword.
pub open spec fn spec_const_val_err(kw: Seq<char>, vt: SpecTok, k: ErrorKind) -> bool {
    match vt {
        SpecTok::Int(sg, b, d) => {
            &&& (kw == "i32.const"@ ==> (match spec_decode_i32(sg, b, d) {
                Err(IntDecodeErr::TooSmall(u)) => k matches ErrorKind::TooSmallInt { digits, .. }
                    && digits == u,
                Err(IntDecodeErr::Fault(f)) => k matches ErrorKind::InvalidInt { fault, .. }
                    && fault == f,
                Ok(_) => true,
            }))
            &&& ((kw == "i64.const"@ || kw == "f32.const"@ || kw == "f64.const"@) ==> (
            match spec_decode_i64(sg, b, d) {
                Err(IntDecodeErr::TooSmall(u)) => k matches ErrorKind::TooSmallInt { digits, .. }
                    && digits == u,
                Err(IntDecodeErr::Fault(f)) => k matches ErrorKind::InvalidInt { fault, .. }
                    && fault == f,
                Ok(_) => true,
            }))
        },
        SpecTok::Float(_sg2, SpecFloatTok::Val { base, frac, exp }) => {
            &&& (kw == "f32.const"@ && base == LitBase::Hex && spec_hex_bits(
                frac,
                exp,
                24,
                -149i64,
                INF32 as u64,
                255,
            ) is None ==> k is InvalidHexFloat)
            &&& (kw == "f32.const"@ && base == LitBase::Dec && spec_dec_bits(
                frac,
                exp,
                24,
                -149i64,
                INF32 as u64,
                255,
            ) is None ==> k is InvalidFloat)
            &&& (kw == "f64.const"@ && base == LitBase::Hex && spec_hex_bits(
                frac,
                exp,
                53,
                -1074i64,
                INF64,
                2047,
            ) is None ==> k is InvalidHexFloat)
            &&& (kw == "f64.const"@ && base == LitBase::Dec && spec_dec_bits(
                frac,
                exp,
                53,
                -1074i64,
                INF64,
                2047,
            ) is None ==> k is InvalidFloat)
        },
        SpecTok::Keyword(k2) => ((kw == "f32.const"@ || kw == "f64.const"@) && k2
            != "nan:canonical"@ && k2 != "nan:arithmetic"@ ==> k is Unexpected) && ((kw
            == "i32.const"@ || kw == "i64.const"@) ==> k is Unexpected),
        vt2 => ((kw == "i32.const"@ || kw == "i64.const"@) && !(vt2 is Int) ==> k is Unexpected)
            && ((kw == "f32.const"@ || kw == "f64.const"@) && !(vt2 is Int) && !(vt2 is Float)
            && !(vt2 is Keyword) ==> k is Unexpected),
    }
}

/// The error kind a failing constant parse carries, tied to its cause: the
/// integer decoders' range and format faults, the float decoders' failures
/// by base, the lexical fault, and the unexpected-token error for every
/// wrong shape.
#[verifier::opaque]
pub open spec fn spec_const_err(t_all: Seq<SpecTok>, clean: bool, k: ErrorKind) -> bool {
    {

                    let t = t_all;
                    &&& (k is Lex ==> !clean)
                    &&& (t.len() >= 1 && t[0] != SpecTok::LParen ==> k is Unexpected)
                    &&& (t.len() >= 2 && t[0] == SpecTok::LParen && !(t[1] is Keyword)
                        ==> k is Unexpected)
                    &&& (t.len() >= 2 && t[0] == SpecTok::LParen && (match t[1] {
                        SpecTok::Keyword(kw) => kw != "i32.const"@ && kw != "i64.const"@ && kw
                            != "f32.const"@ && kw != "f64.const"@,
                        _ => false,
                    }) ==> k is Unexpected)
                    &&& (t.len() >= 3 && t[0] == SpecTok::LParen ==> (match t[1] {
                        SpecTok::Keyword(kw) => spec_const_val_err(kw, t[2], k),
                        _ => true,
                    }))
                    &&& (t.len() >= 4 && t[0] == SpecTok::LParen && t[3] != SpecTok::RParen && (
                    match t[1] {
                        SpecTok::Keyword(kw) => spec_const_val(kw, t[2]) is Some,
                        _ => false,
                    }) ==> k is Unexpected)
                    }
}

impl<'s> Parser<'s> {
    /// Parse one constant: `(` `<ty>.const` value `)`. Succeeds exactly on a
    /// well-formed constant form, yielding its exact decoded value; a failure
    /// carries the error kind its cause names.
    #[verifier::rlimit(100)]
    #[verifier::spinoff_prover]
    pub fn parse_const(&mut self) -> (r: PResult<Const>)
        ensures
            (match r {
                Ok(c) => spec_const_form(old(self).toks()) == Some(c) && old(self).advanced(
                    *final(self),
                    4,
                ),
                Err(e) => e.bounded_chain() && spec_const_form(old(self).toks()) is None
                    && spec_const_err(old(self).toks(), old(self).clean(), e.kind),
            }),
            spec_const_form(old(self).toks()) is Some ==> r is Ok,
    {
        proof {
            reveal(spec_const_err);
            reveal_strlit("i32.const");
            reveal_strlit("i64.const");
            reveal_strlit("f32.const");
            reveal_strlit("f64.const");
            assert("i32.const"@[0] != "f32.const"@[0]);
            assert("i32.const"@[0] != "f64.const"@[0]);
            assert("i64.const"@[0] != "f32.const"@[0]);
            assert("i64.const"@[0] != "f64.const"@[0]);
            assert("i32.const"@[1] != "i64.const"@[1]);
            assert("f32.const"@[1] != "f64.const"@[1]);
            if old(self).toks().len() >= 4 {
                assert(old(self).toks().skip(1).skip(1).skip(1).skip(1) =~= old(self).toks().skip(
                    4,
                ));
                assert(old(self).toks().skip(1)[0] == old(self).toks()[1]);
                assert(old(self).toks().skip(1).skip(1)[0] == old(self).toks()[2]);
                assert(old(self).toks().skip(1).skip(1).skip(1)[0] == old(self).toks()[3]);
            }
        }
        match self.consume()? {
            Some(Tok::LParen) => {},
            x => {
                return self.unexpected_token(x, "'(' for constant");
            },
        }
        let kw = match self.consume()? {
            Some(Tok::Keyword(k)) => k,
            x => {
                return self.unexpected_token(x, "keyword for constant");
            },
        };
        let is_i32 = str_eq(kw.as_str(), "i32.const");
        let is_i64 = str_eq(kw.as_str(), "i64.const");
        let is_f32 = str_eq(kw.as_str(), "f32.const");
        let is_f64 = str_eq(kw.as_str(), "f64.const");
        if !(is_i32 || is_i64 || is_f32 || is_f64) {
            return self.unexpected_token(Some(Tok::Keyword(kw)), "t.const for constant");
        }
        let vt = match self.consume()? {
            Some(t) => t,
            x => {
                return self.unexpected_token(x, "value for constant");
            },
        };
        let c: Const = if is_i32 {
            match vt {
                Tok::Int(sg, b, d) => match decode_i32(sg, b, d.as_str()) {
                    Ok(v) => Const::I32(v),
                    Err(IntDecodeErr::TooSmall(u)) => {
                        return self.fail(
                            ErrorKind::TooSmallInt { ty: String::from_str("i32"), digits: u },
                        );
                    },
                    Err(IntDecodeErr::Fault(f)) => {
                        return self.fail(
                            ErrorKind::InvalidInt { ty: String::from_str("i32"), fault: f },
                        );
                    },
                },
                x => {
                    return self.unexpected_token(Some(x), "i32 value");
                },
            }
        } else if is_i64 {
            match vt {
                Tok::Int(sg, b, d) => match decode_i64(sg, b, d.as_str()) {
                    Ok(v) => Const::I64(v),
                    Err(IntDecodeErr::TooSmall(u)) => {
                        return self.fail(
                            ErrorKind::TooSmallInt { ty: String::from_str("i64"), digits: u },
                        );
                    },
                    Err(IntDecodeErr::Fault(f)) => {
                        return self.fail(
                            ErrorKind::InvalidInt { ty: String::from_str("i64"), fault: f },
                        );
                    },
                },
                x => {
                    return self.unexpected_token(Some(x), "i64 value");
                },
            }
        } else if is_f32 {
            match vt {
                Tok::Keyword(k) => {
                    if str_eq(k.as_str(), "nan:canonical") {
                        Const::CanonicalNan
                    } else if str_eq(k.as_str(), "nan:arithmetic") {
                        Const::ArithmeticNan
                    } else {
                        return self.unexpected_token(
                            Some(Tok::Keyword(k)),
                            "single-precision value",
                        );
                    }
                },
                Tok::Int(sg, b, d) => match decode_i64(sg, b, d.as_str()) {
                    Ok(v) => Const::Fp32(
                        #[verifier::truncate] (int_bits(v, 24, -149, INF32 as u64, 255) as u32),
                    ),
                    Err(IntDecodeErr::TooSmall(u)) => {
                        return self.fail(
                            ErrorKind::TooSmallInt { ty: String::from_str("i64"), digits: u },
                        );
                    },
                    Err(IntDecodeErr::Fault(f)) => {
                        return self.fail(
                            ErrorKind::InvalidInt { ty: String::from_str("i64"), fault: f },
                        );
                    },
                },
                Tok::Float(sg, FloatTok::Nan(_)) => Const::Fp32(
                    signed32(QNAN32, matches!(sg, LitSign::Minus)),
                ),
                Tok::Float(sg, FloatTok::Inf) => Const::Fp32(
                    signed32(INF32, matches!(sg, LitSign::Minus)),
                ),
                Tok::Float(sg, FloatTok::Val { base, frac, exp }) => {
                    let es: LitSign = match &exp {
                        Some((s2, _)) => *s2,
                        None => LitSign::Plus,
                    };
                    let ed: Option<&str> = match &exp {
                        Some((_, d2)) => Some(d2.as_str()),
                        None => None,
                    };
                    let hex = matches!(base, LitBase::Hex);
                    let bits = if hex {
                        hex_bits(frac.as_str(), es, ed, 24, -149, INF32 as u64, 255)
                    } else {
                        dec_bits(frac.as_str(), es, ed, 24, -149, INF32 as u64, 255)
                    };
                    match bits {
                        Some(b) => Const::Fp32(
                            signed32(#[verifier::truncate] (b as u32), matches!(sg, LitSign::Minus)),
                        ),
                        None => {
                            if hex {
                                return self.fail(
                                    ErrorKind::InvalidHexFloat { ty: String::from_str("float32") },
                                );
                            } else {
                                return self.fail(
                                    ErrorKind::InvalidFloat { ty: String::from_str("float32") },
                                );
                            }
                        },
                    }
                },
                x => {
                    return self.unexpected_token(Some(x), "single-precision value");
                },
            }
        } else {
            match vt {
                Tok::Keyword(k) => {
                    if str_eq(k.as_str(), "nan:canonical") {
                        Const::CanonicalNan
                    } else if str_eq(k.as_str(), "nan:arithmetic") {
                        Const::ArithmeticNan
                    } else {
                        return self.unexpected_token(
                            Some(Tok::Keyword(k)),
                            "double-precision value",
                        );
                    }
                },
                Tok::Int(sg, b, d) => match decode_i64(sg, b, d.as_str()) {
                    Ok(v) => Const::Fp64(int_bits(v, 53, -1074, INF64, 2047)),
                    Err(IntDecodeErr::TooSmall(u)) => {
                        return self.fail(
                            ErrorKind::TooSmallInt { ty: String::from_str("i64"), digits: u },
                        );
                    },
                    Err(IntDecodeErr::Fault(f)) => {
                        return self.fail(
                            ErrorKind::InvalidInt { ty: String::from_str("i64"), fault: f },
                        );
                    },
                },
                Tok::Float(sg, FloatTok::Nan(_)) => Const::Fp64(
                    signed64(QNAN64, matches!(sg, LitSign::Minus)),
                ),
                Tok::Float(sg, FloatTok::Inf) => Const::Fp64(
                    signed64(INF64, matches!(sg, LitSign::Minus)),
                ),
                Tok::Float(sg, FloatTok::Val { base, frac, exp }) => {
                    let es: LitSign = match &exp {
                        Some((s2, _)) => *s2,
                        None => LitSign::Plus,
                    };
                    let ed: Option<&str> = match &exp {
                        Some((_, d2)) => Some(d2.as_str()),
                        None => None,
                    };
                    let hex = matches!(base, LitBase::Hex);
                    let bits = if hex {
                        hex_bits(frac.as_str(), es, ed, 53, -1074, INF64, 2047)
                    } else {
                        dec_bits(frac.as_str(), es, ed, 53, -1074, INF64, 2047)
                    };
                    match bits {
                        Some(b) => Const::Fp64(signed64(b, matches!(sg, LitSign::Minus))),
                        None => {
                            if hex {
                                return self.fail(
                                    ErrorKind::InvalidHexFloat { ty: String::from_str("float64") },
                                );
                            } else {
                                return self.fail(
                                    ErrorKind::InvalidFloat { ty: String::from_str("float64") },
                                );
                            }
                        },
                    }
                },
                x => {
                    return self.unexpected_token(Some(x), "double-precision value");
                },
            }
        };
        match self.consume()? {
            Some(Tok::RParen) => {},
            x => {
                return self.unexpected_token(x, "')' for constant");
            },
        }
        Ok(c)
    }
}


/// A register form: `(` `register` name id? `)`.
pub open spec fn spec_register_form(t: Seq<SpecTok>) -> Option<(Seq<char>, Option<Seq<char>>, int)> {
    if t.len() >= 3 && t[0] == SpecTok::LParen && t[1] == SpecTok::Keyword("register"@) {
        match spec_name_tok(t[2]) {
            None => None,
            Some(nm) => {
                let (id, k) = spec_maybe_id(t.skip(3));
                if t.len() > 3 + k && t[3 + k] == SpecTok::RParen {
                    Some((nm, id, 4 + k))
                } else {
                    None
                }
            },
        }
    } else {
        None
    }
}

/// A global-read form: `(` `get` id? name `)`.
pub open spec fn spec_get_form(t: Seq<SpecTok>) -> Option<(Option<Seq<char>>, Seq<char>, int)> {
    if t.len() >= 2 && t[0] == SpecTok::LParen && t[1] == SpecTok::Keyword("get"@) {
        let (id, k) = spec_maybe_id(t.skip(2));
        if t.len() > 3 + k && spec_name_tok(t[2 + k]) is Some && t[3 + k] == SpecTok::RParen {
            Some((id, spec_name_tok(t[2 + k]).unwrap(), 4 + k))
        } else {
            None
        }
    } else {
        None
    }
}

impl<'s> Parser<'s> {
    /// Parse `(invoke id? name constant*)`. Succeeds exactly on a well-formed
    /// invoke form (given the stream continues past it or lexes cleanly),
    /// yielding its exact fields.
    #[verifier::loop_isolation(false)]
    #[verifier::rlimit(100)]
    #[verifier::spinoff_prover]
    pub fn parse_invoke(&mut self) -> (r: PResult<Invoke>)
        ensures
            (match r {
                Ok(inv) => {
                    let f = spec_invoke_form(old(self).toks());
                    f == Some((opt_str_view(inv.id), inv.name@, inv.args@, f.unwrap().3))
                        && old(self).advanced(*final(self), f.unwrap().3)
                },
                Err(e) => e.bounded_chain(),
            }),
            spec_invoke_form(old(self).toks()) is Some && (old(self).clean() || old(
                self,
            ).toks().len() > spec_invoke_form(old(self).toks()).unwrap().3) ==> r is Ok,
    {
        let ghost t0 = old(self).toks();
        let start = self.parse_start("invoke")?;
        let id = self.parse_maybe_id()?;
        let ghost k: int = if id is Some {
            1int
        } else {
            0int
        };
        proof {
            if t0.len() >= 3 {
                assert(t0.skip(2).skip(1) =~= t0.skip(3));
            }
            assert(self.toks() =~= t0.skip(2 + k));
            if t0.skip(2 + k).len() > 0 {
                assert(t0.skip(2 + k)[0] == t0[2 + k]);
            }
        }
        let name = self.parse_name()?;
        proof {
            assert(t0.skip(2 + k).skip(1) =~= t0.skip(3 + k));
        }
        let ghost base = t0.skip(3 + k);
        let mut args: Vec<Const> = Vec::new();
        proof {
            assert(base.skip(0) =~= base);
        }
        loop
            invariant
                self.toks() == base.skip(4 * args@.len() as int),
                self.clean() == old(self).clean(),
                4 * args@.len() <= base.len(),
                (match spec_const_list(base) {
                    Some((cs, m)) => spec_const_list(self.toks()) matches Some((cs2, m2))
                        && cs == args@ + cs2 && m == 4 * args@.len() + m2,
                    None => spec_const_list(self.toks()) is None,
                }),
            decreases base.len() - 4 * args@.len(),
        {
            let (t1, _) = match self.peek() {
                Ok(p) => p,
                Err(e) => {
                    return Err(e);
                },
            };
            match t1 {
                Some(Tok::LParen) => {},
                _ => {
                    break ;
                },
            }
            let ghost pre = self.toks();
            let c = self.parse_const()?;
            args.push(c);
            proof {
                assert(base.skip(4 * (args@.len() - 1)).skip(4) =~= base.skip(4 * args@.len() as int));
                assert(args@.drop_last() + seq![c] + spec_const_list(self.toks()).unwrap_or(
                    (Seq::empty(), 0),
                ).0 =~= args@ + spec_const_list(self.toks()).unwrap_or((Seq::empty(), 0)).0);
                if spec_const_list(base) is Some {
                    assert((args@.drop_last() + (seq![c] + spec_const_list(
                        self.toks(),
                    ).unwrap_or((Seq::empty(), 0)).0)) =~= (args@ + spec_const_list(
                        self.toks(),
                    ).unwrap_or((Seq::empty(), 0)).0));
                }
            }
        }
        let ghost m = 4 * args@.len() as int;
        proof {
            assert(spec_const_list(self.toks()) == Some((Seq::<Const>::empty(), 0int)));
            if spec_const_list(base) is Some {
                assert(args@ + Seq::<Const>::empty() =~= args@);
            }
            if self.toks().len() > 0 {
                assert(self.toks()[0] == t0[3 + k + m]);
            }
        }
        match self.consume()? {
            Some(Tok::RParen) => {},
            x => {
                return self.unexpected_token(x, "')' for invoke");
            },
        }
        proof {
            assert(base.skip(m).skip(1) =~= t0.skip(4 + k + m));
        }
        Ok(Invoke { start, id, name, args })
    }

    /// Parse `(register name id?)`. Succeeds exactly on a well-formed
    /// register form (given the stream continues past it or lexes cleanly).
    pub fn parse_register(&mut self) -> (r: PResult<Register>)
        ensures
            (match r {
                Ok(rg) => {
                    let f = spec_register_form(old(self).toks());
                    f == Some((rg.name@, opt_str_view(rg.id), f.unwrap().2)) && old(self).advanced(
                        *final(self),
                        f.unwrap().2,
                    )
                },
                Err(e) => e.bounded_chain(),
            }),
            spec_register_form(old(self).toks()) is Some && (old(self).clean() || old(
                self,
            ).toks().len() > spec_register_form(old(self).toks()).unwrap().2) ==> r is Ok,
    {
        let ghost t0 = old(self).toks();
        let start = self.parse_start("register")?;
        proof {
            if t0.len() > 2 {
                assert(t0.skip(2)[0] == t0[2]);
            }
        }
        let name = self.parse_name()?;
        proof {
            assert(t0.skip(2).skip(1) =~= t0.skip(3));
        }
        let id = self.parse_maybe_id()?;
        let ghost k: int = if id is Some {
            1int
        } else {
            0int
        };
        proof {
            if t0.len() >= 4 {
                assert(t0.skip(3).skip(1) =~= t0.skip(4));
            }
            assert(self.toks() =~= t0.skip(3 + k));
            if t0.skip(3 + k).len() > 0 {
                assert(t0.skip(3 + k)[0] == t0[3 + k]);
            }
        }
        match self.consume()? {
            Some(Tok::RParen) => {},
            x => {
                return self.unexpected_token(x, "')' for register");
            },
        }
        proof {
            assert(t0.skip(3 + k).skip(1) =~= t0.skip(4 + k));
        }
        Ok(Register { start, name, id })
    }

    /// Parse `(get id? name)`. Succeeds exactly on a well-formed global-read
    /// form.
    pub fn parse_get(&mut self) -> (r: PResult<GetGlobal>)
        ensures
            (match r {
                Ok(g) => {
                    let f = spec_get_form(old(self).toks());
                    f == Some((opt_str_view(g.id), g.name@, f.unwrap().2)) && old(self).advanced(
                        *final(self),
                        f.unwrap().2,
                    )
                },
                Err(e) => e.bounded_chain(),
            }),
            spec_get_form(old(self).toks()) is Some ==> r is Ok,
    {
        let ghost t0 = old(self).toks();
        let start = self.parse_start("get")?;
        let id = self.parse_maybe_id()?;
        let ghost k: int = if id is Some {
            1int
        } else {
            0int
        };
        proof {
            if t0.len() >= 3 {
                assert(t0.skip(2).skip(1) =~= t0.skip(3));
            }
            assert(self.toks() =~= t0.skip(2 + k));
            if t0.skip(2 + k).len() > 0 {
                assert(t0.skip(2 + k)[0] == t0[2 + k]);
            }
        }
        let name = self.parse_name()?;
        proof {
            assert(t0.skip(2 + k).skip(1) =~= t0.skip(3 + k));
            if t0.skip(3 + k).len() > 0 {
                assert(t0.skip(3 + k)[0] == t0[3 + k]);
            }
        }
        match self.consume()? {
            Some(Tok::RParen) => {},
            x => {
                return self.unexpected_token(x, "')' for get");
            },
        }
        proof {
            assert(t0.skip(3 + k).skip(1) =~= t0.skip(4 + k));
        }
        Ok(GetGlobal { start, id, name })
    }
}


impl<'s> Parser<'s> {
    /// Parse `(module id? (quote|binary) string*)`. Succeeds exactly on a
    /// well-formed embedded-module form, yielding the concatenated decoded
    /// payload.
    #[verifier::loop_isolation(false)]
    #[verifier::rlimit(60)]
    pub fn parse_embedded(&mut self) -> (r: PResult<EmbeddedModule>)
        ensures
            (match r {
                Ok(em) => {
                    let f = spec_embedded_form(old(self).toks());
                    f is Some && (match em.embedded {
                        Embedded::Quote(txt) => f.unwrap().0 == SpecEmbedded::Quote(txt@),
                        Embedded::Binary(b) => f.unwrap().0 == SpecEmbedded::Binary(b@),
                    }) && old(self).advanced(*final(self), f.unwrap().1)
                },
                Err(e) => e.bounded_chain() && ({
                    let t = old(self).toks();
                    let k = spec_maybe_id(t.skip(2)).1;
                    (t.len() >= 2 && t[0] == SpecTok::LParen && t[1] == SpecTok::Keyword("module"@)
                        && (old(self).clean() || t.len() >= 4) && t.len() > 2 + k && (match t[2
                        + k] {
                        SpecTok::Keyword(kw2) => kw2 != "quote"@ && kw2 != "binary"@,
                        _ => true,
                    }) ==> e.kind is Unexpected)
                }),
            }),
            spec_embedded_form(old(self).toks()) is Some ==> r is Ok,
            r is Err ==> spec_embedded_form(old(self).toks()) is None,
    {
        let ghost t0 = old(self).toks();
        let start = self.parse_start("module")?;
        let id = self.parse_maybe_id()?;
        let ghost k: int = if id is Some {
            1int
        } else {
            0int
        };
        proof {
            if t0.len() >= 3 {
                assert(t0.skip(2).skip(1) =~= t0.skip(3));
            }
            assert(self.toks() =~= t0.skip(2 + k));
            if t0.skip(2 + k).len() > 0 {
                assert(t0.skip(2 + k)[0] == t0[2 + k]);
            }
        }
        let quote = match self.consume()? {
            Some(Tok::Keyword(kw)) => {
                if str_eq(kw.as_str(), "quote") {
                    true
                } else if str_eq(kw.as_str(), "binary") {
                    false
                } else {
                    return self.unexpected_token(
                        Some(Tok::Keyword(kw)),
                        "keyword 'quote' or 'binary'",
                    );
                }
            },
            x => {
                return self.unexpected_token(x, "keyword 'quote' or 'binary'");
            },
        };
        proof {
            assert(t0.skip(2 + k).skip(1) =~= t0.skip(3 + k));
        }
        let ghost base = t0.skip(3 + k);
        let ghost mut j: int = 0;
        proof {
            assert(base.skip(0) =~= base);
        }
        if quote {
            let mut text = String::new();
            loop
                invariant
                    0 <= j <= base.len(),
                    self.toks() == base.skip(j),
                    self.clean() == old(self).clean(),
                    (match spec_quote_items(base) {
                        Some((cs, m)) => spec_quote_items(self.toks()) matches Some((cs2, m2))
                            && cs == text@ + cs2 && m == j + m2,
                        None => spec_quote_items(self.toks()) is None,
                    }),
                decreases base.len() - j,
            {
                let ghost pre = self.toks();
                match self.consume()? {
                    Some(Tok::StrLit(lit)) => {
                        match parse_escaped_text(lit.as_str()) {
                            Ok(t) => {
                                let ghost tpre = text@;
                                text.append(t.as_str());
                                proof {
                                    j = j + 1;
                                    assert(pre.skip(1) =~= base.skip(j));
                                    if spec_quote_items(base) is Some {
                                        assert(tpre + (t@ + spec_quote_items(
                                            self.toks(),
                                        ).unwrap_or((Seq::empty(), 0)).0) =~= text@
                                            + spec_quote_items(self.toks()).unwrap_or(
                                            (Seq::empty(), 0),
                                        ).0);
                                    }
                                }
                            },
                            Err(TextFault::Esc(f)) => {
                                let reason = esc_reason(f);
                                return self.fail(ErrorKind::InvalidStringLiteral { lit, reason });
                            },
                            Err(TextFault::NotText) => {
                                return self.fail(ErrorKind::Utf8Error);
                            },
                        }
                    },
                    Some(Tok::RParen) => {
                        proof {
                            if spec_quote_items(base) is Some {
                                assert(text@ + Seq::<char>::empty() =~= text@);
                            }
                            assert(base.skip(j).skip(1) =~= base.skip(j + 1));
                            assert(t0.skip(3 + k).skip(j + 1) =~= t0.skip(3 + k + j + 1));
                        }
                        return Ok(EmbeddedModule { start, embedded: Embedded::Quote(text) });
                    },
                    x => {
                        return self.unexpected_token(x, "string for module quote or ')'");
                    },
                }
            }
        } else {
            let mut bin: Vec<u8> = Vec::new();
            loop
                invariant
                    0 <= j <= base.len(),
                    self.toks() == base.skip(j),
                    self.clean() == old(self).clean(),
                    (match spec_binary_items(base) {
                        Some((bs, m)) => spec_binary_items(self.toks()) matches Some((bs2, m2))
                            && bs == bin@ + bs2 && m == j + m2,
                        None => spec_binary_items(self.toks()) is None,
                    }),
                decreases base.len() - j,
            {
                let ghost pre = self.toks();
                match self.consume()? {
                    Some(Tok::StrLit(lit)) => {
                        match parse_escaped_bytes(lit.as_str()) {
                            Ok(mut b) => {
                                let ghost bpre = bin@;
                                let ghost badd = b@;
                                bin.append(&mut b);
                                proof {
                                    j = j + 1;
                                    assert(pre.skip(1) =~= base.skip(j));
                                    if spec_binary_items(base) is Some {
                                        assert(bpre + (badd + spec_binary_items(
                                            self.toks(),
                                        ).unwrap_or((Seq::empty(), 0)).0) =~= bin@
                                            + spec_binary_items(self.toks()).unwrap_or(
                                            (Seq::empty(), 0),
                                        ).0);
                                    }
                                }
                            },
                            Err(f) => {
                                let reason = esc_reason(f);
                                return self.fail(ErrorKind::InvalidStringLiteral { lit, reason });
                            },
                        }
                    },
                    Some(Tok::RParen) => {
                        proof {
                            if spec_binary_items(base) is Some {
                                assert(bin@ + Seq::<u8>::empty() =~= bin@);
                            }
                            assert(base.skip(j).skip(1) =~= base.skip(j + 1));
                            assert(t0.skip(3 + k).skip(j + 1) =~= t0.skip(3 + k + j + 1));
                        }
                        return Ok(EmbeddedModule { start, embedded: Embedded::Binary(bin) });
                    },
                    x => {
                        return self.unexpected_token(x, "string for module binary or ')'");
                    },
                }
            }
        }
    }
}


/// A trap/exhaustion assertion form: `(` keyword invoke-form name `)`.
pub open spec fn spec_assert_invoke_form(t: Seq<SpecTok>, kw: Seq<char>) -> Option<
    ((Option<Seq<char>>, Seq<char>, Seq<Const>), Seq<char>, int),
> {
    if t.len() >= 2 && t[0] == SpecTok::LParen && t[1] == SpecTok::Keyword(kw) {
        match spec_invoke_form(t.skip(2)) {
            None => None,
            Some((id, nm, args, n1)) => {
                if t.len() > 3 + n1 && spec_name_tok(t[2 + n1]) is Some && t[3 + n1]
                    == SpecTok::RParen {
                    Some(((id, nm, args), spec_name_tok(t[2 + n1]).unwrap(), 4 + n1))
                } else {
                    None
                }
            },
        }
    } else {
        None
    }
}

/// A malformed-module assertion form: `(` `assert_malformed` embedded-form
/// name `)`.
pub open spec fn spec_assert_malformed_form(t: Seq<SpecTok>) -> Option<
    (SpecEmbedded, Seq<char>, int),
> {
    if t.len() >= 2 && t[0] == SpecTok::LParen && t[1] == SpecTok::Keyword("assert_malformed"@) {
        match spec_embedded_form(t.skip(2)) {
            None => None,
            Some((em, n1)) => {
                if t.len() > 3 + n1 && spec_name_tok(t[2 + n1]) is Some && t[3 + n1]
                    == SpecTok::RParen {
                    Some((em, spec_name_tok(t[2 + n1]).unwrap(), 4 + n1))
                } else {
                    None
                }
            },
        }
    } else {
        None
    }
}


/// A constant list spans at most the tokens it was read from.
pub proof fn lemma_const_list_len(t: Seq<SpecTok>)
    ensures
        (match spec_const_list(t) {
            Some((cs, m)) => 0 <= m <= t.len(),
            None => true,
        }),
    decreases t.len(),
{
    if t.len() == 0 || t[0] != SpecTok::LParen {
    } else {
        match spec_const_form(t) {
            None => {},
            Some(_) => {
                lemma_const_list_len(t.skip(4));
            },
        }
    }
}

/// A well-formed invoke form spans at least four and at most all tokens.
pub proof fn lemma_invoke_form_len(t: Seq<SpecTok>)
    ensures
        (match spec_invoke_form(t) {
            Some((_id, _nm, _args, n)) => 4 <= n <= t.len(),
            None => true,
        }),
{
    if spec_invoke_form(t) is Some {
        let (id, k) = spec_maybe_id(t.skip(2));
        lemma_const_list_len(t.skip(3 + k));
    }
}

/// Quote items span at least one and at most all tokens.
pub proof fn lemma_quote_items_len(t: Seq<SpecTok>)
    ensures
        (match spec_quote_items(t) {
            Some((_cs, m)) => 1 <= m <= t.len(),
            None => true,
        }),
    decreases t.len(),
{
    if t.len() == 0 {
    } else {
        match t[0] {
            SpecTok::StrLit(_) => {
                lemma_quote_items_len(t.skip(1));
            },
            _ => {},
        }
    }
}

/// Binary items span at least one and at most all tokens.
pub proof fn lemma_binary_items_len(t: Seq<SpecTok>)
    ensures
        (match spec_binary_items(t) {
            Some((_bs, m)) => 1 <= m <= t.len(),
            None => true,
        }),
    decreases t.len(),
{
    if t.len() == 0 {
    } else {
        match t[0] {
            SpecTok::StrLit(_) => {
                lemma_binary_items_len(t.skip(1));
            },
            _ => {},
        }
    }
}

/// A well-formed embedded-module form spans at least four and at most all
/// tokens.
pub proof fn lemma_embedded_form_len(t: Seq<SpecTok>)
    ensures
        (match spec_embedded_form(t) {
            Some((_em, n)) => 4 <= n <= t.len(),
            None => true,
        }),
{
    if spec_embedded_form(t) is Some {
        let (_id, k) = spec_maybe_id(t.skip(2));
        lemma_quote_items_len(t.skip(3 + k));
        lemma_binary_items_len(t.skip(3 + k));
    }
}

impl<'s> Parser<'s> {
    /// Parse `(assert_trap (invoke ...) message)`. Succeeds exactly on the
    /// well-formed form.
    #[verifier::rlimit(60)]
    pub fn parse_assert_trap(&mut self) -> (r: PResult<AssertTrap>)
        ensures
            (match r {
                Ok(a) => {
                    let f = spec_assert_invoke_form(old(self).toks(), "assert_trap"@);
                    f is Some && f.unwrap().0 == (
                        opt_str_view(a.invoke.id),
                        a.invoke.name@,
                        a.invoke.args@,
                    ) && f.unwrap().1 == a.expected@ && old(self).advanced(
                        *final(self),
                        f.unwrap().2,
                    )
                },
                Err(e) => e.bounded_chain(),
            }),
            spec_assert_invoke_form(old(self).toks(), "assert_trap"@) is Some ==> r is Ok,
    {
        let ghost t0 = old(self).toks();
        let start = self.parse_start("assert_trap")?;
        let invoke = self.parse_invoke()?;
        let ghost n1 = spec_invoke_form(t0.skip(2)).unwrap().3;
        proof {
            lemma_invoke_form_len(t0.skip(2));
            assert(t0.skip(2).skip(n1) =~= t0.skip(2 + n1));
            if t0.skip(2 + n1).len() > 0 {
                assert(t0.skip(2 + n1)[0] == t0[2 + n1]);
            }
        }
        let expected = self.parse_name()?;
        proof {
            assert(t0.skip(2 + n1).skip(1) =~= t0.skip(3 + n1));
            if t0.skip(3 + n1).len() > 0 {
                assert(t0.skip(3 + n1)[0] == t0[3 + n1]);
            }
        }
        match self.consume()? {
            Some(Tok::RParen) => {},
            x => {
                return self.unexpected_token(x, "')' for assert_trap");
            },
        }
        proof {
            assert(t0.skip(3 + n1).skip(1) =~= t0.skip(4 + n1));
        }
        Ok(AssertTrap { start, invoke, expected })
    }

    /// Parse `(assert_exhaustion (invoke ...) message)`. Succeeds exactly on
    /// the well-formed form.
    #[verifier::rlimit(60)]
    pub fn parse_assert_exhaustion(&mut self) -> (r: PResult<AssertExhaustion>)
        ensures
            (match r {
                Ok(a) => {
                    let f = spec_assert_invoke_form(old(self).toks(), "assert_exhaustion"@);
                    f is Some && f.unwrap().0 == (
                        opt_str_view(a.invoke.id),
                        a.invoke.name@,
                        a.invoke.args@,
                    ) && f.unwrap().1 == a.expected@ && old(self).advanced(
                        *final(self),
                        f.unwrap().2,
                    )
                },
                Err(e) => e.bounded_chain(),
            }),
            spec_assert_invoke_form(old(self).toks(), "assert_exhaustion"@) is Some ==> r is Ok,
    {
        let ghost t0 = old(self).toks();
        let start = self.parse_start("assert_exhaustion")?;
        let invoke = self.parse_invoke()?;
        let ghost n1 = spec_invoke_form(t0.skip(2)).unwrap().3;
        proof {
            lemma_invoke_form_len(t0.skip(2));
            assert(t0.skip(2).skip(n1) =~= t0.skip(2 + n1));
            if t0.skip(2 + n1).len() > 0 {
                assert(t0.skip(2 + n1)[0] == t0[2 + n1]);
            }
        }
        let expected = self.parse_name()?;
        proof {
            assert(t0.skip(2 + n1).skip(1) =~= t0.skip(3 + n1));
            if t0.skip(3 + n1).len() > 0 {
                assert(t0.skip(3 + n1)[0] == t0[3 + n1]);
            }
        }
        match self.consume()? {
            Some(Tok::RParen) => {},
            x => {
                return self.unexpected_token(x, "')' for assert_exhaustion");
            },
        }
        proof {
            assert(t0.skip(3 + n1).skip(1) =~= t0.skip(4 + n1));
        }
        Ok(AssertExhaustion { start, invoke, expected })
    }

    /// Parse `(assert_malformed (module ...) message)`. Succeeds exactly on
    /// the well-formed form with an embedded module.
    #[verifier::rlimit(60)]
    pub fn parse_assert_malformed(&mut self) -> (r: PResult<AssertMalformed>)
        ensures
            (match r {
                Ok(a) => {
                    let f = spec_assert_malformed_form(old(self).toks());
                    f is Some && (match a.module.embedded {
                        Embedded::Quote(txt) => f.unwrap().0 == SpecEmbedded::Quote(txt@),
                        Embedded::Binary(b) => f.unwrap().0 == SpecEmbedded::Binary(b@),
                    }) && f.unwrap().1 == a.expected@ && old(self).advanced(
                        *final(self),
                        f.unwrap().2,
                    )
                },
                Err(e) => e.bounded_chain(),
            }),
            spec_assert_malformed_form(old(self).toks()) is Some ==> r is Ok,
    {
        let ghost t0 = old(self).toks();
        let start = self.parse_start("assert_malformed")?;
        let module = self.parse_embedded()?;
        let ghost n1 = spec_embedded_form(t0.skip(2)).unwrap().1;
        proof {
            lemma_embedded_form_len(t0.skip(2));
            assert(t0.skip(2).skip(n1) =~= t0.skip(2 + n1));
            if t0.skip(2 + n1).len() > 0 {
                assert(t0.skip(2 + n1)[0] == t0[2 + n1]);
            }
        }
        let expected = self.parse_name()?;
        proof {
            assert(t0.skip(2 + n1).skip(1) =~= t0.skip(3 + n1));
            if t0.skip(3 + n1).len() > 0 {
                assert(t0.skip(3 + n1)[0] == t0[3 + n1]);
            }
        }
        match self.consume()? {
            Some(Tok::RParen) => {},
            x => {
                return self.unexpected_token(x, "')' for assert_malformed");
            },
        }
        proof {
            assert(t0.skip(3 + n1).skip(1) =~= t0.skip(4 + n1));
        }
        Ok(AssertMalformed { start, module, expected })
    }
}


/// The two assert_return payloads.
pub ghost enum SpecAR {
    Inv(Option<Seq<char>>, Seq<char>, Seq<Const>, Option<Const>),
    Glob(Option<Seq<char>>, Seq<char>, Const),
}

/// A well-formed get form spans at least four and at most all tokens.
pub proof fn lemma_get_form_len(t: Seq<SpecTok>)
    ensures
        (match spec_get_form(t) {
            Some((_id, _nm, n)) => 4 <= n <= t.len(),
            None => true,
        }),
{
}

/// A return assertion form: `(` `assert_return` (invoke-form constant? |
/// get-form constant) `)`.
pub open spec fn spec_assert_return_form(t: Seq<SpecTok>) -> Option<(SpecAR, int)> {
    if t.len() >= 4 && t[0] == SpecTok::LParen && t[1] == SpecTok::Keyword("assert_return"@)
        && t[2] == SpecTok::LParen {
        if t[3] == SpecTok::Keyword("invoke"@) {
            match spec_invoke_form(t.skip(2)) {
                None => None,
                Some((id, nm, args, n1)) => {
                    let rest = t.skip(2 + n1);
                    if rest.len() > 0 && rest[0] == SpecTok::LParen {
                        match spec_const_form(rest) {
                            None => None,
                            Some(c) => {
                                if rest.len() > 4 && rest[4] == SpecTok::RParen {
                                    Some((SpecAR::Inv(id, nm, args, Some(c)), 2 + n1 + 5))
                                } else {
                                    None
                                }
                            },
                        }
                    } else if rest.len() > 0 && rest[0] == SpecTok::RParen {
                        Some((SpecAR::Inv(id, nm, args, None), 2 + n1 + 1))
                    } else {
                        None
                    }
                },
            }
        } else if t[3] == SpecTok::Keyword("get"@) {
            match spec_get_form(t.skip(2)) {
                None => None,
                Some((id, nm, n1)) => {
                    let rest = t.skip(2 + n1);
                    match spec_const_form(rest) {
                        None => None,
                        Some(c) => {
                            if rest.len() > 4 && rest[4] == SpecTok::RParen {
                                Some((SpecAR::Glob(id, nm, c), 2 + n1 + 5))
                            } else {
                                None
                            }
                        },
                    }
                },
            }
        } else {
            None
        }
    } else {
        None
    }
}

impl<'s> Parser<'s> {
    /// Parse `(assert_return action expected?)`. Succeeds exactly on the
    /// well-formed form (given the stream continues past it or lexes
    /// cleanly), yielding the action and the exact expected constant.
    #[verifier::loop_isolation(false)]
    #[verifier::rlimit(100)]
    pub fn parse_assert_return(&mut self) -> (r: PResult<AssertReturn>)
        ensures
            (match r {
                Ok(a) => {
                    let f = spec_assert_return_form(old(self).toks());
                    f is Some && (match a {
                        AssertReturn::Invoke { start, invoke, expected } => f.unwrap().0
                            == SpecAR::Inv(
                            opt_str_view(invoke.id),
                            invoke.name@,
                            invoke.args@,
                            expected,
                        ),
                        AssertReturn::Global { start, get, expected } => f.unwrap().0
                            == SpecAR::Glob(opt_str_view(get.id), get.name@, expected),
                    }) && old(self).advanced(*final(self), f.unwrap().1)
                },
                Err(e) => e.bounded_chain() && ({
                    let t = old(self).toks();
                    (t.len() >= 4 && t[0] == SpecTok::LParen && t[1] == SpecTok::Keyword(
                        "assert_return"@,
                    ) && !(t[2] == SpecTok::LParen && (t[3] == SpecTok::Keyword("invoke"@) || t[3]
                        == SpecTok::Keyword("get"@))) ==> e.kind is Unexpected)
                }),
            }),
            spec_assert_return_form(old(self).toks()) is Some && (old(self).clean() || old(
                self,
            ).toks().len() > spec_assert_return_form(old(self).toks()).unwrap().1) ==> r is Ok,
    {
        let ghost t0 = old(self).toks();
        let start = self.parse_start("assert_return")?;
        proof {
            if t0.len() >= 3 {
                assert(t0.skip(2)[0] == t0[2]);
            }
            if t0.len() >= 4 {
                assert(t0.skip(2)[1] == t0[3]);
            }
        }
        let (t1, t2) = match self.peek() {
            Ok(p) => p,
            Err(e) => {
                return Err(e);
            },
        };
        let is_lp = matches!(t1, Some(Tok::LParen));
        let kw_invoke = match &t2 {
            Some(Tok::Keyword(k)) => str_eq(k.as_str(), "invoke"),
            _ => false,
        };
        let kw_get = match &t2 {
            Some(Tok::Keyword(k)) => str_eq(k.as_str(), "get"),
            _ => false,
        };
        if is_lp && kw_invoke {
            let invoke = self.parse_invoke()?;
            let ghost n1 = spec_invoke_form(t0.skip(2)).unwrap().3;
            proof {
                lemma_invoke_form_len(t0.skip(2));
                assert(t0.skip(2).skip(n1) =~= t0.skip(2 + n1));
            }
            let ghost rest = t0.skip(2 + n1);
            let (p1, _) = match self.peek() {
                Ok(p) => p,
                Err(e) => {
                    return Err(e);
                },
            };
            let expected: Option<Const> = if matches!(p1, Some(Tok::LParen)) {
                let c = self.parse_const()?;
                Some(c)
            } else {
                None
            };
            match self.consume()? {
                Some(Tok::RParen) => {},
                x => {
                    return self.unexpected_token(x, "')' for assert_return");
                },
            }
            proof {
                if expected is Some {
                    assert(rest.skip(4)[0] == rest[4]);
                    assert(rest.skip(4).skip(1) =~= t0.skip(2 + n1 + 5));
                } else {
                    assert(rest.skip(1) =~= t0.skip(2 + n1 + 1));
                }
            }
            Ok(AssertReturn::Invoke { start, invoke, expected })
        } else if is_lp && kw_get {
            let get = self.parse_get()?;
            let ghost n1 = spec_get_form(t0.skip(2)).unwrap().2;
            proof {
                lemma_get_form_len(t0.skip(2));
                assert(t0.skip(2).skip(n1) =~= t0.skip(2 + n1));
            }
            let ghost rest = t0.skip(2 + n1);
            let expected = self.parse_const()?;
            match self.consume()? {
                Some(Tok::RParen) => {},
                x => {
                    return self.unexpected_token(x, "')' for assert_return");
                },
            }
            proof {
                assert(rest.skip(4)[0] == rest[4]);
                assert(rest.skip(4).skip(1) =~= t0.skip(2 + n1 + 5));
            }
            Ok(AssertReturn::Global { start, get, expected })
        } else {
            self.unexpected_token(t2, "'(invoke' or '(get' for assert_return")
        }
    }

    /// Parse an inline module argument: the stream must open with `(module`,
    /// and the whole module definition is delegated to the module grammar,
    /// which consumes a non-empty prefix.
    pub fn parse_module_arg(&mut self) -> (r: PResult<crate::lex::InlineModule<'s>>)
        ensures
            (match r {
                Ok(_) => ({
                    let t = old(self).toks();
                    &&& t.len() >= 2
                    &&& t[0] == SpecTok::LParen
                    &&& t[1] == SpecTok::Keyword("module"@)
                    &&& wat_accepts(t)
                    &&& 1 <= wat_consumed(t) <= t.len()
                    &&& old(self).advanced(*final(self), wat_consumed(t))
                }),
                Err(e) => ({
                    let t = old(self).toks();
                    let opens = t.len() >= 2 && t[0] == SpecTok::LParen && t[1]
                        == SpecTok::Keyword("module"@);
                    &&& e.bounded_chain()
                    &&& final(self).toks() == t
                    &&& final(self).clean() == old(self).clean()
                    &&& (e.kind is Lex ==> !old(self).clean())
                    &&& (can_peek(t, old(self).clean()) && !opens ==> e.kind is Unexpected)
                    &&& (can_peek(t, old(self).clean()) && opens ==> e.kind is Wat)
                }),
            }),
            can_peek(old(self).toks(), old(self).clean()) ==> (r is Ok <==> ({
                let t = old(self).toks();
                t.len() >= 2 && t[0] == SpecTok::LParen && t[1] == SpecTok::Keyword("module"@)
                    && wat_accepts(t)
            })),
    {
        let (t1, t2) = match self.peek() {
            Ok(p) => p,
            Err(e) => {
                return Err(e);
            },
        };
        if !matches!(t1, Some(Tok::LParen)) {
            return self.unexpected_token(t1, "starting with '(module' for module argument");
        }
        let is_module = match &t2 {
            Some(Tok::Keyword(k)) => str_eq(k.as_str(), "module"),
            _ => false,
        };
        if !is_module {
            return self.unexpected_token(t2, "starting with '(module' for module argument");
        }
        let cur = la_clone(&self.tokens);
        match compile_inline(cur) {
            Ok((m, la2)) => {
                self.tokens = la2;
                Ok(m)
            },
            Err(e) => {
                let e2 = self.attach_context(e);
                Err(e2)
            },
        }
    }

    /// Attach the discarded speculative error, if any, as one level of
    /// context.
    fn attach_context(&mut self, e: Box<Error>) -> (r: Box<Error>)
        ensures
            r.bounded_chain(),
            r.kind == e.kind,
            r.pos == e.pos,
            old(self).has_ignored() ==> (r.prev_error matches Some(p) && p.prev_error is None),
            !old(self).has_ignored() ==> r.prev_error is None,
            !final(self).has_ignored(),
            final(self).toks() == old(self).toks(),
            final(self).clean() == old(self).clean(),
    {
        let prev = match self.ignored_error.take() {
            Some(ig) => Some(Box::new(Error { kind: ig.kind, pos: ig.pos, prev_error: None })),
            None => None,
        };
        Box::new(Error { kind: e.kind, pos: e.pos, prev_error: prev })
    }
}

/// A wat-module assertion form: `(` keyword inline-module name `)`, where
/// the delegate grammar accepts the module and consumes `wat_consumed` of its
/// tokens.
pub open spec fn spec_assert_wat_form(t: Seq<SpecTok>, kw: Seq<char>) -> Option<(Seq<char>, int)> {
    if t.len() >= 2 && t[0] == SpecTok::LParen && t[1] == SpecTok::Keyword(kw) && t.skip(2).len()
        >= 2 && t[2] == SpecTok::LParen && t[3] == SpecTok::Keyword("module"@) && wat_accepts(
        t.skip(2),
    ) && 1 <= wat_consumed(t.skip(2)) <= t.skip(2).len() {
        let n1 = wat_consumed(t.skip(2));
        if t.len() > 3 + n1 && spec_name_tok(t[2 + n1]) is Some && t[3 + n1] == SpecTok::RParen {
            Some((spec_name_tok(t[2 + n1]).unwrap(), 4 + n1))
        } else {
            None
        }
    } else {
        None
    }
}

impl<'s> Parser<'s> {
    /// Parse `(assert_invalid (module ...) message)`. Succeeds exactly on the
    /// well-formed form whose module the delegate grammar accepts, yielding
    /// the exact expected text.
    #[verifier::rlimit(100)]
    pub fn parse_assert_invalid(&mut self) -> (r: PResult<AssertInvalid<'s>>)
        ensures
            (match r {
                Ok(a) => {
                    let f = spec_assert_wat_form(old(self).toks(), "assert_invalid"@);
                    f is Some && f.unwrap().0 == a.expected@ && old(self).advanced(
                        *final(self),
                        f.unwrap().1,
                    )
                },
                Err(e) => e.bounded_chain() && ({
                    let t = old(self).toks();
                    let started = t.len() >= 2 && t[0] == SpecTok::LParen && t[1]
                        == SpecTok::Keyword("assert_invalid"@);
                    let opens = t.len() >= 4 && t[2] == SpecTok::LParen && t[3]
                        == SpecTok::Keyword("module"@);
                    &&& (started && (old(self).clean() || t.len() >= 4) && !opens ==> e.kind
                        is Unexpected)
                    &&& (started && opens && !wat_accepts(t.skip(2)) ==> e.kind is Wat)
                }),
            }),
            old(self).clean() && spec_assert_wat_form(old(self).toks(), "assert_invalid"@) is Some
                ==> r is Ok,
    {
        let ghost t0 = old(self).toks();
        let start = self.parse_start("assert_invalid")?;
        proof {
            if t0.len() >= 3 {
                assert(t0.skip(2)[0] == t0[2]);
            }
            if t0.len() >= 4 {
                assert(t0.skip(2)[1] == t0[3]);
            }
        }
        let wat = self.parse_module_arg()?;
        let ghost n1 = wat_consumed(t0.skip(2));
        proof {
            assert(t0.skip(2)[0] == t0[2] && t0.skip(2)[1] == t0[3]);
            assert(t0.skip(2).skip(n1) =~= t0.skip(2 + n1));
            if t0.skip(2 + n1).len() > 0 {
                assert(t0.skip(2 + n1)[0] == t0[2 + n1]);
            }
        }
        let expected = self.parse_name()?;
        proof {
            assert(t0.skip(2 + n1).skip(1) =~= t0.skip(3 + n1));
            if t0.skip(3 + n1).len() > 0 {
                assert(t0.skip(3 + n1)[0] == t0[3 + n1]);
            }
        }
        match self.consume()? {
            Some(Tok::RParen) => {},
            x => {
                return self.unexpected_token(x, "')' for assert_invalid");
            },
        }
        proof {
            assert(t0.skip(3 + n1).skip(1) =~= t0.skip(4 + n1));
        }
        Ok(AssertInvalid { start, wat, expected })
    }

    /// Parse `(assert_unlinkable (module ...) message)`.
    #[verifier::rlimit(100)]
    pub fn parse_assert_unlinkable(&mut self) -> (r: PResult<AssertUnlinkable<'s>>)
        ensures
            (match r {
                Ok(a) => {
                    let f = spec_assert_wat_form(old(self).toks(), "assert_unlinkable"@);
                    f is Some && f.unwrap().0 == a.expected@ && old(self).advanced(
                        *final(self),
                        f.unwrap().1,
                    )
                },
                Err(e) => e.bounded_chain() && ({
                    let t = old(self).toks();
                    let started = t.len() >= 2 && t[0] == SpecTok::LParen && t[1]
                        == SpecTok::Keyword("assert_unlinkable"@);
                    let opens = t.len() >= 4 && t[2] == SpecTok::LParen && t[3]
                        == SpecTok::Keyword("module"@);
                    &&& (started && (old(self).clean() || t.len() >= 4) && !opens ==> e.kind
                        is Unexpected)
                    &&& (started && opens && !wat_accepts(t.skip(2)) ==> e.kind is Wat)
                }),
            }),
            old(self).clean() && spec_assert_wat_form(old(self).toks(), "assert_unlinkable"@) is Some
                ==> r is Ok,
    {
        let ghost t0 = old(self).toks();
        let start = self.parse_start("assert_unlinkable")?;
        proof {
            if t0.len() >= 3 {
                assert(t0.skip(2)[0] == t0[2]);
            }
            if t0.len() >= 4 {
                assert(t0.skip(2)[1] == t0[3]);
            }
        }
        let wat = self.parse_module_arg()?;
        let ghost n1 = wat_consumed(t0.skip(2));
        proof {
            assert(t0.skip(2)[0] == t0[2] && t0.skip(2)[1] == t0[3]);
            assert(t0.skip(2).skip(n1) =~= t0.skip(2 + n1));
            if t0.skip(2 + n1).len() > 0 {
                assert(t0.skip(2 + n1)[0] == t0[2 + n1]);
            }
        }
        let expected = self.parse_name()?;
        proof {
            assert(t0.skip(2 + n1).skip(1) =~= t0.skip(3 + n1));
            if t0.skip(3 + n1).len() > 0 {
                assert(t0.skip(3 + n1)[0] == t0[3 + n1]);
            }
        }
        match self.consume()? {
            Some(Tok::RParen) => {},
            x => {
                return self.unexpected_token(x, "')' for assert_unlinkable");
            },
        }
        proof {
            assert(t0.skip(3 + n1).skip(1) =~= t0.skip(4 + n1));
        }
        Ok(AssertUnlinkable { start, wat, expected })
    }
}


/// The keyword that opens each directive kind.
pub open spec fn kind_keyword(k: crate::ast::DirectiveKind) -> Seq<char> {
    match k {
        crate::ast::DirectiveKind::AssertReturn => "assert_return"@,
        crate::ast::DirectiveKind::AssertTrap => "assert_trap"@,
        crate::ast::DirectiveKind::AssertMalformed => "assert_malformed"@,
        crate::ast::DirectiveKind::AssertInvalid => "assert_invalid"@,
        crate::ast::DirectiveKind::AssertUnlinkable => "assert_unlinkable"@,
        crate::ast::DirectiveKind::AssertExhaustion => "assert_exhaustion"@,
        crate::ast::DirectiveKind::Register => "register"@,
        crate::ast::DirectiveKind::Invoke => "invoke"@,
        crate::ast::DirectiveKind::QuoteModule => "module"@,
        crate::ast::DirectiveKind::BinaryModule => "module"@,
        crate::ast::DirectiveKind::InlineModule => "module"@,
    }
}

/// The assert-with-invoke forms span at most the stream.
pub proof fn lemma_assert_invoke_form_len(t: Seq<SpecTok>, kw: Seq<char>)
    ensures
        (match spec_assert_invoke_form(t, kw) {
            Some((_a, _m, n)) => 6 <= n <= t.len(),
            None => true,
        }),
{
    if spec_assert_invoke_form(t, kw) is Some {
        lemma_invoke_form_len(t.skip(2));
    }
}

/// The malformed-module form spans at most the stream.
pub proof fn lemma_assert_malformed_form_len(t: Seq<SpecTok>)
    ensures
        (match spec_assert_malformed_form(t) {
            Some((_a, _m, n)) => 6 <= n <= t.len(),
            None => true,
        }),
{
    if spec_assert_malformed_form(t) is Some {
        lemma_embedded_form_len(t.skip(2));
    }
}

/// The register form spans at most the stream.
pub proof fn lemma_register_form_len(t: Seq<SpecTok>)
    ensures
        (match spec_register_form(t) {
            Some((_nm, _id, n)) => 4 <= n <= t.len(),
            None => true,
        }),
{
}

/// The return-assertion form spans at most the stream.
pub proof fn lemma_assert_return_form_len(t: Seq<SpecTok>)
    ensures
        (match spec_assert_return_form(t) {
            Some((_a, n)) => 3 <= n <= t.len(),
            None => true,
        }),
{
    if spec_assert_return_form(t) is Some {
        lemma_invoke_form_len(t.skip(2));
        lemma_get_form_len(t.skip(2));
    }
}

/// The closed set of directive keywords.
pub open spec fn directive_keyword(kw: Seq<char>) -> bool {
    ||| kw == "assert_return"@
    ||| kw == "assert_trap"@
    ||| kw == "assert_malformed"@
    ||| kw == "assert_invalid"@
    ||| kw == "assert_unlinkable"@
    ||| kw == "assert_exhaustion"@
    ||| kw == "register"@
    ||| kw == "invoke"@
    ||| kw == "module"@
}

/// The error kind a failing directive parse carries at a given stream state:
/// a lexical failure where the buffer cannot be peeked, the unexpected-token
/// kind for every dispatch failure, and the module grammar's kind where the
/// speculative embedded parse was rolled back and the delegate also refused.
pub open spec fn spec_directive_err(t: Seq<SpecTok>, clean: bool, k: ErrorKind) -> bool {
    let cp = can_peek(t, clean);
    &&& (!cp ==> k is Lex)
    &&& (cp && (t.len() == 0 || t[0] != SpecTok::LParen) ==> k is Unexpected)
    &&& (cp && t.len() == 1 && t[0] == SpecTok::LParen ==> k is Unexpected)
    &&& (cp && t.len() >= 2 && t[0] == SpecTok::LParen && !(t[1] is Keyword) ==> k is Unexpected)
    &&& (cp && t.len() >= 2 && t[0] == SpecTok::LParen && (match t[1] {
        SpecTok::Keyword(kw) => !directive_keyword(kw),
        _ => false,
    }) ==> k is Unexpected)
    &&& (cp && t.len() >= 2 && t[0] == SpecTok::LParen && t[1] == SpecTok::Keyword("module"@)
        && spec_embedded_form(t) is None ==> k is Wat)
}

/// One directive's worth of the token stream: the kind it parses to and the
/// tokens it consumes, `None` where no directive form is present. A `module`
/// directive is embedded when the embedded form is present, and otherwise an
/// inline module exactly when the delegate grammar accepts the stream.
pub open spec fn spec_directive_step(t: Seq<SpecTok>) -> Option<(crate::ast::DirectiveKind, int)> {
    if t.len() >= 2 && t[0] == SpecTok::LParen {
        match t[1] {
            SpecTok::Keyword(kw) => if kw == "assert_return"@ {
                match spec_assert_return_form(t) {
                    Some((_a, n)) => Some((crate::ast::DirectiveKind::AssertReturn, n)),
                    None => None,
                }
            } else if kw == "assert_trap"@ {
                match spec_assert_invoke_form(t, "assert_trap"@) {
                    Some((_a, _m, n)) => Some((crate::ast::DirectiveKind::AssertTrap, n)),
                    None => None,
                }
            } else if kw == "assert_malformed"@ {
                match spec_assert_malformed_form(t) {
                    Some((_a, _m, n)) => Some((crate::ast::DirectiveKind::AssertMalformed, n)),
                    None => None,
                }
            } else if kw == "assert_invalid"@ {
                match spec_assert_wat_form(t, "assert_invalid"@) {
                    Some((_m, n)) => Some((crate::ast::DirectiveKind::AssertInvalid, n)),
                    None => None,
                }
            } else if kw == "assert_unlinkable"@ {
                match spec_assert_wat_form(t, "assert_unlinkable"@) {
                    Some((_m, n)) => Some((crate::ast::DirectiveKind::AssertUnlinkable, n)),
                    None => None,
                }
            } else if kw == "assert_exhaustion"@ {
                match spec_assert_invoke_form(t, "assert_exhaustion"@) {
                    Some((_a, _m, n)) => Some((crate::ast::DirectiveKind::AssertExhaustion, n)),
                    None => None,
                }
            } else if kw == "register"@ {
                match spec_register_form(t) {
                    Some((_nm, _id, n)) => Some((crate::ast::DirectiveKind::Register, n)),
                    None => None,
                }
            } else if kw == "invoke"@ {
                match spec_invoke_form(t) {
                    Some((_id, _nm, _args, n)) => Some((crate::ast::DirectiveKind::Invoke, n)),
                    None => None,
                }
            } else if kw == "module"@ {
                match spec_embedded_form(t) {
                    Some((SpecEmbedded::Quote(_), n)) => Some(
                        (crate::ast::DirectiveKind::QuoteModule, n),
                    ),
                    Some((SpecEmbedded::Binary(_), n)) => Some(
                        (crate::ast::DirectiveKind::BinaryModule, n),
                    ),
                    None => if wat_accepts(t) && 1 <= wat_consumed(t) <= t.len() {
                        Some((crate::ast::DirectiveKind::InlineModule, wat_consumed(t)))
                    } else {
                        None
                    },
                }
            } else {
                None
            },
            _ => None,
        }
    } else {
        None
    }
}

/// The first suffix of the stream at which directive parsing gets stuck, if
/// any: the first point of failure.
pub open spec fn spec_stuck_suffix(t: Seq<SpecTok>) -> Option<Seq<SpecTok>>
    decreases t.len(),
{
    if t.len() == 0 {
        None
    } else {
        match spec_directive_step(t) {
            None => Some(t),
            Some((_k, n)) => if 1 <= n <= t.len() {
                spec_stuck_suffix(t.skip(n))
            } else {
                Some(t)
            },
        }
    }
}

/// The sequence of directive kinds a token stream parses to, in source
/// order, consuming the whole stream; `None` where some directive is
/// malformed or rejected.
pub open spec fn spec_root_kinds(t: Seq<SpecTok>) -> Option<Seq<crate::ast::DirectiveKind>>
    decreases t.len(),
{
    if t.len() == 0 {
        Some(Seq::empty())
    } else {
        match spec_directive_step(t) {
            None => None,
            Some((k, n)) => if 1 <= n <= t.len() {
                match spec_root_kinds(t.skip(n)) {
                    None => None,
                    Some(ks) => Some(seq![k] + ks),
                }
            } else {
                None
            },
        }
    }
}

impl<'s> Parser<'s> {
    /// Parse one directive, dispatching on its keyword. A stream opening a
    /// well-formed embedded module always yields that embedded module; one
    /// opening `(module` any other way resolves, by speculation and rollback,
    /// as an inline module handed to the module grammar.
    #[verifier::rlimit(100)]
    pub fn parse_directive(&mut self) -> (r: PResult<Directive<'s>>)
        ensures
            (match r {
                Ok(d) => ({
                    let t = old(self).toks();
                    let st = spec_directive_step(t);
                    &&& t.len() >= 2
                    &&& t[0] == SpecTok::LParen
                    &&& t[1] == SpecTok::Keyword(kind_keyword(d.spec_kind()))
                    &&& st is Some
                    &&& st.unwrap().0 == d.spec_kind()
                    &&& 1 <= st.unwrap().1 <= t.len()
                    &&& old(self).advanced(*final(self), st.unwrap().1)
                    &&& (match d {
                        Directive::QuoteModule(txt) => spec_embedded_form(t) matches Some(
                            (em, _n2),
                        ) && em == SpecEmbedded::Quote(txt@),
                        Directive::BinaryModule(b) => spec_embedded_form(t) matches Some(
                            (em, _n2),
                        ) && em == SpecEmbedded::Binary(b@),
                        Directive::InlineModule(_) => spec_embedded_form(t) is None,
                        Directive::AssertReturn(a) => spec_assert_return_form(t) matches Some(
                            (ar, _n2),
                        ) && (match a {
                            AssertReturn::Invoke { start, invoke, expected } => ar == SpecAR::Inv(
                                opt_str_view(invoke.id),
                                invoke.name@,
                                invoke.args@,
                                expected,
                            ),
                            AssertReturn::Global { start, get, expected } => ar == SpecAR::Glob(
                                opt_str_view(get.id),
                                get.name@,
                                expected,
                            ),
                        }),
                        Directive::AssertTrap(a) => spec_assert_invoke_form(
                            t,
                            "assert_trap"@,
                        ) matches Some((iv, msg, _n2)) && iv == (
                            opt_str_view(a.invoke.id),
                            a.invoke.name@,
                            a.invoke.args@,
                        ) && msg == a.expected@,
                        Directive::AssertExhaustion(a) => spec_assert_invoke_form(
                            t,
                            "assert_exhaustion"@,
                        ) matches Some((iv, msg, _n2)) && iv == (
                            opt_str_view(a.invoke.id),
                            a.invoke.name@,
                            a.invoke.args@,
                        ) && msg == a.expected@,
                        Directive::AssertMalformed(a) => spec_assert_malformed_form(t) matches Some(
                            (em, msg, _n2),
                        ) && (match a.module.embedded {
                            Embedded::Quote(txt) => em == SpecEmbedded::Quote(txt@),
                            Embedded::Binary(b) => em == SpecEmbedded::Binary(b@),
                        }) && msg == a.expected@,
                        Directive::AssertInvalid(a) => spec_assert_wat_form(
                            t,
                            "assert_invalid"@,
                        ) matches Some((msg, _n2)) && msg == a.expected@,
                        Directive::AssertUnlinkable(a) => spec_assert_wat_form(
                            t,
                            "assert_unlinkable"@,
                        ) matches Some((msg, _n2)) && msg == a.expected@,
                        Directive::Register(rg) => spec_register_form(t) matches Some(
                            (nm, id, _n2),
                        ) && nm == rg.name@ && id == opt_str_view(rg.id),
                        Directive::Invoke(inv) => spec_invoke_form(t) matches Some(
                            (id, nm, args, _n2),
                        ) && id == opt_str_view(inv.id) && nm == inv.name@ && args == inv.args@,
                    })
                }),
                Err(e) => e.bounded_chain() && spec_directive_err(
                    old(self).toks(),
                    old(self).clean(),
                    e.kind,
                ) && ({
                    let t = old(self).toks();
                    let cp = can_peek(t, old(self).clean());
                    let unchanged = final(self).toks() == t && final(self).clean() == old(
                        self,
                    ).clean();
                    &&& (!cp ==> unchanged)
                    &&& (cp && (t.len() == 0 || t[0] != SpecTok::LParen) ==> unchanged)
                    &&& (cp && t.len() == 1 && t[0] == SpecTok::LParen ==> unchanged)
                    &&& (cp && t.len() >= 2 && t[0] == SpecTok::LParen && !(t[1] is Keyword)
                        ==> unchanged)
                    &&& (cp && t.len() >= 2 && t[0] == SpecTok::LParen && (match t[1] {
                        SpecTok::Keyword(kw) => !directive_keyword(kw),
                        _ => false,
                    }) ==> unchanged)
                    &&& (cp && t.len() >= 2 && t[0] == SpecTok::LParen && t[1] == SpecTok::Keyword(
                        "module"@,
                    ) && spec_embedded_form(t) is None ==> (e.prev_error matches Some(p)
                        && p.prev_error is None))
                }),
            }),
            old(self).clean() && spec_directive_step(old(self).toks()) is Some ==> r is Ok,
            spec_embedded_form(old(self).toks()) is Some ==> (match r {
                Ok(d) => d is QuoteModule || d is BinaryModule,
                Err(_) => false,
            }),
    {
        let ghost t0 = old(self).toks();
        proof {
            reveal_strlit("module");
            reveal_strlit("assert_return");
            reveal_strlit("assert_trap");
            reveal_strlit("assert_malformed");
            reveal_strlit("assert_invalid");
            reveal_strlit("assert_unlinkable");
            reveal_strlit("assert_exhaustion");
            reveal_strlit("register");
            reveal_strlit("invoke");
        }
        let (t1, t2) = match self.peek() {
            Ok(p) => p,
            Err(e) => {
                return Err(e);
            },
        };
        if !matches!(t1, Some(Tok::LParen)) {
            return self.unexpected_token(t1, "'(' for start of directive");
        }
        let kw = match t2 {
            Some(Tok::Keyword(k)) => k,
            x => {
                return self.unexpected_token(x, "keyword for directive");
            },
        };
        proof {
            // pin the keyword literals apart, so that the embedded-module
            // facts cannot be confused across dispatch branches
            assert("module"@.len() == 6);
            assert("assert_return"@.len() == 13);
            assert("assert_trap"@.len() == 11);
            assert("invoke"@[0] != "module"@[0]);
            assert("invoke"@ != "module"@);
            assert("assert_unlinkable"@[7] != "assert_exhaustion"@[7]);
            assert("assert_unlinkable"@ != "assert_exhaustion"@);
            if spec_embedded_form(t0) is Some {
                assert(t0[1] == SpecTok::Keyword("module"@));
                assert(t0[1] == SpecTok::Keyword(kw@));
                assert(kw@ == "module"@);
            }
        }
        if str_eq(kw.as_str(), "assert_return") {
            let a = self.parse_assert_return()?;
            proof {
                lemma_assert_return_form_len(t0);
            }
            Ok(Directive::AssertReturn(a))
        } else if str_eq(kw.as_str(), "assert_trap") {
            let a = self.parse_assert_trap()?;
            proof {
                lemma_assert_invoke_form_len(t0, "assert_trap"@);
            }
            Ok(Directive::AssertTrap(a))
        } else if str_eq(kw.as_str(), "assert_malformed") {
            let a = self.parse_assert_malformed()?;
            proof {
                lemma_assert_malformed_form_len(t0);
            }
            Ok(Directive::AssertMalformed(a))
        } else if str_eq(kw.as_str(), "assert_invalid") {
            let a = self.parse_assert_invalid()?;
            Ok(Directive::AssertInvalid(a))
        } else if str_eq(kw.as_str(), "assert_unlinkable") {
            let a = self.parse_assert_unlinkable()?;
            Ok(Directive::AssertUnlinkable(a))
        } else if str_eq(kw.as_str(), "assert_exhaustion") {
            let a = self.parse_assert_exhaustion()?;
            proof {
                lemma_assert_invoke_form_len(t0, "assert_exhaustion"@);
            }
            Ok(Directive::AssertExhaustion(a))
        } else if str_eq(kw.as_str(), "register") {
            let a = self.parse_register()?;
            proof {
                lemma_register_form_len(t0);
            }
            Ok(Directive::Register(a))
        } else if str_eq(kw.as_str(), "invoke") {
            let a = self.parse_invoke()?;
            proof {
                lemma_invoke_form_len(t0);
            }
            Ok(Directive::Invoke(a))
        } else if str_eq(kw.as_str(), "module") {
            // Speculation: try the embedded-module form; on failure, roll the
            // buffer back to the snapshot and delegate to the module grammar,
            // keeping the discarded error as one level of context.
            let prev = la_clone(&self.tokens);
            match self.parse_embedded() {
                Ok(m) => {
                    proof {
                        lemma_embedded_form_len(t0);
                    }
                    match m.embedded {
                        Embedded::Quote(text) => Ok(Directive::QuoteModule(text)),
                        Embedded::Binary(bin) => Ok(Directive::BinaryModule(bin)),
                    }
                },
                Err(err) => {
                    self.ignored_error = Some(err);
                    match compile_inline(prev) {
                        Ok((root, la2)) => {
                            self.tokens = la2;
                            Ok(Directive::InlineModule(root))
                        },
                        Err(e) => {
                            let e2 = self.attach_context(e);
                            Err(e2)
                        },
                    }
                },
            }
        } else {
            self.unexpected_token(Some(Tok::Keyword(kw)), "keyword for directive")
        }
    }

    /// Parse the whole script: directives until the input ends. On success
    /// every token was consumed, and the directives are exactly the stream's
    /// directive sequence, in source order — none reordered, dropped or
    /// invented; a cleanly lexing script whose directives all parse is owed
    /// success, and a failure carries the error of the first directive at
    /// which the stream gets stuck.
    #[verifier::loop_isolation(false)]
    pub fn parse_root(&mut self) -> (r: PResult<Root<'s>>)
        ensures
            (match r {
                Ok(root) => final(self).toks().len() == 0 && final(self).clean()
                    && spec_root_kinds(old(self).toks()) == Some(
                    root.directives@.map_values(|d: Directive<'s>| d.spec_kind()),
                ),
                Err(e) => e.bounded_chain() && (old(self).clean() ==> (
                match spec_stuck_suffix(old(self).toks()) {
                    Some(stuck) => spec_directive_err(stuck, old(self).clean(), e.kind),
                    None => false,
                })),
            }),
            old(self).clean() && spec_root_kinds(old(self).toks()) is Some ==> r is Ok,
    {
        let ghost t0 = old(self).toks();
        let mut directives: Vec<Directive<'s>> = Vec::new();
        proof {
            assert(t0.skip(0) =~= t0);
            assert(directives@.map_values(|d: Directive<'s>| d.spec_kind())
                =~= Seq::<crate::ast::DirectiveKind>::empty());
        }
        loop
            invariant
                self.clean() == old(self).clean(),
                spec_stuck_suffix(t0) == spec_stuck_suffix(self.toks()),
                (match spec_root_kinds(t0) {
                    Some(all) => spec_root_kinds(self.toks()) matches Some(rest) && all
                        == directives@.map_values(|d: Directive<'s>| d.spec_kind()) + rest,
                    None => spec_root_kinds(self.toks()) is None,
                }),
            decreases self.toks().len(),
        {
            let done = match self.is_done() {
                Ok(b) => b,
                Err(e) => {
                    return Err(e);
                },
            };
            if done {
                proof {
                    assert(spec_root_kinds(self.toks()) == Some(
                        Seq::<crate::ast::DirectiveKind>::empty(),
                    ));
                    if spec_root_kinds(t0) is Some {
                        assert(directives@.map_values(|d: Directive<'s>| d.spec_kind())
                            + Seq::<crate::ast::DirectiveKind>::empty() =~= directives@.map_values(
                            |d: Directive<'s>| d.spec_kind(),
                        ));
                    }
                }
                break ;
            }
            let ghost pre = self.toks();
            let ghost kinds_pre = directives@.map_values(|d: Directive<'s>| d.spec_kind());
            let d = match self.parse_directive() {
                Ok(d) => d,
                Err(e) => {
                    return Err(e);
                },
            };
            directives.push(d);
            proof {
                let st = spec_directive_step(pre);
                assert(self.toks().len() < pre.len());
                assert(directives@.map_values(|d2: Directive<'s>| d2.spec_kind()) =~= kinds_pre
                    + seq![d.spec_kind()]);
                if spec_root_kinds(t0) is Some {
                    assert(kinds_pre + (seq![d.spec_kind()] + spec_root_kinds(
                        self.toks(),
                    ).unwrap()) =~= (kinds_pre + seq![d.spec_kind()]) + spec_root_kinds(
                        self.toks(),
                    ).unwrap());
                }
            }
        }
        Ok(Root { directives })
    }
}

/// Anything the parser can produce from the token stream.
pub trait Parse<'s>: Sized {
    fn parse(parser: &mut Parser<'s>) -> PResult<Self>;
}

impl<'s> Parser<'s> {
    /// Parse any parseable node from the current position.
    pub fn parse<P: Parse<'s>>(&mut self) -> PResult<P> {
        P::parse(self)
    }
}

impl<'s> Parse<'s> for String {
    fn parse(parser: &mut Parser<'s>) -> PResult<Self> {
        parser.parse_name()
    }
}

impl<'s> Parse<'s> for Const {
    fn parse(parser: &mut Parser<'s>) -> PResult<Self> {
        parser.parse_const()
    }
}

impl<'s> Parse<'s> for Invoke {
    fn parse(parser: &mut Parser<'s>) -> PResult<Self> {
        parser.parse_invoke()
    }
}

impl<'s> Parse<'s> for Register {
    fn parse(parser: &mut Parser<'s>) -> PResult<Self> {
        parser.parse_register()
    }
}

impl<'s> Parse<'s> for GetGlobal {
    fn parse(parser: &mut Parser<'s>) -> PResult<Self> {
        parser.parse_get()
    }
}

impl<'s> Parse<'s> for EmbeddedModule {
    fn parse(parser: &mut Parser<'s>) -> PResult<Self> {
        parser.parse_embedded()
    }
}

impl<'s> Parse<'s> for crate::lex::InlineModule<'s> {
    fn parse(parser: &mut Parser<'s>) -> PResult<Self> {
        parser.parse_module_arg()
    }
}

impl<'s> Parse<'s> for AssertReturn {
    fn parse(parser: &mut Parser<'s>) -> PResult<Self> {
        parser.parse_assert_return()
    }
}

impl<'s> Parse<'s> for AssertTrap {
    fn parse(parser: &mut Parser<'s>) -> PResult<Self> {
        parser.parse_assert_trap()
    }
}

impl<'s> Parse<'s> for AssertMalformed {
    fn parse(parser: &mut Parser<'s>) -> PResult<Self> {
        parser.parse_assert_malformed()
    }
}

impl<'s> Parse<'s> for AssertInvalid<'s> {
    fn parse(parser: &mut Parser<'s>) -> PResult<Self> {
        parser.parse_assert_invalid()
    }
}

impl<'s> Parse<'s> for AssertUnlinkable<'s> {
    fn parse(parser: &mut Parser<'s>) -> PResult<Self> {
        parser.parse_assert_unlinkable()
    }
}

impl<'s> Parse<'s> for AssertExhaustion {
    fn parse(parser: &mut Parser<'s>) -> PResult<Self> {
        parser.parse_assert_exhaustion()
    }
}

impl<'s> Parse<'s> for Directive<'s> {
    fn parse(parser: &mut Parser<'s>) -> PResult<Self> {
        parser.parse_directive()
    }
}

impl<'s> Parse<'s> for Root<'s> {
    fn parse(parser: &mut Parser<'s>) -> PResult<Self> {
        parser.parse_root()
    }
}


/// The bit pattern is one of the format's NaNs: exponent all ones and a
/// non-zero significand (32-bit).
pub open spec fn is_nan_bits32(b: u32) -> bool {
    b & 0x7f80_0000u32 == 0x7f80_0000u32 && b & 0x007f_ffffu32 != 0u32
}

/// The bit pattern is one of the format's NaNs (64-bit).
pub open spec fn is_nan_bits64(b: u64) -> bool {
    b & 0x7ff0_0000_0000_0000u64 == 0x7ff0_0000_0000_0000u64 && b & 0x000f_ffff_ffff_ffffu64
        != 0u64
}

/// NaN classing: under either float keyword, `nan:canonical` and
/// `nan:arithmetic` decode to the two distinct marker variants and never to a
/// numeric value, while a bare or payload-carrying `nan` literal decodes to a
/// numeric value whose bits are some NaN of the format.
pub proof fn lemma_nan_classing(kw: Seq<char>, sg: LitSign, payload: Option<Seq<char>>)
    requires
        kw == "f32.const"@ || kw == "f64.const"@,
    ensures
        spec_const_val(kw, SpecTok::Keyword("nan:canonical"@)) == Some(Const::CanonicalNan),
        spec_const_val(kw, SpecTok::Keyword("nan:arithmetic"@)) == Some(Const::ArithmeticNan),
        Const::CanonicalNan != Const::ArithmeticNan,
        (match spec_const_val(kw, SpecTok::Float(sg, SpecFloatTok::Nan(payload))) {
            Some(Const::Fp32(b)) => is_nan_bits32(b),
            Some(Const::Fp64(b)) => is_nan_bits64(b),
            _ => false,
        }),
{
    reveal_strlit("i32.const");
    reveal_strlit("i64.const");
    reveal_strlit("f32.const");
    reveal_strlit("f64.const");
    assert("i32.const"@[0] != "f32.const"@[0]);
    assert("i64.const"@[0] != "f64.const"@[0]);
    reveal_strlit("nan:canonical");
    reveal_strlit("nan:arithmetic");
    assert("nan:canonical"@.len() == 13);
    assert("nan:arithmetic"@.len() == 14);
    assert("f32.const"@[1] != "f64.const"@[1]);
    assert(QNAN32 | 0x8000_0000u32 == 0xffc0_0000u32) by (bit_vector);
    assert(is_nan_bits32(0x7fc0_0000u32)) by (bit_vector);
    assert(is_nan_bits32(0xffc0_0000u32)) by (bit_vector);
    assert(QNAN64 | 0x8000_0000_0000_0000u64 == 0xfff8_0000_0000_0000u64) by (bit_vector);
    assert(is_nan_bits64(0x7ff8_0000_0000_0000u64)) by (bit_vector);
    assert(is_nan_bits64(0xfff8_0000_0000_0000u64)) by (bit_vector);
}

} // verus!
