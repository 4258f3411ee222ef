use vstd::prelude::*;
use crate::error::{Error, ErrorKind};
use crate::token::{FloatTok, SpecTok, Tok};

verus! {

// The token source is wain_syntax_text's lexer behind its two-token lookahead
// buffer. The buffer is opaque to the verifier; its remaining token stream
// and whether that stream ends cleanly are named below, and every wrapper's
// contract speaks of those names.

#[verifier::external_type_specification]
#[verifier::external_body]
#[verifier::reject_recursive_types(I)]
pub struct ExLookAhead<I: Iterator>(wain_syntax_text::parser::LookAhead<I>);

#[verifier::external_type_specification]
#[verifier::external_body]
pub struct ExLexer<'s>(wain_syntax_text::lexer::Lexer<'s>);

#[verifier::external_type_specification]
#[verifier::external_body]
pub struct ExToken<'s>(wain_syntax_text::lexer::Token<'s>);

#[verifier::external_type_specification]
#[verifier::external_body]
pub struct ExFloat<'s>(wain_syntax_text::lexer::Float<'s>);

#[verifier::external_type_specification]
#[verifier::external_body]
pub struct ExSign(wain_syntax_text::lexer::Sign);

#[verifier::external_type_specification]
#[verifier::external_body]
pub struct ExNumBase(wain_syntax_text::lexer::NumBase);

/// A module compiled by the delegate grammar: the wain syntax tree, opaque to
/// the verifier. The field is public so that unverified callers can read the
/// compiled module.
#[verifier::external_body]
pub struct InlineModule<'s> {
    pub root: wain_ast::Root<'s, wain_syntax_text::source::TextSource<'s>>,
}

/// The tokens the buffer will yield, in order, up to the end of input or the
/// first lexical error.
pub uninterp spec fn la_toks(la: wain_syntax_text::parser::LookAhead<wain_syntax_text::lexer::Lexer>) -> Seq<SpecTok>;

/// Whether the stream ends cleanly after those tokens (`false`: a lexical
/// error follows them).
pub uninterp spec fn la_clean(la: wain_syntax_text::parser::LookAhead<wain_syntax_text::lexer::Lexer>) -> bool;

/// The tokens the lexer yields for a given source text, up to the end of
/// input or the first lexical error. Lexing is a function of the text alone.
pub uninterp spec fn lex_toks(s: Seq<char>) -> Seq<SpecTok>;

/// Whether lexing the source text ends cleanly after those tokens.
pub uninterp spec fn lex_clean(s: Seq<char>) -> bool;

/// Whether the delegate module grammar accepts (a prefix of) this token
/// stream as one module, for a stream that opens `(` `module` — the only
/// shape the library hands it. On that shape the verdict is a function of the
/// tokens alone: byte offsets shape only its error messages. (On other
/// shapes the grammar's abbreviated-module path can make the verdict depend
/// on what follows the tokens, so nothing is claimed there.)
pub uninterp spec fn wat_accepts(t: Seq<SpecTok>) -> bool;

/// How many leading tokens the delegate module grammar consumes when it
/// accepts such a stream.
pub uninterp spec fn wat_consumed(t: Seq<SpecTok>) -> int;

/// The byte offsets of the buffer's remaining tokens, parallel to `la_toks`.
pub uninterp spec fn la_offs(la: wain_syntax_text::parser::LookAhead<wain_syntax_text::lexer::Lexer>) -> Seq<int>;

/// The byte offsets of the tokens the lexer yields for a source text.
pub uninterp spec fn lex_offs(s: Seq<char>) -> Seq<int>;

/// What one consume step yields: a token with its byte offset, the end of
/// input, or a lexical failure.
pub enum LexStep {
    Tok(Tok, usize),
    End,
    Fail(Box<Error>),
}

/// The buffer can be peeked without error: two tokens are present, or the
/// stream's remainder is clean.
pub open spec fn can_peek(toks: Seq<SpecTok>, clean: bool) -> bool {
    toks.len() >= 2 || clean
}

/// Relies on `Token::clone` and field moves alone: each lexer token maps to
/// the library's owned token, variant for variant.
#[verifier::external_body]
fn conv_token(t: &wain_syntax_text::lexer::Token<'_>) -> Tok {
    match t {
        wain_syntax_text::lexer::Token::LParen => Tok::LParen,
        wain_syntax_text::lexer::Token::RParen => Tok::RParen,
        wain_syntax_text::lexer::Token::Keyword(k) => Tok::Keyword((*k).to_string()),
        wain_syntax_text::lexer::Token::Int(s, b, d) => Tok::Int(conv_sign(*s), conv_base(*b), (*d).to_string()),
        wain_syntax_text::lexer::Token::Float(s, f) => Tok::Float(conv_sign(*s), conv_float(f)),
        wain_syntax_text::lexer::Token::String(s) => Tok::StrLit((*s).to_string()),
        wain_syntax_text::lexer::Token::Ident(i) => Tok::Ident((*i).to_string()),
    }
}

/// Relies on field moves alone: the float payload maps variant for variant.
#[verifier::external_body]
fn conv_float(f: &wain_syntax_text::lexer::Float<'_>) -> FloatTok {
    match f {
        wain_syntax_text::lexer::Float::Nan(p) => FloatTok::Nan(p.map(|s| s.to_string())),
        wain_syntax_text::lexer::Float::Inf => FloatTok::Inf,
        wain_syntax_text::lexer::Float::Val { base, frac, exp } => FloatTok::Val {
            base: conv_base(*base),
            frac: (*frac).to_string(),
            exp: exp.map(|(s, d)| (conv_sign(s), d.to_string())),
        },
    }
}

/// Relies on a variant-for-variant match on the lexer's sign.
#[verifier::external_body]
fn conv_sign(s: wain_syntax_text::lexer::Sign) -> crate::token::LitSign {
    match s {
        wain_syntax_text::lexer::Sign::Plus => crate::token::LitSign::Plus,
        wain_syntax_text::lexer::Sign::Minus => crate::token::LitSign::Minus,
    }
}

/// Relies on a variant-for-variant match on the lexer's base.
#[verifier::external_body]
fn conv_base(b: wain_syntax_text::lexer::NumBase) -> crate::token::LitBase {
    match b {
        wain_syntax_text::lexer::NumBase::Hex => crate::token::LitBase::Hex,
        wain_syntax_text::lexer::NumBase::Dec => crate::token::LitBase::Dec,
    }
}

/// Relies on `LexError`'s display and offset: a lexical failure becomes the
/// library's error, with no prior error attached.
#[verifier::external_body]
fn conv_lex_err(e: &wain_syntax_text::lexer::LexError<'_>) -> (r: Box<Error>)
    ensures
        r.kind is Lex,
        r.prev_error is None,
{
    Box::new(Error { kind: ErrorKind::Lex(format!("{}", e)), pos: e.offset(), prev_error: None })
}

#[verifier::external_type_specification]
#[verifier::external_body]
pub struct ExLexError<'s>(wain_syntax_text::lexer::LexError<'s>);

/// Relies on `LookAhead::new` over `Lexer::new`: a fresh buffer positioned at
/// the start of the source's token stream.
#[verifier::external_body]
pub(crate) fn la_new(source: &str) -> (r: wain_syntax_text::parser::LookAhead<
    wain_syntax_text::lexer::Lexer<'_>,
>)
    ensures
        la_toks(r) == lex_toks(source@),
        la_clean(r) == lex_clean(source@),
        la_offs(r) == lex_offs(source@),
{
    wain_syntax_text::parser::LookAhead::new(wain_syntax_text::lexer::Lexer::new(source))
}

/// Relies on `LookAhead::next` (`Iterator`): it yields the stream's tokens in
/// order with their byte offsets, `None` past the end, and the lexical error
/// where the source does not lex.
#[verifier::external_body]
pub(crate) fn la_next<'s>(la: &mut wain_syntax_text::parser::LookAhead<
    wain_syntax_text::lexer::Lexer<'s>,
>) -> (r: LexStep)
    ensures
        la_toks(*old(la)).len() > 0 ==> (match r {
            LexStep::Tok(t, off) => ({
                &&& t@ == la_toks(*old(la))[0]
                &&& la_toks(*final(la)) == la_toks(*old(la)).skip(1)
                &&& la_clean(*final(la)) == la_clean(*old(la))
                &&& la_offs(*old(la)).len() == la_toks(*old(la)).len()
                &&& off == la_offs(*old(la))[0]
                &&& la_offs(*final(la)) == la_offs(*old(la)).skip(1)
            }),
            _ => false,
        }),
        la_toks(*old(la)).len() == 0 && la_clean(*old(la)) ==> (match r {
            LexStep::End => la_toks(*final(la)).len() == 0 && la_clean(*final(la)),
            _ => false,
        }),
        la_toks(*old(la)).len() == 0 && !la_clean(*old(la)) ==> (match r {
            LexStep::Fail(e) => e.kind is Lex && e.prev_error is None,
            _ => false,
        }),
{
    match la.next() {
        Some(Ok((tok, off))) => LexStep::Tok(conv_token(&tok), off),
        Some(Err(err)) => LexStep::Fail(conv_lex_err(&err)),
        None => LexStep::End,
    }
}

/// Relies on `LookAhead::peek` and `LookAhead::lookahead`: they show the next
/// two tokens without advancing, and surface a lexical error that sits within
/// those two positions.
#[verifier::external_body]
pub(crate) fn la_peek2<'s>(la: &wain_syntax_text::parser::LookAhead<
    wain_syntax_text::lexer::Lexer<'s>,
>) -> (r: Result<(Option<Tok>, Option<Tok>), Box<Error>>)
    ensures
        r is Ok <==> can_peek(la_toks(*la), la_clean(*la)),
        r is Ok ==> (match r.unwrap().0 {
            Some(t) => la_toks(*la).len() >= 1 && t@ == la_toks(*la)[0],
            None => la_toks(*la).len() == 0,
        }),
        r is Ok ==> (match r.unwrap().1 {
            Some(t) => la_toks(*la).len() >= 2 && t@ == la_toks(*la)[1],
            None => la_toks(*la).len() <= 1,
        }),
        (match r {
            Err(e) => e.kind is Lex && e.prev_error is None,
            Ok(_) => true,
        }),
{
    let t1 = match la.peek() {
        Some(Ok((t, _))) => Some(conv_token(t)),
        Some(Err(e)) => return Err(conv_lex_err(e)),
        None => None,
    };
    let t2 = match la.lookahead() {
        Some(Ok((t, _))) => Some(conv_token(t)),
        Some(Err(e)) => return Err(conv_lex_err(e)),
        None => None,
    };
    Ok((t1, t2))
}

/// Relies on `LookAhead: Clone`: the copy replays the very same stream.
#[verifier::external_body]
pub(crate) fn la_clone<'s>(la: &wain_syntax_text::parser::LookAhead<
    wain_syntax_text::lexer::Lexer<'s>,
>) -> (r: wain_syntax_text::parser::LookAhead<wain_syntax_text::lexer::Lexer<'s>>)
    ensures
        la_toks(r) == la_toks(*la),
        la_clean(r) == la_clean(*la),
        la_offs(r) == la_offs(*la),
{
    la.clone()
}

/// Relies on `Parser::with_lexer`, `Parser::parse` and `wat2wasm` of
/// wain_syntax_text: the grammar accepts or rejects as a function of the
/// token stream alone; on success it consumed a non-empty prefix (it errors
/// at once on an empty stream, and in its abbreviated-module form any
/// leftover token is an error) and hands the buffer back positioned after it,
/// leaving the stream's tail (and so its cleanliness) untouched; on failure
/// the library receives a grammar-kind error with no prior context.
#[verifier::external_body]
pub(crate) fn compile_inline<'s>(la: wain_syntax_text::parser::LookAhead<
    wain_syntax_text::lexer::Lexer<'s>,
>) -> (r: Result<
    (InlineModule<'s>, wain_syntax_text::parser::LookAhead<wain_syntax_text::lexer::Lexer<'s>>),
    Box<Error>,
>)
    requires
        la_toks(la).len() >= 2,
        la_toks(la)[0] == SpecTok::LParen,
        la_toks(la)[1] == SpecTok::Keyword("module"@),
    ensures
        r is Ok <==> wat_accepts(la_toks(la)),
        (match r {
            Ok((_root, la2)) => 1 <= wat_consumed(la_toks(la)) <= la_toks(la).len() && la_toks(la2)
                == la_toks(la).skip(wat_consumed(la_toks(la))) && la_clean(la2) == la_clean(la)
                && la_offs(la2) == la_offs(la).skip(wat_consumed(la_toks(la))),
            Err(e) => e.kind is Wat && e.prev_error is None,
        }),
{
    let mut wat_parser = wain_syntax_text::parser::Parser::with_lexer(la);
    let parsed = match wat_parser.parse() {
        Ok(p) => p,
        Err(e) => return Err(wat_error(format!("{}", e), e.offset())),
    };
    match wain_syntax_text::wat2wasm::wat2wasm(parsed, wat_parser.source()) {
        Ok(root) => Ok((InlineModule { root }, wat_parser.into_lexer())),
        Err(e) => Err(wat_error(format!("{}", e), e.offset())),
    }
}

/// Build the library error for a failed module-grammar delegation.
fn wat_error(msg: String, pos: usize) -> (r: Box<Error>)
    ensures
        r.kind is Wat,
        r.prev_error is None,
{
    Box::new(Error { kind: ErrorKind::Wat(msg), pos, prev_error: None })
}

} // verus!
