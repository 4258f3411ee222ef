use vstd::prelude::*;

verus! {

/// LitSign of a numeric literal.
#[derive(Clone, Copy, PartialEq, Eq, Structural, Debug)]
pub enum LitSign {
    Plus,
    Minus,
}

/// Base of a numeric literal: decimal or hexadecimal.
#[derive(Clone, Copy, PartialEq, Eq, Structural, Debug)]
pub enum LitBase {
    Dec,
    Hex,
}

/// Payload of a float literal token: a NaN form (with an optional payload
/// text), an infinity, or a numeric form with fraction text and an optional
/// exponent.
#[derive(Clone, Debug)]
pub enum FloatTok {
    Nan(Option<String>),
    Inf,
    Val { base: LitBase, frac: String, exp: Option<(LitSign, String)> },
}

/// One lexical token of the script, with owned text.
#[derive(Clone, Debug)]
pub enum Tok {
    LParen,
    RParen,
    Keyword(String),
    Int(LitSign, LitBase, String),
    Float(LitSign, FloatTok),
    StrLit(String),
    Ident(String),
}

/// Mathematical model of a float literal payload.
pub ghost enum SpecFloatTok {
    Nan(Option<Seq<char>>),
    Inf,
    Val { base: LitBase, frac: Seq<char>, exp: Option<(LitSign, Seq<char>)> },
}

/// Mathematical model of a token: text fields become character sequences.
pub ghost enum SpecTok {
    LParen,
    RParen,
    Keyword(Seq<char>),
    Int(LitSign, LitBase, Seq<char>),
    Float(LitSign, SpecFloatTok),
    StrLit(Seq<char>),
    Ident(Seq<char>),
}

impl View for FloatTok {
    type V = SpecFloatTok;

    open spec fn view(&self) -> SpecFloatTok {
        match self {
            FloatTok::Nan(p) => SpecFloatTok::Nan(match p {
                Some(s) => Some(s@),
                None => None,
            }),
            FloatTok::Inf => SpecFloatTok::Inf,
            FloatTok::Val { base, frac, exp } => SpecFloatTok::Val {
                base: *base,
                frac: frac@,
                exp: match exp {
                    Some((s, e)) => Some((*s, e@)),
                    None => None,
                },
            },
        }
    }
}

impl View for Tok {
    type V = SpecTok;

    open spec fn view(&self) -> SpecTok {
        match self {
            Tok::LParen => SpecTok::LParen,
            Tok::RParen => SpecTok::RParen,
            Tok::Keyword(s) => SpecTok::Keyword(s@),
            Tok::Int(sg, b, d) => SpecTok::Int(*sg, *b, d@),
            Tok::Float(sg, f) => SpecTok::Float(*sg, f@),
            Tok::StrLit(s) => SpecTok::StrLit(s@),
            Tok::Ident(s) => SpecTok::Ident(s@),
        }
    }
}

} // verus!
