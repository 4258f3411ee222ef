use vstd::prelude::*;
use crate::lex::InlineModule;

verus! {

/// A constant argument or expected value: exact two's-complement integers,
/// exact float bit patterns, or one of the two NaN-class markers whose
/// concrete bits the test runner chooses.
#[derive(Clone, Copy, PartialEq, Eq, Structural, Debug)]
pub enum Const {
    I32(i32),
    I64(i64),
    Fp32(u32),
    Fp64(u64),
    CanonicalNan,
    ArithmeticNan,
}

/// A call request against a previously instantiated module.
#[derive(Debug)]
pub struct Invoke {
    pub start: usize,
    pub id: Option<String>,
    pub name: String,
    pub args: Vec<Const>,
}

/// Binds a module instance under a name for later lookup.
#[derive(Debug)]
pub struct Register {
    pub start: usize,
    pub name: String,
    pub id: Option<String>,
}

/// A global-read request.
#[derive(Debug)]
pub struct GetGlobal {
    pub start: usize,
    pub id: Option<String>,
    pub name: String,
}

/// A module supplied as literal source text or as raw encoded bytes.
#[derive(Debug)]
pub enum Embedded {
    Quote(String),
    Binary(Vec<u8>),
}

#[derive(Debug)]
pub struct EmbeddedModule {
    pub start: usize,
    pub embedded: Embedded,
}

/// An assertion on a call's or global read's returned value.
#[derive(Debug)]
pub enum AssertReturn {
    Invoke { start: usize, invoke: Invoke, expected: Option<Const> },
    Global { start: usize, get: GetGlobal, expected: Const },
}

/// An assertion that a call traps, with the expected diagnostic substring.
#[derive(Debug)]
pub struct AssertTrap {
    pub start: usize,
    pub invoke: Invoke,
    pub expected: String,
}

/// An assertion that an embedded module is malformed.
#[derive(Debug)]
pub struct AssertMalformed {
    pub start: usize,
    pub module: EmbeddedModule,
    pub expected: String,
}

/// An assertion that an inline module is invalid.
pub struct AssertInvalid<'s> {
    pub start: usize,
    pub wat: InlineModule<'s>,
    pub expected: String,
}

/// An assertion that an inline module does not link.
pub struct AssertUnlinkable<'s> {
    pub start: usize,
    pub wat: InlineModule<'s>,
    pub expected: String,
}

/// An assertion that a call exhausts the stack.
#[derive(Debug)]
pub struct AssertExhaustion {
    pub start: usize,
    pub invoke: Invoke,
    pub expected: String,
}

/// One top-level parsed statement of the script.
pub enum Directive<'s> {
    AssertReturn(AssertReturn),
    AssertTrap(AssertTrap),
    AssertMalformed(AssertMalformed),
    AssertInvalid(AssertInvalid<'s>),
    AssertUnlinkable(AssertUnlinkable<'s>),
    AssertExhaustion(AssertExhaustion),
    Register(Register),
    Invoke(Invoke),
    QuoteModule(String),
    BinaryModule(Vec<u8>),
    InlineModule(InlineModule<'s>),
}

/// The kind tag of a directive, used to talk about order without payloads.
#[derive(Clone, Copy, PartialEq, Eq, Structural, Debug)]
pub enum DirectiveKind {
    AssertReturn,
    AssertTrap,
    AssertMalformed,
    AssertInvalid,
    AssertUnlinkable,
    AssertExhaustion,
    Register,
    Invoke,
    QuoteModule,
    BinaryModule,
    InlineModule,
}

impl<'s> Directive<'s> {
    /// The tag this directive serializes to.
    pub open spec fn spec_kind(&self) -> DirectiveKind {
        match self {
            Directive::AssertReturn(_) => DirectiveKind::AssertReturn,
            Directive::AssertTrap(_) => DirectiveKind::AssertTrap,
            Directive::AssertMalformed(_) => DirectiveKind::AssertMalformed,
            Directive::AssertInvalid(_) => DirectiveKind::AssertInvalid,
            Directive::AssertUnlinkable(_) => DirectiveKind::AssertUnlinkable,
            Directive::AssertExhaustion(_) => DirectiveKind::AssertExhaustion,
            Directive::Register(_) => DirectiveKind::Register,
            Directive::Invoke(_) => DirectiveKind::Invoke,
            Directive::QuoteModule(_) => DirectiveKind::QuoteModule,
            Directive::BinaryModule(_) => DirectiveKind::BinaryModule,
            Directive::InlineModule(_) => DirectiveKind::InlineModule,
        }
    }

    /// The tag, computed.
    pub fn kind(&self) -> (k: DirectiveKind)
        ensures
            k == self.spec_kind(),
    {
        match self {
            Directive::AssertReturn(_) => DirectiveKind::AssertReturn,
            Directive::AssertTrap(_) => DirectiveKind::AssertTrap,
            Directive::AssertMalformed(_) => DirectiveKind::AssertMalformed,
            Directive::AssertInvalid(_) => DirectiveKind::AssertInvalid,
            Directive::AssertUnlinkable(_) => DirectiveKind::AssertUnlinkable,
            Directive::AssertExhaustion(_) => DirectiveKind::AssertExhaustion,
            Directive::Register(_) => DirectiveKind::Register,
            Directive::Invoke(_) => DirectiveKind::Invoke,
            Directive::QuoteModule(_) => DirectiveKind::QuoteModule,
            Directive::BinaryModule(_) => DirectiveKind::BinaryModule,
            Directive::InlineModule(_) => DirectiveKind::InlineModule,
        }
    }
}

/// The whole script: its directives in source order.
pub struct Root<'s> {
    pub directives: Vec<Directive<'s>>,
}

impl<'s> Root<'s> {
    /// Serialize the directive kinds, in order.
    ///
    /// Re-serializing a parsed script's directive kinds reproduces exactly
    /// the sequence of tags of its directives: same length, same tag at each
    /// position — nothing is reordered or dropped.
    pub fn kinds(&self) -> (ks: Vec<DirectiveKind>)
        ensures
            ks@.len() == self.directives@.len(),
            forall|i: int|
                0 <= i < ks@.len() ==> ks@[i] == self.directives@[i].spec_kind(),
    {
        let mut ks: Vec<DirectiveKind> = Vec::new();
        let mut i: usize = 0;
        while i < self.directives.len()
            invariant
                0 <= i <= self.directives@.len(),
                ks@.len() == i,
                forall|j: int| 0 <= j < i ==> ks@[j] == self.directives@[j].spec_kind(),
            decreases self.directives@.len() - i,
        {
            ks.push(self.directives[i].kind());
            i += 1;
        }
        ks
    }
}

} // verus!
