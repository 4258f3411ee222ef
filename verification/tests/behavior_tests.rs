use wast_parser::ast::{Const, DirectiveKind, Root};
use wast_parser::error::{ErrorKind, IntFault};
use wast_parser::escape::parse_escaped_bytes;
use wast_parser::parser::{PResult, Parser};

fn pc(s: &str) -> PResult<Const> {
    Parser::new(s).parse()
}

#[test]
fn integer_range_edges() {
    // one past the signed minimum magnitude is rejected as too small
    let e = pc("(i32.const -2147483649)").unwrap_err();
    assert!(matches!(e.kind, ErrorKind::TooSmallInt { .. }));
    let e = pc("(i64.const -9223372036854775809)").unwrap_err();
    assert!(matches!(e.kind, ErrorKind::TooSmallInt { .. }));

    // past the unsigned maximum the unsigned parse itself fails
    let e = pc("(i32.const 4294967296)").unwrap_err();
    assert!(matches!(
        e.kind,
        ErrorKind::InvalidInt { fault: IntFault::Overflow, .. }
    ));
    let e = pc("(i64.const 18446744073709551616)").unwrap_err();
    assert!(matches!(
        e.kind,
        ErrorKind::InvalidInt { fault: IntFault::Overflow, .. }
    ));

    // separators are skipped
    assert_eq!(pc("(i32.const 1_000_000)").unwrap(), Const::I32(1000000));
    // an empty digit run is rejected by the unsigned parser itself
    assert_eq!(
        wast_parser::num::parse_unsigned("", wast_parser::token::LitBase::Dec, u64::MAX),
        Err(IntFault::Empty)
    );
    assert_eq!(
        wast_parser::num::parse_unsigned("___", wast_parser::token::LitBase::Dec, u64::MAX),
        Err(IntFault::Empty)
    );
}

#[test]
fn float_edges() {
    // saturation to infinity on huge exponents, zero on tiny ones
    assert_eq!(
        pc("(f32.const 1e999999)").unwrap(),
        Const::Fp32(f32::INFINITY.to_bits())
    );
    assert_eq!(pc("(f32.const 1e-999999)").unwrap(), Const::Fp32(0));
    assert_eq!(
        pc("(f64.const 1e999999999)").unwrap(),
        Const::Fp64(f64::INFINITY.to_bits())
    );
    // subnormals decode exactly
    assert_eq!(
        pc("(f32.const 0x1p-149)").unwrap(),
        Const::Fp32(1u32) // least subnormal
    );
    assert_eq!(pc("(f64.const 5e-324)").unwrap(), Const::Fp64(1u64));
    // a binary exponent too large for its 31-bit field is a hex-float error
    let e = pc("(f32.const 0x1p99999999999)").unwrap_err();
    assert!(matches!(e.kind, ErrorKind::InvalidHexFloat { .. }));
    // negative zero keeps its sign bit
    assert_eq!(pc("(f32.const -0.0)").unwrap(), Const::Fp32(0x8000_0000));
    // decimal conversions are exactly rounded
    assert_eq!(
        pc("(f64.const 0.1)").unwrap(),
        Const::Fp64(0.1f64.to_bits())
    );
    assert_eq!(
        pc("(f32.const 3.4028235e38)").unwrap(),
        Const::Fp32(f32::MAX.to_bits())
    );
    assert_eq!(
        pc("(f64.const 1.7976931348623157e308)").unwrap(),
        Const::Fp64(f64::MAX.to_bits())
    );
}

#[test]
fn escape_round_trip() {
    // the embedded-module byte payload decodes to the exact magic+version
    let b1 = parse_escaped_bytes("\\00asm").unwrap();
    let b2 = parse_escaped_bytes("\\01\\00\\00\\00").unwrap();
    let all: Vec<u8> = b1.into_iter().chain(b2.into_iter()).collect();
    assert_eq!(all, vec![0x00, 0x61, 0x73, 0x6D, 0x01, 0x00, 0x00, 0x00]);
}

#[test]
fn escape_faults() {
    // a backslash without two hex digits
    let e = Parser::new(r#"(register "\zz")"#)
        .parse::<wast_parser::ast::Register>()
        .unwrap_err();
    assert!(matches!(e.kind, ErrorKind::InvalidStringLiteral { .. }));
    // an unterminated unicode escape
    let e = Parser::new(r#"(register "\u{30")"#)
        .parse::<wast_parser::ast::Register>()
        .unwrap_err();
    assert!(matches!(e.kind, ErrorKind::InvalidStringLiteral { .. }));
    // a surrogate code point
    let e = Parser::new(r#"(register "\u{d800}")"#)
        .parse::<wast_parser::ast::Register>()
        .unwrap_err();
    assert!(matches!(e.kind, ErrorKind::InvalidStringLiteral { .. }));
    // bytes that are not text are rejected for a name
    let e = Parser::new(r#"(register "\ff\ff")"#)
        .parse::<wast_parser::ast::Register>()
        .unwrap_err();
    assert!(matches!(e.kind, ErrorKind::Utf8Error));
    // a unicode escape decodes through UTF-8 and back
    let r: wast_parser::ast::Register = Parser::new(r#"(register "\u{308f}")"#).parse().unwrap();
    assert_eq!(r.name, "\u{308f}");
}

#[test]
fn unexpected_directive_keyword() {
    let e = match Parser::new("(frobnicate)").parse::<Root>() {
        Err(e) => e,
        Ok(_) => panic!("expected an error"),
    };
    assert!(matches!(e.kind, ErrorKind::Unexpected { .. }));
}

#[test]
fn end_to_end_get_global() {
    // parsing an assert_return on a global read yields the exact action
    let r: Root = Parser::new(r#"(assert_return (get "e") (i32.const 42))"#)
        .parse()
        .unwrap();
    assert_eq!(r.directives.len(), 1);
    match &r.directives[0] {
        wast_parser::ast::Directive::AssertReturn(
            wast_parser::ast::AssertReturn::Global { get, expected, .. },
        ) => {
            assert_eq!(get.id, None);
            assert_eq!(get.name, "e");
            assert_eq!(*expected, Const::I32(42));
        }
        _ => panic!("expected a global-read assertion"),
    }
}

#[test]
fn directive_order_is_kept() {
    let r: Root = Parser::new(
        r#"
        (module binary "\00asm\01\00\00\00")
        (register "m")
        (invoke "f" (i32.const 1))
        (assert_return (invoke "f"))
        (assert_trap (invoke "g") "boom")
        (module quote "(memory 1)")
        "#,
    )
    .parse()
    .unwrap();
    let ks = r.kinds();
    assert_eq!(
        ks,
        vec![
            DirectiveKind::BinaryModule,
            DirectiveKind::Register,
            DirectiveKind::Invoke,
            DirectiveKind::AssertReturn,
            DirectiveKind::AssertTrap,
            DirectiveKind::QuoteModule,
        ]
    );
}

#[test]
fn ambiguity_resolution() {
    // the disambiguating keyword may follow an identifier
    let d: wast_parser::ast::Directive = Parser::new(r#"(module $m quote "(memory 1)")"#)
        .parse()
        .unwrap();
    assert!(matches!(d, wast_parser::ast::Directive::QuoteModule(_)));
    // an empty inline module is not an embedded module
    let d: wast_parser::ast::Directive = Parser::new(r#"(module)"#).parse().unwrap();
    assert!(matches!(d, wast_parser::ast::Directive::InlineModule(_)));
    // a failed speculative parse keeps one level of discarded context
    let e = match Parser::new(r#"(module binary "\zz" extra)"#).parse::<Root>() {
        Err(e) => e,
        Ok(_) => panic!("expected an error"),
    };
    assert!(matches!(e.kind, ErrorKind::Wat(_)));
    match &e.prev_error {
        Some(prev) => assert!(prev.prev_error.is_none()),
        None => panic!("expected the discarded error as context"),
    }
}

#[test]
fn lexical_error_surfaces() {
    let e = Parser::new(r#"(register "unterminated"#)
        .parse::<wast_parser::ast::Register>()
        .unwrap_err();
    assert!(matches!(e.kind, ErrorKind::Lex(_)));
}
