use wain_ast as ast;
use wast_parser::ast::{
    AssertExhaustion, AssertInvalid, AssertMalformed, AssertReturn, AssertTrap, AssertUnlinkable,
    Const, Directive, Embedded, EmbeddedModule, GetGlobal, Invoke, Register, Root,
};
use wast_parser::parser::{PResult, Parser};

#[test]
fn embedded_module() {
    let s = r#"
      (module binary
        "\00asm" "\01\00\00\00"
        "\05\04\01"                          ;; Memory section with 1 entry
        "\00\82\00"                          ;; no max, minimum 2
      )
    "#;
    let m: EmbeddedModule = Parser::new(s).parse().unwrap();
    let b: &[u8] = &[0, b'a', b's', b'm', 0x1, 0, 0, 0, 0x5, 0x4, 1, 0, 0x82, 0];
    match m.embedded {
        Embedded::Binary(bin) => assert_eq!(bin.as_slice(), b),
        Embedded::Quote(s) => panic!("not a binary: {}", s),
    }

    let s = r#"
      (module quote
        "(memory $foo 1)"
        "(memory $foo 1)")
    "#;
    let m: EmbeddedModule = Parser::new(s).parse().unwrap();
    let expected = r#"(memory $foo 1)(memory $foo 1)"#;
    match m.embedded {
        Embedded::Quote(s) => assert_eq!(&s, expected),
        Embedded::Binary(b) => panic!("not a text: {:?}", b),
    }

    // Identifier is ignored
    let s = r#"(module $M1 binary "\00asm\01\00\00\00")"#;
    let _: EmbeddedModule = Parser::new(s).parse().unwrap();

    let s = r#"
      (module
        (type (func))
        (func $f (type 0))
        (memory 0)
        (start 0)
      )
    "#;
    assert!(Parser::new(s).parse::<EmbeddedModule>().is_err());
}

#[test]
fn constants() {
    fn p(s: &str) -> PResult<Const> {
        Parser::new(s).parse()
    }
    fn f32c(v: f32) -> Const {
        Const::Fp32(v.to_bits())
    }
    fn f64c(v: f64) -> Const {
        Const::Fp64(v.to_bits())
    }

    assert_eq!(p("(i32.const 0)").unwrap(), Const::I32(0));
    assert_eq!(p("(i32.const 123)").unwrap(), Const::I32(123));
    assert_eq!(p("(i32.const 0xedf)").unwrap(), Const::I32(0xedf));
    assert_eq!(p("(i32.const -123)").unwrap(), Const::I32(-123));
    assert_eq!(
        p(r#"(i32.const 2147483647)"#).unwrap(),
        Const::I32(2147483647), // INT32_MAX
    );
    assert_eq!(
        p(r#"(i32.const 0x7fffffff)"#).unwrap(),
        Const::I32(0x7fffffff), // INT32_MAX
    );
    assert_eq!(
        p(r#"(i32.const -2147483648)"#).unwrap(),
        Const::I32(-2147483648), // INT32_MIN
    );
    assert_eq!(
        p(r#"(i32.const -0x80000000)"#).unwrap(),
        Const::I32(-0x80000000), // INT32_MAX
    );
    assert_eq!(
        p(r#"(i32.const 0xfedc6543)"#).unwrap(),
        Const::I32(-19110589), // INT32_MAX < i < UINT32_MAX
    );
    assert_eq!(p(r#"(i32.const 4294967295)"#).unwrap(), Const::I32(-1)); // UINT32_MAX
    assert_eq!(p(r#"(i32.const 0xffffffff)"#).unwrap(), Const::I32(-1)); // UINT32_MAX

    assert_eq!(p("(i64.const 0)").unwrap(), Const::I64(0));
    assert_eq!(p("(i64.const 123)").unwrap(), Const::I64(123));
    assert_eq!(p("(i64.const 0xedf)").unwrap(), Const::I64(0xedf));
    assert_eq!(p("(i64.const -123)").unwrap(), Const::I64(-123));
    assert_eq!(
        p(r#"(i64.const 9223372036854775807)"#).unwrap(),
        Const::I64(9223372036854775807), // INT64_MAX
    );
    assert_eq!(
        p(r#"(i64.const -9223372036854775808)"#).unwrap(),
        Const::I64(-9223372036854775808), // INT64_MIN
    );
    assert_eq!(
        p(r#"(i64.const 0x7fffffffffffffff)"#).unwrap(),
        Const::I64(0x7fffffffffffffff), // INT64_MAX
    );
    assert_eq!(
        p(r#"(i64.const -0x8000000000000000)"#).unwrap(),
        Const::I64(-0x8000000000000000), // INT64_MIN
    );
    assert_eq!(
        p(r#"(i64.const 0x8000000000000000)"#).unwrap(),
        Const::I64(-9223372036854775808), // INT64_MAX + 1
    );
    assert_eq!(
        p(r#"(i64.const 0xffffffffffffffff)"#).unwrap(),
        Const::I64(-1), // UINT64_MAX
    );
    assert_eq!(
        p(r#"(i64.const 18446744073709551615)"#).unwrap(),
        Const::I64(-1), // UINT64_MAX
    );

    assert_eq!(p("(f32.const 0)").unwrap(), f32c(0.0));
    assert_eq!(p("(f32.const 123)").unwrap(), f32c(123.0));
    assert_eq!(p("(f32.const 0xedf)").unwrap(), f32c(0xedf as f32));
    assert_eq!(p("(f32.const -123)").unwrap(), f32c(-123.0));
    assert_eq!(p("(f32.const 0.0)").unwrap(), f32c(0.0));
    assert_eq!(p("(f32.const 123.456)").unwrap(), f32c(123.456));
    assert_eq!(p("(f32.const 1.23e10)").unwrap(), f32c(1.23e10));
    assert_eq!(p("(f32.const 0x12.34)").unwrap(), f32c(18.203125));
    assert_eq!(p("(f32.const 0x12.34p2)").unwrap(), f32c(72.8125));
    assert_eq!(p("(f32.const 0x12.34p-2)").unwrap(), f32c(4.55078125));
    assert_eq!(p("(f32.const -123.456)").unwrap(), f32c(-123.456));
    assert_eq!(p("(f32.const -1.23e10)").unwrap(), f32c(-1.23e10));
    assert_eq!(p("(f32.const -0x12.34)").unwrap(), f32c(-18.203125));
    assert_eq!(p("(f32.const -0x12.34p2)").unwrap(), f32c(-72.8125));
    assert_eq!(p("(f32.const -0x12.34p-2)").unwrap(), f32c(-4.55078125));

    assert_eq!(p("(f64.const 0)").unwrap(), f64c(0.0));
    assert_eq!(p("(f64.const 123)").unwrap(), f64c(123.0));
    assert_eq!(p("(f64.const 0xedf)").unwrap(), f64c(0xedf as f64));
    assert_eq!(p("(f64.const -123)").unwrap(), f64c(-123.0));
    assert_eq!(p("(f64.const 0.0)").unwrap(), f64c(0.0));
    assert_eq!(p("(f64.const 123.456)").unwrap(), f64c(123.456));
    assert_eq!(p("(f64.const 1.23e10)").unwrap(), f64c(1.23e10));
    assert_eq!(p("(f64.const 0x12.34)").unwrap(), f64c(18.203125));
    assert_eq!(p("(f64.const 0x12.34p2)").unwrap(), f64c(72.8125));
    assert_eq!(p("(f64.const 0x12.34p-2)").unwrap(), f64c(4.55078125));
    assert_eq!(p("(f64.const -123.456)").unwrap(), f64c(-123.456));
    assert_eq!(p("(f64.const -1.23e10)").unwrap(), f64c(-1.23e10));
    assert_eq!(p("(f64.const -0x12.34)").unwrap(), f64c(-18.203125));
    assert_eq!(p("(f64.const -0x12.34p2)").unwrap(), f64c(-72.8125));
    assert_eq!(p("(f64.const -0x12.34p-2)").unwrap(), f64c(-4.55078125));

    let f = p("(f32.const nan)").unwrap();
    assert!(matches!(f, Const::Fp32(b) if f32::from_bits(b).is_nan()));
    let f = p("(f32.const -nan)").unwrap();
    assert!(matches!(f, Const::Fp32(b) if f32::from_bits(b).is_nan()));
    let f = p("(f32.const nan:0x12)").unwrap();
    assert!(matches!(f, Const::Fp32(b) if f32::from_bits(b).is_nan()));
    let f = p("(f32.const nan:canonical)").unwrap();
    assert_eq!(f, Const::CanonicalNan);
    let f = p("(f32.const nan:arithmetic)").unwrap();
    assert_eq!(f, Const::ArithmeticNan);
    let f = p("(f32.const inf)").unwrap();
    assert_eq!(f, f32c(f32::INFINITY));
    let f = p("(f32.const -inf)").unwrap();
    assert_eq!(f, f32c(f32::NEG_INFINITY));

    let f = p("(f64.const nan)").unwrap();
    assert!(matches!(f, Const::Fp64(b) if f64::from_bits(b).is_nan()));
    let f = p("(f64.const -nan)").unwrap();
    assert!(matches!(f, Const::Fp64(b) if f64::from_bits(b).is_nan()));
    let f = p("(f64.const nan:0x12)").unwrap();
    assert!(matches!(f, Const::Fp64(b) if f64::from_bits(b).is_nan()));
    let f = p("(f64.const nan:canonical)").unwrap();
    assert_eq!(f, Const::CanonicalNan);
    let f = p("(f64.const nan:arithmetic)").unwrap();
    assert_eq!(f, Const::ArithmeticNan);
    let f = p("(f64.const inf)").unwrap();
    assert_eq!(f, f64c(f64::INFINITY));
    let f = p("(f64.const -inf)").unwrap();
    assert_eq!(f, f64c(f64::NEG_INFINITY));
}

#[test]
fn invoke() {
    let i: Invoke = Parser::new(r#"(invoke "foo")"#).parse().unwrap();
    assert_eq!(i.name, "foo");
    assert!(i.args.is_empty());

    let i: Invoke = Parser::new(r#"(invoke "foo" (i32.const 123) (f64.const 1.23))"#)
        .parse()
        .unwrap();
    assert_eq!(i.name, "foo");
    assert_eq!(i.args.len(), 2);
    assert_eq!(i.args[0], Const::I32(123));
    assert_eq!(i.args[1], Const::Fp64(1.23f64.to_bits()));

    let i: Invoke = Parser::new(r#"(invoke $Func "e" (i32.const 42))"#)
        .parse()
        .unwrap();
    assert_eq!(i.id, Some("$Func".to_string()));
    assert_eq!(i.name, "e");
    assert_eq!(i.args.len(), 1);
    assert_eq!(i.args[0], Const::I32(42));
}

#[test]
fn register() {
    let r: Register = Parser::new(r#"(register "foo")"#).parse().unwrap();
    assert_eq!(r.name, "foo");
    assert_eq!(r.id, None);
    let r: Register = Parser::new(r#"(register "foo" $foo)"#).parse().unwrap();
    assert_eq!(r.name, "foo");
    assert_eq!(r.id, Some("$foo".to_string()));
}

#[test]
fn assert_return() {
    let a: AssertReturn = Parser::new(
        r#"(assert_return
          (invoke "8u_good1" (i32.const 0))
          (i32.const 97)
        )"#,
    )
    .parse()
    .unwrap();

    match a {
        AssertReturn::Invoke {
            invoke, expected, ..
        } => {
            assert_eq!(invoke.name, "8u_good1");
            assert_eq!(invoke.args.len(), 1);
            assert_eq!(invoke.args[0], Const::I32(0));
            assert_eq!(expected, Some(Const::I32(97)));
        }
        _ => panic!("expected invoke"),
    }

    let a: AssertReturn = Parser::new(r#"(assert_return (invoke "type-i32"))"#)
        .parse()
        .unwrap();

    match a {
        AssertReturn::Invoke {
            invoke, expected, ..
        } => {
            assert_eq!(invoke.name, "type-i32");
            assert!(invoke.args.is_empty());
            assert_eq!(expected, None);
        }
        _ => panic!("expected invoke"),
    }

    let a: AssertReturn = Parser::new(r#"(assert_return (get "e") (i32.const 42))"#)
        .parse()
        .unwrap();

    match a {
        AssertReturn::Global { get, expected, .. } => {
            assert_eq!(get.id, None);
            assert_eq!(get.name, "e");
            assert_eq!(expected, Const::I32(42));
        }
        _ => panic!("expected global"),
    }

    let a: AssertReturn = Parser::new(r#"(assert_return (get $Global "e") (i32.const 42))"#)
        .parse()
        .unwrap();

    match a {
        AssertReturn::Global { get, expected, .. } => {
            assert_eq!(get.id, Some("$Global".to_string()));
            assert_eq!(get.name, "e");
            assert_eq!(expected, Const::I32(42));
        }
        _ => panic!("expected global"),
    }
}

#[test]
fn assert_trap() {
    let a: AssertTrap = Parser::new(
        r#"(assert_trap (invoke "32_good5" (i32.const 65508)) "out of bounds memory access")"#,
    )
    .parse()
    .unwrap();

    assert_eq!(a.invoke.name, "32_good5");
    assert_eq!(a.invoke.args.len(), 1);
    assert_eq!(a.invoke.args[0], Const::I32(65508));
    assert_eq!(a.expected, "out of bounds memory access");
}

#[test]
fn assert_malformed() {
    let a: AssertMalformed = Parser::new(
        r#"(assert_malformed
          (module quote
            "(module (memory 0) (func (drop (i32.load8_s align=7 (i32.const 0)))))"
          )
          "alignment"
        )"#,
    )
    .parse()
    .unwrap();

    assert!(matches!(a.module.embedded, Embedded::Quote(_)));
    assert_eq!(a.expected, "alignment");

    let a: AssertMalformed = Parser::new(
        r#"(assert_malformed
          (module binary "\00asm" "\01\00\00\00")
          "integer too large"
        )"#,
    )
    .parse()
    .unwrap();

    assert!(matches!(a.module.embedded, Embedded::Binary(_)));
    assert_eq!(a.expected, "integer too large");
}

#[test]
fn assert_invalid() {
    let a: AssertInvalid = Parser::new(
        r#"(assert_invalid
          (module (memory 0) (func (drop (i32.load8_s align=2 (i32.const 0)))))
          "alignment must not be larger than natural"
        )"#,
    )
    .parse()
    .unwrap();

    assert_eq!(a.expected, "alignment must not be larger than natural");

    let m = a.wat.root.module;
    assert_eq!(m.memories.len(), 1);
    assert!(matches!(&m.memories[0], ast::Memory {
        ty: ast::MemType {
            limit: ast::Limits::From(0),
        },
        import: None,
        ..
    }));

    assert_eq!(m.funcs.len(), 1);
    assert!(matches!(&m.funcs[0], ast::Func {
        idx: 0,
        kind: ast::FuncKind::Body {
            locals,
            expr,
        },
        ..
    } if locals.is_empty() && expr.len() == 3));
}

#[test]
fn assert_unlinkable() {
    let a: AssertUnlinkable = Parser::new(
        r#"(assert_unlinkable
          (module
            (memory 0)
            (data (i32.const 0) "a")
          )
          "data segment does not fit"
        )"#,
    )
    .parse()
    .unwrap();

    assert_eq!(a.expected, "data segment does not fit");

    let m = a.wat.root.module;
    assert_eq!(m.memories.len(), 1);
    assert!(matches!(&m.memories[0], ast::Memory {
        ty: ast::MemType {
            limit: ast::Limits::From(0),
        },
        import: None,
        ..
    }));

    assert_eq!(m.data.len(), 1);
    assert!(matches!(&m.data[0], ast::DataSegment {
        idx: 0,
        offset,
        data,
        ..
    } if data.as_ref() == &b"a"[..] && offset.len() == 1));
}

#[test]
fn assert_exhaustion() {
    let a: AssertExhaustion = Parser::new(
        r#"(assert_exhaustion
          (invoke "fac-rec" (i64.const 1073741824))
          "call stack exhausted"
        )"#,
    )
    .parse()
    .unwrap();

    assert_eq!(a.expected, "call stack exhausted");
    assert_eq!(a.invoke.name, "fac-rec");
    assert_eq!(a.invoke.args.len(), 1);
    assert_eq!(a.invoke.args[0], Const::I64(1073741824));
}

#[test]
fn directive() {
    let d: Directive = Parser::new(
        r#"
        (module
          (func (export "br") (block (br 0)))
          (func (export "br_if") (block (br_if 0 (i32.const 1))))
          (func (export "br_table") (block (br_table 0 (i32.const 0))))
        )
        "#,
    )
    .parse()
    .unwrap();
    assert!(matches!(d, Directive::InlineModule(_)));

    let d: Directive = Parser::new(r#"(assert_return (invoke "br"))"#)
        .parse()
        .unwrap();
    assert!(matches!(d, Directive::AssertReturn(_)));

    let d: Directive = Parser::new(
        r#"
        (assert_invalid
          (module (memory 0) (func (drop (i32.load8_s align=2 (i32.const 0)))))
          "alignment must not be larger than natural"
        )
        "#,
    )
    .parse()
    .unwrap();
    assert!(matches!(d, Directive::AssertInvalid(_)));

    let d: Directive = Parser::new(
        r#"
        (module binary "\00asm\01\00\00\00")
        (assert_return (invoke "br"))
        "#,
    )
    .parse()
    .unwrap();
    assert!(matches!(d, Directive::BinaryModule(_)));

    let d: Directive = Parser::new(r#"(module quote "(memory $foo 1)" "(memory $foo 1)")"#)
        .parse()
        .unwrap();
    assert!(matches!(d, Directive::QuoteModule(_)));
}

#[test]
fn root() {
    let root: Root = Parser::new(
        r#"
        (module
          (func (export "br") (block (br 0)))
          (func (export "br_if") (block (br_if 0 (i32.const 1))))
          (func (export "br_table") (block (br_table 0 (i32.const 0))))
        )
        (assert_return (invoke "br"))
        (assert_return (invoke "br_if"))
        (assert_return (invoke "br_table"))

        (module binary "\00asm\01\00\00\00")
        (module $M1 binary "\00asm\01\00\00\00")

        (module
          (func (export "add") (param $x i32) (param $y i32) (result i32) (i32.add (local.get $x) (local.get $y)))
        )

        (assert_return (invoke "add" (i32.const 1) (i32.const 1)) (i32.const 2))
        (assert_return (invoke "add" (i32.const 1) (i32.const 0)) (i32.const 1))
        (assert_return (invoke "add" (i32.const -1) (i32.const -1)) (i32.const -2))
        (assert_return (invoke "add" (i32.const -1) (i32.const 1)) (i32.const 0))
        "#,
    )
    .parse()
    .unwrap();

    assert_eq!(root.directives.len(), 11);

    let d = root.directives;
    assert!(matches!(d[0], Directive::InlineModule(_)));
    assert!(matches!(d[1], Directive::AssertReturn(_)));
    assert!(matches!(d[2], Directive::AssertReturn(_)));
    assert!(matches!(d[3], Directive::AssertReturn(_)));
    assert!(matches!(d[4], Directive::BinaryModule(_)));
    assert!(matches!(d[5], Directive::BinaryModule(_)));
    assert!(matches!(d[6], Directive::InlineModule(_)));
    assert!(matches!(d[7], Directive::AssertReturn(_)));
    assert!(matches!(d[8], Directive::AssertReturn(_)));
    assert!(matches!(d[9], Directive::AssertReturn(_)));
    assert!(matches!(d[10], Directive::AssertReturn(_)));
}
