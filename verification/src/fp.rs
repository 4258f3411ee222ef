use vstd::prelude::*;
use vstd::arithmetic::power2::pow2;
use crate::num::{spec_digit_val, spec_scan, digit_val};
use crate::token::{LitBase, LitSign};
use crate::util::str_chars;
use crate::error::IntFault;
use vstd::arithmetic::power2::lemma_pow2_adds;
use vstd::arithmetic::power2::lemma_pow2_unfold;
use vstd::arithmetic::power2::lemma_pow2_strictly_increases;
use vstd::arithmetic::power2::lemma2_to64;
use vstd::arithmetic::power2::lemma2_to64_rest;

verus! {

broadcast use vstd::arithmetic::power2::lemma_pow2_pos;

// Float values are carried as IEEE-754 bit patterns, decoded from literals by
// integer arithmetic alone: the significand is held in a 128-bit window with
// a sticky bit for everything pushed below it, and is rounded to nearest,
// ties to even. The window keeps over 113 significant bits through every
// scaling step, so the result is the exactly rounded value for every literal
// whose significand and scaling fit the window; digits beyond it fold into
// the sticky bit. One caveat: on the decimal path the fold and each division
// by ten truncate into that sticky bit, so a literal of more than about 34
// significant digits lying within about 2^-106 of a rounding boundary can
// round differently from the platform's exact conversion; every shorter
// literal is exact.

/// Bit pattern of the positive quiet NaN a bare `nan` literal decodes to
/// (32-bit).
pub const QNAN32: u32 = 0x7fc0_0000;

/// Bit pattern of positive infinity (32-bit).
pub const INF32: u32 = 0x7f80_0000;

/// Bit pattern of the positive quiet NaN a bare `nan` literal decodes to
/// (64-bit).
pub const QNAN64: u64 = 0x7ff8_0000_0000_0000;

/// Bit pattern of positive infinity (64-bit).
pub const INF64: u64 = 0x7ff0_0000_0000_0000;

/// A value in flight: `m * 2^e`, plus something strictly below one unit of
/// `2^e` when `sticky` is set.
#[derive(Clone, Copy, PartialEq, Eq, Structural, Debug)]
pub struct FpAcc {
    pub m: u128,
    pub e: i64,
    pub sticky: bool,
}

/// `2^k` as a mathematical integer.
pub open spec fn pow2i(k: nat) -> int {
    pow2(k) as int
}

/// Clamp a mathematical integer into the 64-bit signed range. Exponents are
/// handled with saturation instead of wrapping; the bounds are never reached
/// by any literal that fits in memory.
pub open spec fn sat64(v: int) -> i64 {
    if v > i64::MAX {
        i64::MAX
    } else if v < i64::MIN {
        i64::MIN
    } else {
        v as i64
    }
}

pub fn sat_add(e: i64, d: i64) -> (r: i64)
    ensures
        r == sat64(e + d),
{
    if d >= 0 {
        if e <= i64::MAX - d {
            e + d
        } else {
            i64::MAX
        }
    } else {
        if e >= i64::MIN - d {
            e + d
        } else {
            i64::MIN
        }
    }
}

pub fn sat_sub(e: i64, d: i64) -> (r: i64)
    ensures
        r == sat64(e - d),
{
    if d <= 0 {
        if e <= i64::MAX + d {
            e - d
        } else {
            i64::MAX
        }
    } else {
        if e >= i64::MIN + d {
            e - d
        } else {
            i64::MIN
        }
    }
}

/// Number of bits needed to write `m`.
pub open spec fn spec_bitlen(m: u128) -> nat
    decreases m,
{
    if m == 0 {
        0
    } else {
        (1 + spec_bitlen(m / 2)) as nat
    }
}

/// A positive value sits between the powers of two its bit length names.
proof fn lemma_bitlen_range(m: u128)
    ensures
        m > 0 ==> pow2i((spec_bitlen(m) - 1) as nat) <= m < pow2i(spec_bitlen(m)),
        m == 0 ==> spec_bitlen(m) == 0,
    decreases m,
{
    if m > 0 {
        lemma_bitlen_range(m / 2);
        lemma_pow2_unfold(spec_bitlen(m));
        if m / 2 > 0 {
            lemma_pow2_unfold(spec_bitlen(m / 2));
        } else {
            lemma2_to64();
        }
    }
}

proof fn lemma_bitlen_bound(m: u128, k: nat)
    requires
        (m as nat) < pow2(k),
    ensures
        spec_bitlen(m) <= k,
{
    lemma_bitlen_range(m);
    if m > 0 && spec_bitlen(m) > k {
        lemma_pow2_strictly_increases(k, (spec_bitlen(m) - 1) as nat);
        if k < spec_bitlen(m) - 1 {
        } else {
            assert(k == spec_bitlen(m) - 1);
        }
    }
}

proof fn lemma_bitlen_le128(m: u128)
    ensures
        spec_bitlen(m) <= 128,
{
    lemma2_to64();
    lemma_pow2_adds(64, 64);
    assert((m as nat) < 0x1_0000_0000_0000_0000 * 0x1_0000_0000_0000_0000);
    lemma_bitlen_bound(m, 128);
}

pub fn bitlen(m: u128) -> (r: u32)
    ensures
        r == spec_bitlen(m),
{
    proof {
        lemma_bitlen_le128(m);
    }
    let mut v: u128 = m;
    let mut n: u32 = 0;
    while v > 0
        invariant
            n + spec_bitlen(v) == spec_bitlen(m),
            spec_bitlen(m) <= 128,
        decreases v,
    {
        v = v / 2;
        n = n + 1;
    }
    n
}

/// `2^k` as a 128-bit value.
pub fn pow2_128(k: u32) -> (r: u128)
    requires
        k <= 127,
    ensures
        r == pow2i(k as nat),
{
    proof {
        lemma2_to64();
    }
    let mut r: u128 = 1;
    let mut j: u32 = 0;
    while j < k
        invariant
            j <= k <= 127,
            r == pow2i(j as nat),
        decreases k - j,
    {
        proof {
            lemma_pow2_unfold((j + 1) as nat);
            lemma_pow2_strictly_increases((j + 1) as nat, 128);
            lemma2_to64();
            lemma_pow2_adds(64, 64);
        }
        r = r * 2;
        j = j + 1;
    }
    r
}

/// `2^k` as a 64-bit value.
pub fn pow2_64(k: u32) -> (r: u64)
    requires
        k <= 63,
    ensures
        r == pow2i(k as nat),
{
    proof {
        lemma2_to64();
    }
    let mut r: u64 = 1;
    let mut j: u32 = 0;
    while j < k
        invariant
            j <= k <= 63,
            r == pow2i(j as nat),
        decreases k - j,
    {
        proof {
            lemma_pow2_unfold((j + 1) as nat);
            lemma_pow2_strictly_increases((j + 1) as nat, 64);
            lemma2_to64();
        }
        r = r * 2;
        j = j + 1;
    }
    r
}

/// Round `m * 2^e` (plus the sticky tail) to nearest, ties to even, in the
/// format with `p` bits of precision whose least subnormal unit has exponent
/// `eulp`; `infb` is the format's infinity pattern and `infbiased` its biased
/// exponent. The result is the unsigned bit pattern without a sign bit.
pub open spec fn spec_round(acc: FpAcc, p: u32, eulp: i64, infb: u64, infbiased: i64) -> u64 {
    if acc.m == 0 {
        0u64
    } else {
        let len = spec_bitlen(acc.m) as int;
        let a = len - p;
        let b = sat64(eulp - acc.e) as int;
        let s = if a >= b {
            a
        } else {
            b
        };
        if s >= 128 {
            let top = pow2i(127);
            let up = s == 128 && (acc.m > top || (acc.m == top && acc.sticky));
            spec_assemble(
                if up {
                    1u64
                } else {
                    0u64
                },
                sat64(acc.e + s),
                p,
                eulp,
                infb,
                infbiased,
            )
        } else if s <= 0 {
            spec_assemble(
                ((acc.m as int) * pow2i((0 - s) as nat)) as u64,
                sat64(acc.e + s),
                p,
                eulp,
                infb,
                infbiased,
            )
        } else {
            let keep = ((acc.m as int) / pow2i(s as nat)) as u64;
            let rem = (acc.m as int) % pow2i(s as nat);
            let half = pow2i((s - 1) as nat);
            let up = rem > half || (rem == half && (acc.sticky || keep % 2 == 1));
            let keep2 = if up && keep < u64::MAX {
                (keep + 1) as u64
            } else {
                keep
            };
            spec_assemble(keep2, sat64(acc.e + s), p, eulp, infb, infbiased)
        }
    }
}

/// Build the bit pattern from the kept significand and its unit exponent.
pub open spec fn spec_assemble(keep0: u64, e0: i64, p: u32, eulp: i64, infb: u64, infbiased: i64) -> u64 {
    let carried = keep0 == pow2i(p as nat);
    let keep = if carried {
        (keep0 / 2) as u64
    } else {
        keep0
    };
    let e_ulp = if carried {
        sat64(e0 + 1)
    } else {
        e0
    };
    if keep == 0 {
        0u64
    } else if keep >= pow2i((p - 1) as nat) {
        let biased = sat64(sat64(e_ulp + 1) - eulp);
        if biased >= infbiased {
            infb
        } else {
            ((biased as int) * pow2i((p - 1) as nat) + (keep - pow2i((p - 1) as nat))) as u64
        }
    } else {
        keep
    }
}

/// Exact integer rounding of the accumulated value to the format's bits.
pub fn round_bits(acc: FpAcc, p: u32, eulp: i64, infb: u64, infbiased: i64) -> (r: u64)
    requires
        2 <= p <= 53,
        -1100 <= eulp <= -1,
        0 <= infbiased <= 0x7ff,
    ensures
        r == spec_round(acc, p, eulp, infb, infbiased),
{
    if acc.m == 0 {
        return 0u64;
    }
    let len = bitlen(acc.m) as i64;
    proof {
        lemma_bitlen_le128(acc.m);
        lemma_bitlen_range(acc.m);
    }
    let a = len - p as i64;
    let b = sat_sub(eulp, acc.e);
    let s = if a >= b {
        a
    } else {
        b
    };
    if s >= 128 {
        let top: u128 = pow2_128(127);
        let up = s == 128 && (acc.m > top || (acc.m == top && acc.sticky));
        let keep: u64 = if up {
            1
        } else {
            0
        };
        assemble(keep, sat_add(acc.e, s), p, eulp, infb, infbiased)
    } else if s <= 0 {
        let sh = (0 - s) as u32;
        let pw = pow2_128(sh);
        proof {
            assert(sh <= p - len <= 53);
            assert(acc.m < pow2i(len as nat));
            assert((acc.m as int) * pow2i(sh as nat) < pow2i(len as nat) * pow2i(sh as nat)) by (nonlinear_arith)
                requires
                    acc.m < pow2i(len as nat),
                    pow2i(sh as nat) > 0,
            ;
            lemma_pow2_adds(len as nat, sh as nat);
            if len + sh < p {
                lemma_pow2_strictly_increases((len + sh) as nat, p as nat);
            }
            lemma_pow2_strictly_increases(p as nat, 64);
            lemma2_to64();
            assert((acc.m as int) * pow2i(sh as nat) < pow2i(p as nat));
        }
        let keep = (acc.m * pw) as u64;
        assemble(keep, sat_add(acc.e, s), p, eulp, infb, infbiased)
    } else {
        let pw = pow2_128(s as u32);
        let keep_w: u128 = acc.m / pw;
        let rem: u128 = acc.m % pw;
        let half: u128 = pow2_128((s - 1) as u32);
        proof {
            assert(keep_w == (acc.m as int) / pow2i(s as nat));
            assert(acc.m < pow2i(len as nat));
            assert(keep_w * pow2i(s as nat) <= acc.m) by (nonlinear_arith)
                requires
                    keep_w == (acc.m as int) / pow2i(s as nat),
                    pow2i(s as nat) > 0,
            ;
            if s >= len {
                if s > len {
                    lemma_pow2_strictly_increases(len as nat, s as nat);
                }
                assert(keep_w == 0) by (nonlinear_arith)
                    requires
                        keep_w * pow2i(s as nat) <= acc.m,
                        (acc.m as int) < pow2i(s as nat),
                        keep_w >= 0,
                        pow2i(s as nat) > 0,
                ;
            } else {
                assert(keep_w < pow2i((len - s) as nat)) by {
                    lemma_pow2_adds((len - s) as nat, s as nat);
                    if keep_w >= pow2i((len - s) as nat) {
                        assert(keep_w * pow2i(s as nat) >= pow2i((len - s) as nat) * pow2i(
                            s as nat,
                        )) by (nonlinear_arith)
                            requires
                                keep_w >= pow2i((len - s) as nat),
                                pow2i(s as nat) > 0,
                        ;
                    }
                }
                lemma_pow2_strictly_increases((len - s) as nat, 64);
                if len - s < p {
                    lemma_pow2_strictly_increases((len - s) as nat, p as nat);
                }
            }
            lemma_pow2_strictly_increases(p as nat, 64);
            lemma2_to64();
            assert(keep_w < pow2i(p as nat));
        }
        let keep = keep_w as u64;
        let up = rem > half || (rem == half && (acc.sticky || keep % 2 == 1));
        let keep2 = if up && keep < u64::MAX {
            keep + 1
        } else {
            keep
        };
        assemble(keep2, sat_add(acc.e, s), p, eulp, infb, infbiased)
    }
}

fn assemble(keep0: u64, e0: i64, p: u32, eulp: i64, infb: u64, infbiased: i64) -> (r: u64)
    requires
        2 <= p <= 53,
        -1100 <= eulp <= -1,
        0 <= infbiased <= 0x7ff,
        keep0 <= pow2i(p as nat),
        e0 >= eulp,
    ensures
        r == spec_assemble(keep0, e0, p, eulp, infb, infbiased),
{
    let pbit: u64 = pow2_64(p);
    let hbit: u64 = pow2_64(p - 1);
    let carried = keep0 == pbit;
    let keep = if carried {
        keep0 / 2
    } else {
        keep0
    };
    let e_ulp = if carried {
        sat_add(e0, 1)
    } else {
        e0
    };
    if keep == 0 {
        0u64
    } else if keep >= hbit {
        let biased = sat_sub(sat_add(e_ulp, 1), eulp);
        if biased >= infbiased {
            infb
        } else {
            proof {
                lemma_pow2_unfold(p as nat);
                assert(0 <= biased < 0x7ff);
                assert(keep < pbit);
                assert(pbit == 2 * hbit);
                if p - 1 < 52 {
                    lemma_pow2_strictly_increases((p - 1) as nat, 52);
                }
                lemma2_to64();
                lemma2_to64_rest();
                assert(hbit <= 0x10_0000_0000_0000u64);
                assert((biased as int) * (hbit as int) <= 0x7fe * 0x10_0000_0000_0000)
                    by (nonlinear_arith)
                    requires
                        0 <= biased <= 0x7fe,
                        0 <= hbit <= 0x10_0000_0000_0000u64,
                ;
            }
            (biased as u64) * hbit + (keep - hbit)
        }
    } else {
        keep
    }
}


/// One pass over a hexadecimal fraction: digits fill the significand window
/// sixteen-fold, digits after the radix point lower the exponent by four, and
/// digits past the window only adjust the exponent and the sticky bit.
pub open spec fn spec_hex_fold(s: Seq<char>, acc: FpAcc, post: bool) -> Option<FpAcc>
    decreases s.len(),
{
    if s.len() == 0 {
        Some(acc)
    } else {
        let c = s[0];
        if c == '_' {
            spec_hex_fold(s.skip(1), acc, post)
        } else if c == '.' && !post {
            spec_hex_fold(s.skip(1), acc, true)
        } else {
            match spec_digit_val(c, LitBase::Hex) {
                None => None,
                Some(d) => {
                    let acc2 = if acc.m < pow2i(120) {
                        FpAcc {
                            m: (acc.m * 16 + d) as u128,
                            e: if post {
                                sat64(acc.e - 4)
                            } else {
                                acc.e
                            },
                            sticky: acc.sticky,
                        }
                    } else {
                        FpAcc {
                            m: acc.m,
                            e: if post {
                                acc.e
                            } else {
                                sat64(acc.e + 4)
                            },
                            sticky: acc.sticky || d != 0,
                        }
                    };
                    spec_hex_fold(s.skip(1), acc2, post)
                },
            }
        }
    }
}

/// Walk a hexadecimal fraction text into a significand accumulator.
#[verifier::loop_isolation(false)]
pub fn hex_fold(frac: &str) -> (r: Option<FpAcc>)
    ensures
        r == spec_hex_fold(frac@, FpAcc { m: 0, e: 0, sticky: false }, false),
{
    let cs = str_chars(frac);
    let ghost all = frac@;
    let mut acc = FpAcc { m: 0, e: 0, sticky: false };
    let mut post: bool = false;
    let mut i: usize = 0;
    let p120 = pow2_128(120);
    proof {
        assert(all.skip(0) =~= all);
        lemma_pow2_adds(120, 4);
        lemma_pow2_adds(64, 64);
        lemma_pow2_strictly_increases(124, 128);
        lemma2_to64();
    }
    while i < cs.len()
        invariant
            cs@ == all,
            0 <= i <= all.len(),
            p120 == pow2i(120),
            spec_hex_fold(all, FpAcc { m: 0, e: 0, sticky: false }, false) == spec_hex_fold(
                all.skip(i as int),
                acc,
                post,
            ),
        decreases all.len() - i,
    {
        let c = cs[i];
        proof {
            assert(all.skip(i as int)[0] == all[i as int]);
            assert(all.skip(i as int).skip(1) =~= all.skip(i + 1));
        }
        if c == '_' {
        } else if c == '.' && !post {
            post = true;
        } else {
            match digit_val(c, LitBase::Hex) {
                None => {
                    return None;
                },
                Some(d) => {
                    if acc.m < p120 {
                        acc = FpAcc {
                            m: acc.m * 16 + d as u128,
                            e: if post {
                                sat_sub(acc.e, 4)
                            } else {
                                acc.e
                            },
                            sticky: acc.sticky,
                        };
                    } else {
                        acc = FpAcc {
                            m: acc.m,
                            e: if post {
                                acc.e
                            } else {
                                sat_add(acc.e, 4)
                            },
                            sticky: acc.sticky || d != 0,
                        };
                    }
                },
            }
        }
        i += 1;
    }
    proof {
        assert(all.skip(i as int) =~= Seq::<char>::empty());
    }
    Some(acc)
}

/// State of a walk over a decimal fraction: the accumulator, the count of
/// decimal places still to apply, and whether any digit was seen.
#[derive(Clone, Copy, PartialEq, Eq, Structural, Debug)]
pub struct DecFold {
    pub acc: FpAcc,
    pub tens: i64,
    pub seen: bool,
}

/// One pass over a decimal fraction: digits fill the significand window
/// tenfold; a digit after the point owes one division by ten, a digit past
/// the window owes one multiplication, and its value folds into the sticky
/// bit.
pub open spec fn spec_dec_fold(s: Seq<char>, st: DecFold, post: bool) -> Option<DecFold>
    decreases s.len(),
{
    if s.len() == 0 {
        Some(st)
    } else {
        let c = s[0];
        if c == '_' {
            spec_dec_fold(s.skip(1), st, post)
        } else if c == '.' && !post {
            spec_dec_fold(s.skip(1), st, true)
        } else {
            match spec_digit_val(c, LitBase::Dec) {
                None => None,
                Some(d) => {
                    let st2 = if st.acc.m < pow2i(118) {
                        DecFold {
                            acc: FpAcc {
                                m: (st.acc.m * 10 + d) as u128,
                                e: st.acc.e,
                                sticky: st.acc.sticky,
                            },
                            tens: if post {
                                sat64(st.tens - 1)
                            } else {
                                st.tens
                            },
                            seen: true,
                        }
                    } else {
                        DecFold {
                            acc: FpAcc {
                                m: st.acc.m,
                                e: st.acc.e,
                                sticky: st.acc.sticky || d != 0,
                            },
                            tens: if post {
                                st.tens
                            } else {
                                sat64(st.tens + 1)
                            },
                            seen: true,
                        }
                    };
                    spec_dec_fold(s.skip(1), st2, post)
                },
            }
        }
    }
}

/// Walk a decimal fraction text into a significand accumulator.
#[verifier::loop_isolation(false)]
pub fn dec_fold(frac: &str) -> (r: Option<DecFold>)
    ensures
        r == spec_dec_fold(
            frac@,
            DecFold { acc: FpAcc { m: 0, e: 0, sticky: false }, tens: 0, seen: false },
            false,
        ),
        (match r {
            Some(st) => st.acc.m < pow2i(122),
            None => true,
        }),
{
    let cs = str_chars(frac);
    let ghost all = frac@;
    let mut st = DecFold { acc: FpAcc { m: 0, e: 0, sticky: false }, tens: 0, seen: false };
    let mut post: bool = false;
    let mut i: usize = 0;
    let p118 = pow2_128(118);
    proof {
        assert(all.skip(0) =~= all);
        lemma_pow2_strictly_increases(118, 122);
        lemma_pow2_adds(118, 4);
        lemma_pow2_adds(64, 64);
        lemma_pow2_strictly_increases(122, 128);
        lemma2_to64();
    }
    while i < cs.len()
        invariant
            cs@ == all,
            0 <= i <= all.len(),
            p118 == pow2i(118),
            st.acc.m < pow2i(122),
            spec_dec_fold(
                all,
                DecFold { acc: FpAcc { m: 0, e: 0, sticky: false }, tens: 0, seen: false },
                false,
            ) == spec_dec_fold(all.skip(i as int), st, post),
        decreases all.len() - i,
    {
        let c = cs[i];
        proof {
            assert(all.skip(i as int)[0] == all[i as int]);
            assert(all.skip(i as int).skip(1) =~= all.skip(i + 1));
        }
        if c == '_' {
        } else if c == '.' && !post {
            post = true;
        } else {
            match digit_val(c, LitBase::Dec) {
                None => {
                    return None;
                },
                Some(d) => {
                    if st.acc.m < p118 {
                        st = DecFold {
                            acc: FpAcc {
                                m: st.acc.m * 10 + d as u128,
                                e: st.acc.e,
                                sticky: st.acc.sticky,
                            },
                            tens: if post {
                                sat_sub(st.tens, 1)
                            } else {
                                st.tens
                            },
                            seen: true,
                        };
                    } else {
                        st = DecFold {
                            acc: FpAcc {
                                m: st.acc.m,
                                e: st.acc.e,
                                sticky: st.acc.sticky || d != 0,
                            },
                            tens: if post {
                                st.tens
                            } else {
                                sat_add(st.tens, 1)
                            },
                            seen: true,
                        };
                    }
                },
            }
        }
        i += 1;
    }
    proof {
        assert(all.skip(i as int) =~= Seq::<char>::empty());
    }
    Some(st)
}

/// Multiply the accumulated value by ten, `n` times, renormalizing the window
/// and folding shed bits into the sticky bit.
pub open spec fn spec_scale_up(acc: FpAcc, n: nat) -> FpAcc
    decreases n,
{
    if n == 0 {
        acc
    } else {
        let a2 = if acc.m >= pow2i(120) {
            FpAcc { m: (acc.m / 16) as u128, e: sat64(acc.e + 4), sticky: acc.sticky || acc.m % 16
                != 0 }
        } else {
            acc
        };
        spec_scale_up(
            FpAcc { m: (a2.m * 10) as u128, e: a2.e, sticky: a2.sticky },
            (n - 1) as nat,
        )
    }
}

#[verifier::loop_isolation(false)]
pub fn scale_up(acc0: FpAcc, n: u32) -> (r: FpAcc)
    requires
        acc0.m < pow2i(124),
    ensures
        r == spec_scale_up(acc0, n as nat),
{
    let mut acc = acc0;
    let mut j: u32 = 0;
    let p120 = pow2_128(120);
    let p124 = pow2_128(124);
    proof {
        lemma_pow2_adds(120, 4);
        lemma_pow2_adds(64, 64);
        lemma_pow2_strictly_increases(124, 128);
        lemma2_to64();
    }
    while j < n
        invariant
            0 <= j <= n,
            p120 == pow2i(120),
            p124 == pow2i(124),
            acc.m < pow2i(124),
            spec_scale_up(acc0, n as nat) == spec_scale_up(acc, (n - j) as nat),
        decreases n - j,
    {
        let a2 = if acc.m >= p120 {
            FpAcc { m: acc.m / 16, e: sat_add(acc.e, 4), sticky: acc.sticky || acc.m % 16 != 0 }
        } else {
            acc
        };
        proof {
            assert(a2.m < pow2i(120));
        }
        acc = FpAcc { m: a2.m * 10, e: a2.e, sticky: a2.sticky };
        j += 1;
    }
    acc
}

/// Double the significand until it fills the window, lowering the exponent.
pub open spec fn spec_norm_up(acc: FpAcc) -> FpAcc
    decreases pow2i(118) - acc.m,
    via check_norm_up
{
    if acc.m == 0 || acc.m >= pow2i(117) {
        acc
    } else {
        spec_norm_up(FpAcc { m: (acc.m * 2) as u128, e: sat64(acc.e - 1), sticky: acc.sticky })
    }
}

#[via_fn]
proof fn check_norm_up(acc: FpAcc) {
    lemma_pow2_adds(117, 1);
    lemma_pow2_adds(64, 64);
    lemma_pow2_strictly_increases(118, 128);
    lemma2_to64();
}

#[verifier::loop_isolation(false)]
pub fn norm_up(acc0: FpAcc) -> (r: FpAcc)
    ensures
        r == spec_norm_up(acc0),
        r.m == 0 || r.m >= pow2i(117),
        acc0.m < pow2i(124) ==> r.m < pow2i(124),
{
    let mut acc = acc0;
    let p117 = pow2_128(117);
    proof {
        lemma_pow2_adds(117, 1);
        lemma_pow2_strictly_increases(118, 124);
        lemma_pow2_adds(64, 64);
        lemma_pow2_strictly_increases(118, 128);
        lemma2_to64();
    }
    while acc.m != 0 && acc.m < p117
        invariant
            p117 == pow2i(117),
            spec_norm_up(acc0) == spec_norm_up(acc),
            acc0.m < pow2i(124) ==> acc.m < pow2i(124),
        decreases 2 * p117 - acc.m,
    {
        acc = FpAcc { m: acc.m * 2, e: sat_sub(acc.e, 1), sticky: acc.sticky };
    }
    acc
}

/// Divide the accumulated value by ten, `n` times, keeping the window full
/// and folding remainders into the sticky bit.
pub open spec fn spec_scale_down(acc: FpAcc, n: nat) -> FpAcc
    decreases n,
{
    if n == 0 {
        acc
    } else {
        let a2 = spec_norm_up(acc);
        let a3 = FpAcc { m: (a2.m / 10) as u128, e: a2.e, sticky: a2.sticky || a2.m % 10 != 0 };
        spec_scale_down(a3, (n - 1) as nat)
    }
}

#[verifier::loop_isolation(false)]
pub fn scale_down(acc0: FpAcc, n: u32) -> (r: FpAcc)
    requires
        acc0.m < pow2i(124),
    ensures
        r == spec_scale_down(acc0, n as nat),
{
    let mut acc = acc0;
    let mut j: u32 = 0;
    while j < n
        invariant
            0 <= j <= n,
            acc.m < pow2i(124),
            spec_scale_down(acc0, n as nat) == spec_scale_down(acc, (n - j) as nat),
        decreases n - j,
    {
        let a2 = norm_up(acc);
        acc = FpAcc { m: a2.m / 10, e: a2.e, sticky: a2.sticky || a2.m % 10 != 0 };
        j += 1;
    }
    acc
}


/// Meaning of a hexadecimal float literal: fold the fraction into the window,
/// apply the binary exponent (whose digits must fit a 31-bit magnitude), and
/// round; `None` is the literal's decode failure.
pub open spec fn spec_hex_bits(
    frac: Seq<char>,
    exp: Option<(LitSign, Seq<char>)>,
    p: u32,
    eulp: i64,
    infb: u64,
    infbiased: i64,
) -> Option<u64> {
    match spec_hex_fold(frac, FpAcc { m: 0, e: 0, sticky: false }, false) {
        None => None,
        Some(acc) => match exp {
            None => Some(spec_round(acc, p, eulp, infb, infbiased)),
            Some((sg, ds)) => match spec_scan(ds, LitBase::Dec, 0x7fff_ffff, 0, false) {
                Err(_) => None,
                Ok(v) => {
                    let e2 = if sg == LitSign::Minus {
                        sat64(acc.e - v)
                    } else {
                        sat64(acc.e + v)
                    };
                    Some(
                        spec_round(
                            FpAcc { m: acc.m, e: e2, sticky: acc.sticky },
                            p,
                            eulp,
                            infb,
                            infbiased,
                        ),
                    )
                },
            },
        },
    }
}

/// Decode a hexadecimal float literal to the format's unsigned bit pattern.
pub fn hex_bits(
    frac: &str,
    exp_sign: LitSign,
    exp_digits: Option<&str>,
    p: u32,
    eulp: i64,
    infb: u64,
    infbiased: i64,
) -> (r: Option<u64>)
    requires
        2 <= p <= 53,
        -1100 <= eulp <= -1,
        0 <= infbiased <= 0x7ff,
    ensures
        r == spec_hex_bits(
            frac@,
            match exp_digits {
                Some(d) => Some((exp_sign, d@)),
                None => None,
            },
            p,
            eulp,
            infb,
            infbiased,
        ),
{
    let acc = match hex_fold(frac) {
        None => {
            return None;
        },
        Some(a) => a,
    };
    match exp_digits {
        None => Some(round_bits(acc, p, eulp, infb, infbiased)),
        Some(ds) => {
            match crate::num::parse_unsigned(ds, LitBase::Dec, 0x7fff_ffff) {
                Err(_) => None,
                Ok(v) => {
                    proof {
                        crate::num::lemma_scan_le(ds@, LitBase::Dec, 0x7fff_ffff, 0, false);
                    }
                    let e2 = if matches!(exp_sign, LitSign::Minus) {
                        sat_sub(acc.e, v as i64)
                    } else {
                        sat_add(acc.e, v as i64)
                    };
                    Some(
                        round_bits(
                            FpAcc { m: acc.m, e: e2, sticky: acc.sticky },
                            p,
                            eulp,
                            infb,
                            infbiased,
                        ),
                    )
                },
            }
        },
    }
}

/// Meaning of a decimal float literal: fold the fraction, then scale by the
/// net power of ten (the written exponent plus the owed decimal places,
/// clamped to 1200 steps, far past either format's range), and round. `None`
/// is the literal's decode failure; an exponent too large for 64 bits
/// saturates towards the clamp, as the value is past the format's range
/// either way.
pub open spec fn spec_dec_bits(
    frac: Seq<char>,
    exp: Option<(LitSign, Seq<char>)>,
    p: u32,
    eulp: i64,
    infb: u64,
    infbiased: i64,
) -> Option<u64> {
    match spec_dec_fold(
        frac,
        DecFold { acc: FpAcc { m: 0, e: 0, sticky: false }, tens: 0, seen: false },
        false,
    ) {
        None => None,
        Some(st) => {
            if !st.seen {
                None
            } else {
                let ev = match exp {
                    None => Some(0i64),
                    Some((sg, ds)) => match spec_scan(ds, LitBase::Dec, 0xffff_ffff_ffff_ffffu64, 0, false) {
                        Ok(v) => Some(
                            if sg == LitSign::Minus {
                                sat64(0 - v)
                            } else {
                                sat64(v as int)
                            },
                        ),
                        Err(IntFault::Overflow) => Some(
                            if sg == LitSign::Minus {
                                -0xde0b6b3a7640000i64
                            } else {
                                0xde0b6b3a7640000i64
                            },
                        ),
                        Err(_) => None,
                    },
                };
                match ev {
                    None => None,
                    Some(e10) => {
                        let tot = sat64(e10 + st.tens);
                        let steps = if tot >= 0 {
                            if tot > 1200 {
                                1200u32
                            } else {
                                tot as u32
                            }
                        } else {
                            if tot < -1200 {
                                1200u32
                            } else {
                                (0 - tot) as u32
                            }
                        };
                        let acc2 = if tot >= 0 {
                            spec_scale_up(st.acc, steps as nat)
                        } else {
                            spec_scale_down(st.acc, steps as nat)
                        };
                        Some(spec_round(acc2, p, eulp, infb, infbiased))
                    },
                }
            }
        },
    }
}

/// Decode a decimal float literal to the format's unsigned bit pattern.
pub fn dec_bits(
    frac: &str,
    exp_sign: LitSign,
    exp_digits: Option<&str>,
    p: u32,
    eulp: i64,
    infb: u64,
    infbiased: i64,
) -> (r: Option<u64>)
    requires
        2 <= p <= 53,
        -1100 <= eulp <= -1,
        0 <= infbiased <= 0x7ff,
    ensures
        r == spec_dec_bits(
            frac@,
            match exp_digits {
                Some(d) => Some((exp_sign, d@)),
                None => None,
            },
            p,
            eulp,
            infb,
            infbiased,
        ),
{
    let st = match dec_fold(frac) {
        None => {
            return None;
        },
        Some(a) => a,
    };
    if !st.seen {
        return None;
    }
    let e10: i64 = match exp_digits {
        None => 0i64,
        Some(ds) => {
            match crate::num::parse_unsigned(ds, LitBase::Dec, 0xffff_ffff_ffff_ffff) {
                Ok(v) => {
                    if matches!(exp_sign, LitSign::Minus) {
                        if v <= 0x7fff_ffff_ffff_ffff {
                            -(v as i64)
                        } else {
                            i64::MIN
                        }
                    } else {
                        if v <= 0x7fff_ffff_ffff_ffff {
                            v as i64
                        } else {
                            i64::MAX
                        }
                    }
                },
                Err(IntFault::Overflow) => {
                    if matches!(exp_sign, LitSign::Minus) {
                        -0xde0b6b3a7640000i64
                    } else {
                        0xde0b6b3a7640000i64
                    }
                },
                Err(_) => {
                    return None;
                },
            }
        },
    };
    proof {
        assert(st.acc.m < pow2i(124)) by {
            lemma_pow2_strictly_increases(122, 124);
        }
    }
    let tot = sat_add(e10, st.tens);
    let steps: u32 = if tot >= 0 {
        if tot > 1200 {
            1200
        } else {
            tot as u32
        }
    } else {
        if tot < -1200 {
            1200
        } else {
            (0 - tot) as u32
        }
    };
    let acc2 = if tot >= 0 {
        scale_up(st.acc, steps)
    } else {
        scale_down(st.acc, steps)
    };
    Some(round_bits(acc2, p, eulp, infb, infbiased))
}

/// Meaning of an integer literal used where a float is expected: the
/// magnitude rounds to the format.
pub open spec fn spec_int_bits(v: i64, p: u32, eulp: i64, infb: u64, infbiased: i64) -> u64 {
    let m = if v >= 0 {
        v as int
    } else {
        0 - v
    };
    let mag = spec_round(FpAcc { m: m as u128, e: 0, sticky: false }, p, eulp, infb, infbiased);
    if v < 0 {
        sign_bit_set(mag, p)
    } else {
        mag
    }
}

/// Set the sign bit of a bit pattern whose significand has `p` bits of
/// precision: the sign sits just past the biased exponent's eleven (or eight)
/// bits.
pub open spec fn sign_bit_set(bits: u64, p: u32) -> u64 {
    if p == 24 {
        bits | 0x8000_0000u64
    } else {
        bits | 0x8000_0000_0000_0000u64
    }
}


/// Round an integer literal's value to the format.
pub fn int_bits(v: i64, p: u32, eulp: i64, infb: u64, infbiased: i64) -> (r: u64)
    requires
        2 <= p <= 53,
        -1100 <= eulp <= -1,
        0 <= infbiased <= 0x7ff,
        p == 24 || p == 53,
    ensures
        r == spec_int_bits(v, p, eulp, infb, infbiased),
{
    let m: u128 = if v >= 0 {
        v as u128
    } else if v == i64::MIN {
        0x8000_0000_0000_0000u128
    } else {
        (-v) as u128
    };
    let mag = round_bits(FpAcc { m, e: 0, sticky: false }, p, eulp, infb, infbiased);
    if v < 0 {
        if p == 24 {
            mag | 0x8000_0000u64
        } else {
            mag | 0x8000_0000_0000_0000u64
        }
    } else {
        mag
    }
}

/// Apply a literal's sign to a 32-bit pattern.
pub open spec fn spec_signed32(bits: u32, neg: bool) -> u32 {
    if neg {
        bits | 0x8000_0000u32
    } else {
        bits
    }
}

pub fn signed32(bits: u32, neg: bool) -> (r: u32)
    ensures
        r == spec_signed32(bits, neg),
{
    if neg {
        bits | 0x8000_0000u32
    } else {
        bits
    }
}

/// Apply a literal's sign to a 64-bit pattern.
pub open spec fn spec_signed64(bits: u64, neg: bool) -> u64 {
    if neg {
        bits | 0x8000_0000_0000_0000u64
    } else {
        bits
    }
}

pub fn signed64(bits: u64, neg: bool) -> (r: u64)
    ensures
        r == spec_signed64(bits, neg),
{
    if neg {
        bits | 0x8000_0000_0000_0000u64
    } else {
        bits
    }
}

} // verus!
