use vstd::prelude::*;
use crate::error::IntFault;
use crate::token::{LitBase, LitSign};
use crate::util::str_chars;

verus! {

/// Value of one digit character in the given base, if it is one.
pub open spec fn spec_digit_val(c: char, base: LitBase) -> Option<u32> {
    let u = c as u32;
    if 0x30 <= u && u <= 0x39 {
        Some((u - 0x30) as u32)
    } else if base == LitBase::Hex && 0x61 <= u && u <= 0x66 {
        Some((u - 0x57) as u32)
    } else if base == LitBase::Hex && 0x41 <= u && u <= 0x46 {
        Some((u - 0x37) as u32)
    } else {
        None
    }
}

pub open spec fn spec_radix(base: LitBase) -> int {
    if base == LitBase::Hex { 16 } else { 10 }
}

/// Left-to-right scan of a digit string: separators are skipped, the first
/// non-digit or the first step past `max` decides the fault, exactly as the
/// decoder walks it.
pub open spec fn spec_scan(s: Seq<char>, base: LitBase, max: u64, acc: u64, seen: bool) -> Result<
    u64,
    IntFault,
>
    decreases s.len(),
{
    if s.len() == 0 {
        if seen {
            Ok(acc)
        } else {
            Err(IntFault::Empty)
        }
    } else if s[0] == '_' {
        spec_scan(s.skip(1), base, max, acc, seen)
    } else {
        match spec_digit_val(s[0], base) {
            None => Err(IntFault::BadDigit),
            Some(d) => {
                let v = acc * spec_radix(base) + d;
                if v > max {
                    Err(IntFault::Overflow)
                } else {
                    spec_scan(s.skip(1), base, max, v as u64, true)
                }
            },
        }
    }
}

/// Unsigned value of a digit string in which every character is a digit or a
/// separator.
pub open spec fn spec_digits_val(s: Seq<char>, base: LitBase) -> int
    decreases s.len(),
{
    if s.len() == 0 {
        0
    } else if s[s.len() - 1] == '_' {
        spec_digits_val(s.drop_last(), base)
    } else {
        spec_digits_val(s.drop_last(), base) * spec_radix(base) + spec_digit_val(
            s[s.len() - 1],
            base,
        ).unwrap_or(0)
    }
}

/// Every character is a digit of the base or a separator, and at least one is
/// a digit.
pub open spec fn spec_all_digits(s: Seq<char>, base: LitBase) -> bool {
    (forall|i: int| 0 <= i < s.len() ==> s[i] == '_' || spec_digit_val(s[i], base) is Some)
        && (exists|i: int| 0 <= i < s.len() && s[i] != '_')
}

/// A successful scan never exceeds its bound.
pub proof fn lemma_scan_le(s: Seq<char>, base: LitBase, max: u64, acc: u64, seen: bool)
    requires
        acc <= max,
        spec_scan(s, base, max, acc, seen) is Ok,
    ensures
        spec_scan(s, base, max, acc, seen).unwrap() <= max,
    decreases s.len(),
{
    if s.len() == 0 {
    } else if s[0] == '_' {
        lemma_scan_le(s.skip(1), base, max, acc, seen);
    } else {
        match spec_digit_val(s[0], base) {
            None => {},
            Some(d) => {
                let v = acc * spec_radix(base) + d;
                if v > max {
                } else {
                    lemma_scan_le(s.skip(1), base, max, v as u64, true);
                }
            },
        }
    }
}

/// Value of one digit character in the given base, if it is one.
pub fn digit_val(c: char, base: LitBase) -> (r: Option<u32>)
    ensures
        r == spec_digit_val(c, base),
{
    let u = c as u32;
    if 0x30 <= u && u <= 0x39 {
        Some(u - 0x30)
    } else if matches!(base, LitBase::Hex) && 0x61 <= u && u <= 0x66 {
        Some(u - 0x57)
    } else if matches!(base, LitBase::Hex) && 0x41 <= u && u <= 0x46 {
        Some(u - 0x37)
    } else {
        None
    }
}

/// Parse an unsigned integer of at most `max` from a digit string, skipping
/// `_` separators; the first offending position decides the fault.
pub fn parse_unsigned(digits: &str, base: LitBase, max: u64) -> (r: Result<u64, IntFault>)
    ensures
        r == spec_scan(digits@, base, max, 0, false),
{
    let cs = str_chars(digits);
    let ghost all = digits@;
    let mut acc: u64 = 0;
    let mut seen: bool = false;
    let mut i: usize = 0;
    let radix: u64 = match base {
        LitBase::Hex => 16,
        LitBase::Dec => 10,
    };
    proof {
        assert(all.skip(0) =~= all);
    }
    while i < cs.len()
        invariant
            all == digits@,
            cs@ == all,
            0 <= i <= all.len(),
            radix == spec_radix(base),
            acc <= max,
            spec_scan(all, base, max, 0, false) == spec_scan(
                all.skip(i as int),
                base,
                max,
                acc,
                seen,
            ),
        decreases all.len() - i,
    {
        let c = cs[i];
        proof {
            assert(all.skip(i as int)[0] == all[i as int]);
            assert(all.skip(i as int).skip(1) =~= all.skip(i + 1));
        }
        if c == '_' {
            i += 1;
        } else {
            match digit_val(c, base) {
                None => {
                    return Err(IntFault::BadDigit);
                },
                Some(d) => {
                    let wide: u128 = acc as u128 * radix as u128 + d as u128;
                    if wide > max as u128 {
                        return Err(IntFault::Overflow);
                    }
                    acc = wide as u64;
                    seen = true;
                    i += 1;
                },
            }
        }
    }
    proof {
        assert(all.skip(i as int) =~= Seq::<char>::empty());
    }
    if seen {
        Ok(acc)
    } else {
        Err(IntFault::Empty)
    }
}

/// Reinterpretation of an unsigned 32-bit value as two's complement.
pub open spec fn spec_as_signed32(u: int) -> int {
    if u < 0x8000_0000 {
        u
    } else {
        u - 0x1_0000_0000
    }
}

/// Reinterpretation of an unsigned 64-bit value as two's complement.
pub open spec fn spec_as_signed64(u: int) -> int {
    if u < 0x8000_0000_0000_0000 {
        u
    } else {
        u - 0x1_0000_0000_0000_0000
    }
}

/// Outcome of decoding a signed integer literal.
pub enum IntDecodeErr {
    /// The unsigned parse failed.
    Fault(IntFault),
    /// A negative literal whose magnitude is beyond one past the signed
    /// maximum; the payload is the parsed magnitude.
    TooSmall(u64),
}

/// Exact meaning of a 32-bit integer literal: parse the digits as unsigned
/// 32-bit; a plus sign reinterprets as two's complement, a minus sign negates
/// a magnitude within the signed range, with the magnitude one past the
/// signed maximum mapping to the minimum.
pub open spec fn spec_decode_i32(sign: LitSign, base: LitBase, s: Seq<char>) -> Result<
    i32,
    IntDecodeErr,
> {
    match spec_scan(s, base, 0xffff_ffffu64, 0, false) {
        Err(f) => Err(IntDecodeErr::Fault(f)),
        Ok(u) => match sign {
            LitSign::Plus => Ok(spec_as_signed32(u as int) as i32),
            LitSign::Minus => {
                if u == 0x8000_0000u64 {
                    Ok(i32::MIN)
                } else if u <= 0x7fff_ffffu64 {
                    Ok((-(u as int)) as i32)
                } else {
                    Err(IntDecodeErr::TooSmall(u))
                }
            },
        },
    }
}

/// Exact meaning of a 64-bit integer literal, as for 32 bits.
pub open spec fn spec_decode_i64(sign: LitSign, base: LitBase, s: Seq<char>) -> Result<
    i64,
    IntDecodeErr,
> {
    match spec_scan(s, base, 0xffff_ffff_ffff_ffffu64, 0, false) {
        Err(f) => Err(IntDecodeErr::Fault(f)),
        Ok(u) => match sign {
            LitSign::Plus => Ok(spec_as_signed64(u as int) as i64),
            LitSign::Minus => {
                if u == 0x8000_0000_0000_0000u64 {
                    Ok(i64::MIN)
                } else if u <= 0x7fff_ffff_ffff_ffffu64 {
                    Ok((-(u as int)) as i64)
                } else {
                    Err(IntDecodeErr::TooSmall(u))
                }
            },
        },
    }
}

/// Decode a 32-bit integer literal from its sign, base and digit text.
pub fn decode_i32(sign: LitSign, base: LitBase, digits: &str) -> (r: Result<i32, IntDecodeErr>)
    ensures
        r == spec_decode_i32(sign, base, digits@),
{
    match parse_unsigned(digits, base, 0xffff_ffff) {
        Err(f) => Err(IntDecodeErr::Fault(f)),
        Ok(u) => {
            proof {
                lemma_scan_le(digits@, base, 0xffff_ffff, 0, false);
            }
            let u32v = u as u32;
            match sign {
                LitSign::Plus => {
                    let v = #[verifier::truncate] (u32v as i32);
                    proof {
                        assert(u32v as i32 as int == if u32v < 0x8000_0000u32 {
                            u32v as int
                        } else {
                            u32v as int - 0x1_0000_0000
                        }) by (bit_vector);
                    }
                    Ok(v)
                },
                LitSign::Minus => {
                    if u == 0x8000_0000 {
                        Ok(i32::MIN)
                    } else if u <= 0x7fff_ffff {
                        Ok(-(u as i32))
                    } else {
                        Err(IntDecodeErr::TooSmall(u))
                    }
                },
            }
        },
    }
}

/// Decode a 64-bit integer literal from its sign, base and digit text.
pub fn decode_i64(sign: LitSign, base: LitBase, digits: &str) -> (r: Result<i64, IntDecodeErr>)
    ensures
        r == spec_decode_i64(sign, base, digits@),
{
    match parse_unsigned(digits, base, 0xffff_ffff_ffff_ffff) {
        Err(f) => Err(IntDecodeErr::Fault(f)),
        Ok(u) => {
            match sign {
                LitSign::Plus => {
                    let v = #[verifier::truncate] (u as i64);
                    proof {
                        assert(u as i64 as int == if u < 0x8000_0000_0000_0000u64 {
                            u as int
                        } else {
                            u as int - 0x1_0000_0000_0000_0000
                        }) by (bit_vector);
                    }
                    Ok(v)
                },
                LitSign::Minus => {
                    if u == 0x8000_0000_0000_0000 {
                        Ok(i64::MIN)
                    } else if u <= 0x7fff_ffff_ffff_ffff {
                        Ok(-(u as i64))
                    } else {
                        Err(IntDecodeErr::TooSmall(u))
                    }
                },
            }
        },
    }
}


/// Integer round-trip law: every literal whose digits scan to an unsigned
/// value of the target width decodes, and to exactly the documented value: a
/// positive literal is the unsigned value reinterpreted as two's complement;
/// a negative literal negates a magnitude within the signed range, the
/// magnitude one past the signed maximum gives the minimum, and any larger
/// magnitude is rejected; digits past the unsigned range are rejected by the
/// unsigned scan itself.
pub proof fn lemma_int_round_trip32(sign: LitSign, base: LitBase, s: Seq<char>)
    ensures
        (match spec_scan(s, base, 0xffff_ffffu64, 0, false) {
            Ok(u) => {
                &&& sign == LitSign::Plus ==> spec_decode_i32(sign, base, s) == Ok::<
                    i32,
                    IntDecodeErr,
                >(spec_as_signed32(u as int) as i32)
                &&& (sign == LitSign::Minus && u == 0x8000_0000u64) ==> spec_decode_i32(
                    sign,
                    base,
                    s,
                ) == Ok::<i32, IntDecodeErr>(i32::MIN)
                &&& (sign == LitSign::Minus && u < 0x8000_0000u64) ==> spec_decode_i32(
                    sign,
                    base,
                    s,
                ) == Ok::<i32, IntDecodeErr>((-(u as int)) as i32)
                &&& (sign == LitSign::Minus && u > 0x8000_0000u64) ==> spec_decode_i32(
                    sign,
                    base,
                    s,
                ) == Err::<i32, IntDecodeErr>(IntDecodeErr::TooSmall(u))
            },
            Err(f) => spec_decode_i32(sign, base, s) == Err::<i32, IntDecodeErr>(
                IntDecodeErr::Fault(f),
            ),
        }),
{
}

/// Integer round-trip law at 64 bits, as at 32.
pub proof fn lemma_int_round_trip64(sign: LitSign, base: LitBase, s: Seq<char>)
    ensures
        (match spec_scan(s, base, 0xffff_ffff_ffff_ffffu64, 0, false) {
            Ok(u) => {
                &&& sign == LitSign::Plus ==> spec_decode_i64(sign, base, s) == Ok::<
                    i64,
                    IntDecodeErr,
                >(spec_as_signed64(u as int) as i64)
                &&& (sign == LitSign::Minus && u == 0x8000_0000_0000_0000u64) ==> spec_decode_i64(
                    sign,
                    base,
                    s,
                ) == Ok::<i64, IntDecodeErr>(i64::MIN)
                &&& (sign == LitSign::Minus && u < 0x8000_0000_0000_0000u64) ==> spec_decode_i64(
                    sign,
                    base,
                    s,
                ) == Ok::<i64, IntDecodeErr>((-(u as int)) as i64)
                &&& (sign == LitSign::Minus && u > 0x8000_0000_0000_0000u64) ==> spec_decode_i64(
                    sign,
                    base,
                    s,
                ) == Err::<i64, IntDecodeErr>(IntDecodeErr::TooSmall(u))
            },
            Err(f) => spec_decode_i64(sign, base, s) == Err::<i64, IntDecodeErr>(
                IntDecodeErr::Fault(f),
            ),
        }),
{
}

} // verus!
