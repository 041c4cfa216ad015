//! LEB128 variable-length integer encoding, unsigned and signed.

use vstd::prelude::*;

verus! {

broadcast use vstd::std_specs::vec::group_vec_axioms;

/// The unsigned LEB128 encoding of `v`: seven payload bits per byte, low
/// bits first, the top bit marking that more bytes follow.
pub open spec fn spec_unsigned_leb128(v: nat) -> Seq<u8>
    decreases v,
{
    if v < 128 {
        seq![v as u8]
    } else {
        seq![(v % 128 + 128) as u8] + spec_unsigned_leb128(v / 128)
    }
}

/// The signed LEB128 encoding of `v`: seven payload bits per byte, low bits
/// first, stopping once the rest is all sign bits and the payload's top bit
/// agrees with the sign.
pub open spec fn spec_signed_leb128(v: int) -> Seq<u8>
    decreases (if v >= 0 {
        v
    } else {
        -1 - v
    }),
{
    let byte = v % 128;
    let q = v / 128;
    if (q == 0 && byte < 64) || (q == -1 && byte >= 64) {
        seq![byte as u8]
    } else {
        seq![(byte + 128) as u8] + spec_signed_leb128(q)
    }
}

/// Encodes an integer using unsigned LEB128 encoding; each returned byte is
/// one encoded position, in order.
pub fn write_unsigned_leb128_to(value: u128) -> (r: Vec<u8>)
    ensures
        r@ == spec_unsigned_leb128(value as nat),
{
    let mut value = value;
    let mut out: Vec<u8> = Vec::new();
    let ghost v0 = value as nat;
    loop
        invariant_except_break
            spec_unsigned_leb128(v0) =~= out@ + spec_unsigned_leb128(value as nat),
        ensures
            out@ =~= spec_unsigned_leb128(v0),
        decreases value,
    {
        let mut byte: u8 = (value % 128) as u8;
        let rest = value / 128;
        if rest != 0 {
            byte = byte + 128;
        }
        out.push(byte);
        if rest == 0 {
            proof {
                assert(spec_unsigned_leb128(value as nat) =~= seq![byte]);
                assert(out@ =~= spec_unsigned_leb128(v0));
            }
            break;
        }
        proof {
            assert(spec_unsigned_leb128(value as nat) =~= seq![byte]
                + spec_unsigned_leb128(rest as nat));
            assert(out@ + spec_unsigned_leb128(rest as nat) =~= spec_unsigned_leb128(v0));
        }
        value = rest;
    }
    out
}

/// Encodes an integer using signed LEB128 encoding; each returned byte is
/// one encoded position, in order.
pub fn write_signed_leb128_to(value: i128) -> (r: Vec<u8>)
    ensures
        r@ == spec_signed_leb128(value as int),
{
    let mut value = value;
    let mut out: Vec<u8> = Vec::new();
    let ghost v0 = value as int;
    loop
        invariant_except_break
            spec_signed_leb128(v0) =~= out@ + spec_signed_leb128(value as int),
        ensures
            out@ =~= spec_signed_leb128(v0),
        decreases (if value >= 0 {
            value as int
        } else {
            -1 - value as int
        }),
    {
        // the low seven bits, as the nonnegative remainder
        let rem: i128 = value % 128;
        let byte_val: i128 = if rem < 0 {
            rem + 128
        } else {
            rem
        };
        proof {
            assert(byte_val == (value as int) % 128);
            assert(value - byte_val == 128 * ((value as int) / 128)) by (nonlinear_arith)
                requires
                    byte_val == (value as int) % 128,
            ;
            assert((value as int) / 128 >= i128::MIN / 128);
            assert(128 * ((value as int) / 128) >= i128::MIN) by (nonlinear_arith)
                requires
                    (value as int) / 128 >= i128::MIN / 128,
            ;
            assert(128 * ((value as int) / 128) <= value as int) by (nonlinear_arith);
        }
        // the arithmetic shift by seven: division that rounds toward
        // negative infinity
        let shifted: i128 = (value - byte_val) / 128;
        proof {
            assert(shifted == (value as int) / 128) by (nonlinear_arith)
                requires
                    value - byte_val == 128 * ((value as int) / 128),
                    shifted == (value - byte_val) as int / 128,
            ;
        }
        let done = (shifted == 0 && byte_val < 64) || (shifted == -1 && byte_val >= 64);
        let mut byte: u8 = byte_val as u8;
        if !done {
            // mark this byte to show that more bytes will follow
            byte = byte + 128;
        }
        out.push(byte);
        if done {
            proof {
                assert(spec_signed_leb128(value as int) =~= seq![byte]);
                assert(out@ =~= spec_signed_leb128(v0));
            }
            break;
        }
        proof {
            assert(spec_signed_leb128(value as int) =~= seq![byte] + spec_signed_leb128(
                shifted as int,
            ));
            assert(out@ + spec_signed_leb128(shifted as int) =~= spec_signed_leb128(v0));
        }
        value = shifted;
    }
    out
}

} // verus!
