//! The numeric-id to encoded-id transform ("aid" to "bvid").
//!
//! The encoded form is a fixed 12-character string: prefix `BV1`, fixed
//! characters `4`, `1`, `7` at positions 5, 7 and 9, and six data characters
//! drawn from a 58-character alphabet, placed by a fixed permutation.

use vstd::prelude::*;
use crate::textops::push_char;
use crate::num::{spec_parse_unsigned, parse_u64_rust};
use crate::errors::LookupError;
use vstd::string::StringSliceAdditionalSpecFns;

verus! {

/// The 58-character alphabet used for the data digits, by index.
pub open spec fn alphabet_char(d: int) -> char {
    if d == 0 { 'f' } else if d == 1 { 'Z' } else if d == 2 { 'o' } else if d == 3 { 'd' }
    else if d == 4 { 'R' } else if d == 5 { '9' } else if d == 6 { 'X' } else if d == 7 { 'Q' }
    else if d == 8 { 'D' } else if d == 9 { 'S' } else if d == 10 { 'U' } else if d == 11 { 'm' }
    else if d == 12 { '2' } else if d == 13 { '1' } else if d == 14 { 'y' } else if d == 15 { 'C' }
    else if d == 16 { 'k' } else if d == 17 { 'r' } else if d == 18 { '6' } else if d == 19 { 'z' }
    else if d == 20 { 'B' } else if d == 21 { 'q' } else if d == 22 { 'i' } else if d == 23 { 'v' }
    else if d == 24 { 'e' } else if d == 25 { 'Y' } else if d == 26 { 'a' } else if d == 27 { 'h' }
    else if d == 28 { '8' } else if d == 29 { 'b' } else if d == 30 { 't' } else if d == 31 { '4' }
    else if d == 32 { 'x' } else if d == 33 { 's' } else if d == 34 { 'W' } else if d == 35 { 'p' }
    else if d == 36 { 'H' } else if d == 37 { 'n' } else if d == 38 { 'J' } else if d == 39 { 'E' }
    else if d == 40 { '7' } else if d == 41 { 'j' } else if d == 42 { 'L' } else if d == 43 { '5' }
    else if d == 44 { 'V' } else if d == 45 { 'G' } else if d == 46 { '3' } else if d == 47 { 'g' }
    else if d == 48 { 'u' } else if d == 49 { 'M' } else if d == 50 { 'T' } else if d == 51 { 'K' }
    else if d == 52 { 'N' } else if d == 53 { 'P' } else if d == 54 { 'A' } else if d == 55 { 'w' }
    else if d == 56 { 'c' } else { 'F' }
}

/// 58 to the power `i`, for the six digit positions.
pub open spec fn pow58(i: int) -> int {
    if i == 0 { 1 }
    else if i == 1 { 58 }
    else if i == 2 { 3364 }
    else if i == 3 { 195112 }
    else if i == 4 { 11316496 }
    else { 656356768 }
}

/// The intermediate value the digits are read from.
pub open spec fn spec_x(aid: u64) -> int {
    (aid ^ 177451812u64) + 8728348608
}

/// Data digit `i` (least significant first) of the encoding of `aid`.
pub open spec fn spec_digit(aid: u64, i: int) -> int {
    (spec_x(aid) / pow58(i)) % 58
}

/// The full 12-character encoding: digit `i` stands at position
/// `[11, 10, 3, 8, 4, 6][i]` of the template `BV1__4_1_7__`.
pub open spec fn spec_av_to_bv(aid: u64) -> Seq<char> {
    seq![
        'B', 'V', '1',
        alphabet_char(spec_digit(aid, 2)),
        alphabet_char(spec_digit(aid, 4)),
        '4',
        alphabet_char(spec_digit(aid, 5)),
        '1',
        alphabet_char(spec_digit(aid, 3)),
        '7',
        alphabet_char(spec_digit(aid, 1)),
        alphabet_char(spec_digit(aid, 0)),
    ]
}

/// An input is encodable when the intermediate value fits in 64 bits; the
/// transform is total on these (on any other the intermediate sum leaves the
/// 64-bit range).
pub open spec fn encodable(aid: u64) -> bool {
    spec_x(aid) <= u64::MAX
}

fn table_char(d: u64) -> (c: char)
    requires
        d < 58,
    ensures
        c == alphabet_char(d as int),
{
    match d {
        0 => 'f', 1 => 'Z', 2 => 'o', 3 => 'd', 4 => 'R', 5 => '9', 6 => 'X', 7 => 'Q',
        8 => 'D', 9 => 'S', 10 => 'U', 11 => 'm', 12 => '2', 13 => '1', 14 => 'y', 15 => 'C',
        16 => 'k', 17 => 'r', 18 => '6', 19 => 'z', 20 => 'B', 21 => 'q', 22 => 'i', 23 => 'v',
        24 => 'e', 25 => 'Y', 26 => 'a', 27 => 'h', 28 => '8', 29 => 'b', 30 => 't', 31 => '4',
        32 => 'x', 33 => 's', 34 => 'W', 35 => 'p', 36 => 'H', 37 => 'n', 38 => 'J', 39 => 'E',
        40 => '7', 41 => 'j', 42 => 'L', 43 => '5', 44 => 'V', 45 => 'G', 46 => '3', 47 => 'g',
        48 => 'u', 49 => 'M', 50 => 'T', 51 => 'K', 52 => 'N', 53 => 'P', 54 => 'A', 55 => 'w',
        56 => 'c', _ => 'F',
    }
}

/// Encode a numeric video id into its public 12-character form.
pub fn av_to_bv(aid: &u64) -> (r: String)
    requires
        encodable(*aid),
    ensures
        r@ == spec_av_to_bv(*aid),
{
    let x: u64 = (*aid ^ 177451812) + 8728348608;
    let c0 = table_char(x % 58);
    let c1 = table_char((x / 58) % 58);
    let c2 = table_char((x / 3364) % 58);
    let c3 = table_char((x / 195112) % 58);
    let c4 = table_char((x / 11316496) % 58);
    let c5 = table_char((x / 656356768) % 58);
    let mut r = String::new();
    push_char(&mut r, 'B');
    push_char(&mut r, 'V');
    push_char(&mut r, '1');
    push_char(&mut r, c2);
    push_char(&mut r, c4);
    push_char(&mut r, '4');
    push_char(&mut r, c5);
    push_char(&mut r, '1');
    push_char(&mut r, c3);
    push_char(&mut r, '7');
    push_char(&mut r, c1);
    push_char(&mut r, c0);
    proof {
        assert(r@ =~= spec_av_to_bv(*aid));
    }
    r
}

/// Law: the encoding is deterministic — any two results for the same input
/// are the same string.
pub proof fn lemma_encode_deterministic(aid: u64, r1: Seq<char>, r2: Seq<char>)
    requires
        r1 == spec_av_to_bv(aid),
        r2 == spec_av_to_bv(aid),
    ensures
        r1 == r2,
{
}

/// Law: for every input the encoding has length 12, starts with `BV1`, and
/// carries the fixed characters `4`, `1`, `7` at positions 5, 7 and 9.
pub proof fn lemma_encode_shape(aid: u64)
    ensures
        spec_av_to_bv(aid).len() == 12,
        spec_av_to_bv(aid)[0] == 'B',
        spec_av_to_bv(aid)[1] == 'V',
        spec_av_to_bv(aid)[2] == '1',
        spec_av_to_bv(aid)[5] == '4',
        spec_av_to_bv(aid)[7] == '1',
        spec_av_to_bv(aid)[9] == '7',
{
}

/// Whether the bytes begin with the `av` prefix, in any letter case.
pub open spec fn has_av_prefix(b: Seq<u8>) -> bool {
    b.len() >= 2 && (b[0] == 97 || b[0] == 65) && (b[1] == 118 || b[1] == 86)
}

/// Normalize a raw video identifier: an `av`-prefixed (case-insensitive)
/// decimal id is encoded into its public form; anything else is taken as
/// already encoded. An `av` id whose digits do not read as a `u64`, or whose
/// value lies beyond the encodable range, is refused.
pub fn resolve_bvid(id: &str) -> (r: Result<String, LookupError>)
    ensures
        ({
            let b = id.spec_bytes();
            if has_av_prefix(b) {
                match spec_parse_unsigned(b.skip(2), u64::MAX as int) {
                    Some(aid) => {
                        if encodable(aid as u64) {
                            r matches Ok(s) && s@ == spec_av_to_bv(aid as u64)
                        } else {
                            r == Err::<String, LookupError>(LookupError::InvalidIdentifier)
                        }
                    },
                    None => r == Err::<String, LookupError>(LookupError::InvalidIdentifier),
                }
            } else {
                r matches Ok(s) && s@ == id@
            }
        }),
{
    let b = id.as_bytes();
    if b.len() >= 2 && (b[0] == 97 || b[0] == 65) && (b[1] == 118 || b[1] == 86) {
        let digits = vstd::slice::slice_subrange(b, 2, b.len());
        proof {
            assert(digits@ =~= id.spec_bytes().skip(2));
        }
        match parse_u64_rust(digits) {
            Some(aid) => {
                let x: u64 = aid ^ 177451812;
                if x <= u64::MAX - 8728348608 {
                    Ok(av_to_bv(&aid))
                } else {
                    Err(LookupError::InvalidIdentifier)
                }
            },
            None => Err(LookupError::InvalidIdentifier),
        }
    } else {
        Ok(id.to_owned())
    }
}

proof fn lemma_alphabet_injective(d1: int, d2: int)
    requires
        0 <= d1 < 58,
        0 <= d2 < 58,
        alphabet_char(d1) == alphabet_char(d2),
    ensures
        d1 == d2,
{
}

proof fn lemma_digits_unique(x1: int, x2: int)
    requires
        0 <= x1 < 38068692544,
        0 <= x2 < 38068692544,
        x1 % 58 == x2 % 58,
        (x1 / 58) % 58 == (x2 / 58) % 58,
        (x1 / 3364) % 58 == (x2 / 3364) % 58,
        (x1 / 195112) % 58 == (x2 / 195112) % 58,
        (x1 / 11316496) % 58 == (x2 / 11316496) % 58,
        (x1 / 656356768) % 58 == (x2 / 656356768) % 58,
    ensures
        x1 == x2,
{
    assert(x1 / 656356768 < 58 && x2 / 656356768 < 58 && x1 / 656356768 >= 0 && x2 / 656356768
        >= 0) by (nonlinear_arith)
        requires
            0 <= x1 < 38068692544,
            0 <= x2 < 38068692544,
    ;
    vstd::arithmetic::div_mod::lemma_small_mod((x1 / 656356768) as nat, 58);
    vstd::arithmetic::div_mod::lemma_small_mod((x2 / 656356768) as nat, 58);
    assert(x1 / 656356768 == x2 / 656356768);
    vstd::arithmetic::div_mod::lemma_div_denominator(x1, 11316496, 58);
    vstd::arithmetic::div_mod::lemma_div_denominator(x2, 11316496, 58);
    vstd::arithmetic::div_mod::lemma_fundamental_div_mod(x1 / 11316496, 58);
    vstd::arithmetic::div_mod::lemma_fundamental_div_mod(x2 / 11316496, 58);
    assert(x1 / 11316496 == x2 / 11316496);
    vstd::arithmetic::div_mod::lemma_div_denominator(x1, 195112, 58);
    vstd::arithmetic::div_mod::lemma_div_denominator(x2, 195112, 58);
    vstd::arithmetic::div_mod::lemma_fundamental_div_mod(x1 / 195112, 58);
    vstd::arithmetic::div_mod::lemma_fundamental_div_mod(x2 / 195112, 58);
    assert(x1 / 195112 == x2 / 195112);
    vstd::arithmetic::div_mod::lemma_div_denominator(x1, 3364, 58);
    vstd::arithmetic::div_mod::lemma_div_denominator(x2, 3364, 58);
    vstd::arithmetic::div_mod::lemma_fundamental_div_mod(x1 / 3364, 58);
    vstd::arithmetic::div_mod::lemma_fundamental_div_mod(x2 / 3364, 58);
    assert(x1 / 3364 == x2 / 3364);
    vstd::arithmetic::div_mod::lemma_div_denominator(x1, 58, 58);
    vstd::arithmetic::div_mod::lemma_div_denominator(x2, 58, 58);
    vstd::arithmetic::div_mod::lemma_fundamental_div_mod(x1 / 58, 58);
    vstd::arithmetic::div_mod::lemma_fundamental_div_mod(x2 / 58, 58);
    assert(x1 / 58 == x2 / 58);
    vstd::arithmetic::div_mod::lemma_fundamental_div_mod(x1, 58);
    vstd::arithmetic::div_mod::lemma_fundamental_div_mod(x2, 58);
}

/// Law: restricted to intermediate values below 58^6 — the combinations the
/// six data digits can express — the encoding is injective, so it pairs each
/// such input with its own encoded string (a bijection onto its image).
pub proof fn lemma_encode_injective(aid1: u64, aid2: u64)
    requires
        spec_x(aid1) < 38068692544,
        spec_x(aid2) < 38068692544,
        spec_av_to_bv(aid1) == spec_av_to_bv(aid2),
    ensures
        aid1 == aid2,
{
    let x1 = spec_x(aid1);
    let x2 = spec_x(aid2);
    assert forall|i: int| 0 <= i < 6 implies #[trigger] spec_digit(aid1, i) == spec_digit(
        aid2,
        i,
    ) by {
        vstd::arithmetic::div_mod::lemma_mod_bound(x1 / pow58(i), 58);
        vstd::arithmetic::div_mod::lemma_mod_bound(x2 / pow58(i), 58);
        assert(x1 / pow58(i) >= 0 && x2 / pow58(i) >= 0) by (nonlinear_arith)
            requires
                0 <= x1 && 0 <= x2 && (i == 0 || i == 1 || i == 2 || i == 3 || i == 4 || i == 5)
                    ==> true,
                0 <= x1,
                0 <= x2,
                pow58(i) > 0,
        ;
        let s1 = spec_av_to_bv(aid1);
        let s2 = spec_av_to_bv(aid2);
        if i == 0 {
            assert(s1[11] == s2[11]);
        } else if i == 1 {
            assert(s1[10] == s2[10]);
        } else if i == 2 {
            assert(s1[3] == s2[3]);
        } else if i == 3 {
            assert(s1[8] == s2[8]);
        } else if i == 4 {
            assert(s1[4] == s2[4]);
        } else {
            assert(s1[6] == s2[6]);
        }
        lemma_alphabet_injective(spec_digit(aid1, i), spec_digit(aid2, i));
    }
    vstd::arithmetic::div_mod::lemma_div_basics(x1);
    vstd::arithmetic::div_mod::lemma_div_basics(x2);
    assert(spec_digit(aid1, 0) == x1 % 58);
    assert(spec_digit(aid2, 0) == x2 % 58);
    lemma_digits_unique(x1, x2);
    assert(aid1 ^ 177451812u64 == aid2 ^ 177451812u64);
    assert((aid1 ^ 177451812u64 == aid2 ^ 177451812u64) ==> aid1 == aid2) by (bit_vector);
}

} // verus!
