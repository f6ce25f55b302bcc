//! Decimal text read as integers, over bytes.

use vstd::prelude::*;

verus! {

/// An ASCII decimal digit.
pub open spec fn is_digit(b: u8) -> bool {
    48 <= b <= 57
}

/// Every byte of `s` is an ASCII decimal digit.
pub open spec fn all_digits(s: Seq<u8>) -> bool {
    forall|i: int| 0 <= i < s.len() ==> is_digit(#[trigger] s[i])
}

/// The value of a digit string, most significant digit first.
pub open spec fn dec_val(s: Seq<u8>) -> int
    decreases s.len(),
{
    if s.len() == 0 {
        0
    } else {
        dec_val(s.drop_last()) * 10 + (s.last() - 48)
    }
}

pub proof fn lemma_dec_val_nonneg(s: Seq<u8>)
    requires
        all_digits(s),
    ensures
        dec_val(s) >= 0,
    decreases s.len(),
{
    if s.len() > 0 {
        assert(all_digits(s.drop_last()));
        lemma_dec_val_nonneg(s.drop_last());
    }
}

proof fn lemma_dec_val_take_le(s: Seq<u8>, j: int)
    requires
        all_digits(s),
        0 <= j <= s.len(),
    ensures
        dec_val(s.take(j)) <= dec_val(s),
    decreases s.len() - j,
{
    lemma_dec_val_nonneg(s);
    if j < s.len() {
        lemma_dec_val_take_le(s, j + 1);
        assert(s.take(j + 1).drop_last() =~= s.take(j));
        assert(all_digits(s.take(j + 1)));
        lemma_dec_val_nonneg(s.take(j));
        assert(dec_val(s.take(j)) <= dec_val(s.take(j + 1)));
    } else {
        assert(s.take(j) =~= s);
    }
}

/// The digits-only reading: `Some` exactly when `s` is non-empty, all digits,
/// and its value fits in a `u64`.
pub open spec fn spec_parse_u64(s: Seq<u8>) -> Option<u64> {
    if s.len() > 0 && all_digits(s) && dec_val(s) <= u64::MAX {
        Some(dec_val(s) as u64)
    } else {
        None
    }
}

/// Read an unsigned decimal number (digits only; no sign, no blanks).
pub fn parse_u64_dec(s: &[u8]) -> (r: Option<u64>)
    ensures
        r == spec_parse_u64(s@),
{
    if s.len() == 0 {
        return None;
    }
    let mut v: u64 = 0;
    let mut i: usize = 0;
    while i < s.len()
        invariant
            0 <= i <= s.len(),
            forall|k: int| 0 <= k < i ==> is_digit(#[trigger] s@[k]),
            v == dec_val(s@.take(i as int)),
        decreases s.len() - i,
    {
        let b = s[i];
        if b < 48 || b > 57 {
            assert(!all_digits(s@));
            return None;
        }
        let d: u64 = (b - 48) as u64;
        proof {
            assert(s@.take(i + 1).drop_last() =~= s@.take(i as int));
        }
        if v > (u64::MAX - d) / 10 {
            proof {
                assert(v * 10 + d > u64::MAX) by (nonlinear_arith)
                    requires
                        v > (u64::MAX - d) / 10,
                        0 <= d <= 9,
                        v >= 0,
                ;
                if all_digits(s@) {
                    lemma_dec_val_take_le(s@, i + 1);
                    assert(dec_val(s@.take(i + 1)) == v * 10 + d);
                    assert(dec_val(s@) > u64::MAX);
                }
            }
            return None;
        }
        proof {
            assert(v * 10 <= u64::MAX - d) by (nonlinear_arith)
                requires
                    v <= (u64::MAX - d) / 10,
                    0 <= d <= 9,
                    v >= 0,
            ;
        }
        v = v * 10 + d;
        i = i + 1;
    }
    proof {
        assert(s@.take(i as int) =~= s@);
    }
    Some(v)
}

/// Reading with Rust's convention for unsigned integers: one optional leading
/// `+`, then digits; `Some` exactly when the value fits below the bound.
pub open spec fn spec_parse_unsigned(s: Seq<u8>, bound: int) -> Option<int> {
    let t = if s.len() > 0 && s[0] == 43 {
        s.skip(1)
    } else {
        s
    };
    if t.len() > 0 && all_digits(t) && dec_val(t) <= bound {
        Some(dec_val(t))
    } else {
        None
    }
}

/// Read a `u64` as Rust's `parse::<u64>` does (optional leading `+`).
pub fn parse_u64_rust(s: &[u8]) -> (r: Option<u64>)
    ensures
        r is Some <==> spec_parse_unsigned(s@, u64::MAX as int) is Some,
        r is Some ==> r->0 == spec_parse_unsigned(s@, u64::MAX as int)->0,
{
    let t: &[u8] = if s.len() > 0 && s[0] == 43 {
        vstd::slice::slice_subrange(s, 1, s.len())
    } else {
        s
    };
    proof {
        if t@.len() > 0 && all_digits(t@) {
            lemma_dec_val_nonneg(t@);
        }
    }
    parse_u64_dec(t)
}

/// Read a `u32` as Rust's `parse::<u32>` does.
pub fn parse_u32_rust(s: &[u8]) -> (r: Option<u32>)
    ensures
        r is Some <==> spec_parse_unsigned(s@, u32::MAX as int) is Some,
        r is Some ==> r->0 == spec_parse_unsigned(s@, u32::MAX as int)->0,
{
    match parse_u64_rust(s) {
        Some(v) => {
            if v <= u32::MAX as u64 {
                Some(v as u32)
            } else {
                None
            }
        },
        None => None,
    }
}

} // verus!
