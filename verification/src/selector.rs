//! Page/episode selectors: a small matcher language over 1-based indices.

use vstd::prelude::*;
use crate::errors::LookupError;
use crate::num::{spec_parse_unsigned, parse_u32_rust};

verus! {

/// A page/episode inclusion predicate.
#[derive(Debug, Clone, Copy, PartialEq, Eq, Structural)]
pub enum Page {
    All,
    Single(u32),
    Range(u32, u32),
}

/// Whether a selector admits page number `p`.
pub open spec fn spec_test(sel: Page, p: u32) -> bool {
    match sel {
        Page::All => true,
        Page::Single(i) => p == i,
        Page::Range(s, e) => s <= p && p <= e,
    }
}

/// Whether any selector of the set admits `p`.
pub open spec fn spec_any_match(sels: Seq<Page>, p: u32) -> bool {
    exists|i: int| 0 <= i < sels.len() && spec_test(sels[i], p)
}

impl Page {
    /// Whether this selector admits page number `p`.
    pub fn test(&self, p: &u32) -> (r: bool)
        ensures
            r == spec_test(*self, *p),
    {
        match self {
            Page::All => true,
            Page::Single(i) => i == p,
            Page::Range(s, e) => s <= p && e >= p,
        }
    }

    /// The normalizing range constructor: the bounds are swapped when given
    /// in descending order, so the predicate is always well-formed.
    pub fn range(a: u32, b: u32) -> (r: Page)
        ensures
            a <= b ==> r == Page::Range(a, b),
            a > b ==> r == Page::Range(b, a),
    {
        if a > b {
            Page::Range(b, a)
        } else {
            Page::Range(a, b)
        }
    }
}

/// Law: the order in which a range's bounds are given does not affect
/// matching — the normalized range admits exactly the `p` between the
/// smaller and the larger bound.
pub proof fn lemma_range_order_irrelevant(a: u32, b: u32, p: u32)
    ensures
        spec_test(
            if a <= b { Page::Range(a, b) } else { Page::Range(b, a) },
            p,
        ) == spec_test(
            if b <= a { Page::Range(b, a) } else { Page::Range(a, b) },
            p,
        ),
        spec_test(
            if a <= b { Page::Range(a, b) } else { Page::Range(b, a) },
            p,
        ) == ((if a <= b { a } else { b }) <= p && p <= (if a <= b { b } else { a })),
{
}

/// Law: a selector set of exactly one `All` — what callers substitute for an
/// empty set — admits every page number.
pub proof fn lemma_all_matches_everything(p: u32)
    ensures
        spec_any_match(seq![Page::All], p),
{
    assert(spec_test(seq![Page::All][0], p));
}

/// Whether any selector in the set admits `p`.
pub fn any_match(sels: &Vec<Page>, p: &u32) -> (r: bool)
    ensures
        r == spec_any_match(sels@, *p),
{
    let mut i: usize = 0;
    while i < sels.len()
        invariant
            0 <= i <= sels@.len(),
            forall|k: int| 0 <= k < i ==> !spec_test(sels@[k], *p),
        decreases sels@.len() - i,
    {
        if sels[i].test(p) {
            return true;
        }
        i = i + 1;
    }
    false
}

/// The empty selector set stands for "everything": callers substitute a
/// single `All` when no explicit selector was supplied.
pub fn normalize_selectors(sels: Vec<Page>) -> (r: Vec<Page>)
    ensures
        sels@.len() > 0 ==> r@ == sels@,
        sels@.len() == 0 ==> r@ == seq![Page::All],
{
    if sels.len() == 0 {
        let mut v: Vec<Page> = Vec::new();
        v.push(Page::All);
        v
    } else {
        sels
    }
}

/// An ASCII whitespace byte, as selector text is trimmed of.
pub open spec fn is_ws(b: u8) -> bool {
    b == 32 || b == 9 || b == 10 || b == 13
}

/// How many whitespace bytes `s` starts with.
pub open spec fn ws_prefix_len(s: Seq<u8>) -> nat
    decreases s.len(),
{
    if s.len() > 0 && is_ws(s[0]) {
        1 + ws_prefix_len(s.skip(1))
    } else {
        0
    }
}

/// How many whitespace bytes `s` ends with.
pub open spec fn ws_suffix_len(s: Seq<u8>) -> nat
    decreases s.len(),
{
    if s.len() > 0 && is_ws(s.last()) {
        1 + ws_suffix_len(s.drop_last())
    } else {
        0
    }
}

/// `s` with leading and trailing whitespace removed.
pub open spec fn spec_trim(s: Seq<u8>) -> Seq<u8> {
    let t = s.skip(ws_prefix_len(s) as int);
    t.take(t.len() - ws_suffix_len(t))
}

proof fn lemma_ws_prefix_le(s: Seq<u8>)
    ensures
        ws_prefix_len(s) <= s.len(),
    decreases s.len(),
{
    if s.len() > 0 && is_ws(s[0]) {
        lemma_ws_prefix_le(s.skip(1));
    }
}

proof fn lemma_ws_suffix_le(s: Seq<u8>)
    ensures
        ws_suffix_len(s) <= s.len(),
    decreases s.len(),
{
    if s.len() > 0 && is_ws(s.last()) {
        lemma_ws_suffix_le(s.drop_last());
    }
}

proof fn lemma_ws_prefix_char(s: Seq<u8>, a: int)
    requires
        0 <= a <= s.len(),
        forall|k: int| 0 <= k < a ==> is_ws(#[trigger] s[k]),
        a == s.len() || !is_ws(s[a]),
    ensures
        ws_prefix_len(s) == a,
    decreases s.len(),
{
    if s.len() > 0 && is_ws(s[0]) {
        assert(a > 0);
        lemma_ws_prefix_char(s.skip(1), a - 1);
    }
}

proof fn lemma_ws_suffix_char(s: Seq<u8>, b: int)
    requires
        0 <= b <= s.len(),
        forall|k: int| b <= k < s.len() ==> is_ws(#[trigger] s[k]),
        b == 0 || !is_ws(s[b - 1]),
    ensures
        ws_suffix_len(s) == s.len() - b,
    decreases s.len(),
{
    if s.len() > 0 && is_ws(s.last()) {
        assert(b < s.len());
        lemma_ws_suffix_char(s.drop_last(), b);
    }
}

/// Whether `c` is an ASCII whitespace byte.
fn is_ws_byte(c: u8) -> (r: bool)
    ensures
        r == is_ws(c),
{
    c == 32 || c == 9 || c == 10 || c == 13
}

/// Strip leading and trailing ASCII whitespace.
pub fn trim_bytes(s: &[u8]) -> (r: &[u8])
    ensures
        r@ == spec_trim(s@),
{
    let mut a: usize = 0;
    while a < s.len() && is_ws_byte(s[a])
        invariant
            0 <= a <= s@.len(),
            forall|k: int| 0 <= k < a ==> is_ws(#[trigger] s@[k]),
        decreases s@.len() - a,
    {
        a = a + 1;
    }
    proof {
        lemma_ws_prefix_char(s@, a as int);
    }
    let mut b: usize = s.len();
    while b > a && is_ws_byte(s[b - 1])
        invariant
            a <= b <= s@.len(),
            forall|k: int| b <= k < s@.len() ==> is_ws(#[trigger] s@[k]),
        decreases b,
    {
        b = b - 1;
    }
    proof {
        let t = s@.skip(a as int);
        assert(forall|k: int| b - a <= k < t.len() ==> is_ws(#[trigger] t[k]));
        if b > a {
            assert(t[b - a - 1] == s@[b as int - 1]);
        }
        lemma_ws_suffix_char(t, b - a);
        assert(s@.subrange(a as int, b as int) =~= t.take(t.len() - ws_suffix_len(t)));
    }
    vstd::slice::slice_subrange(s, a, b)
}

/// The first position of byte `b` in `s`.
pub open spec fn find_byte(s: Seq<u8>, b: u8) -> Option<int>
    decreases s.len(),
{
    if s.len() == 0 {
        None
    } else if s[0] == b {
        Some(0)
    } else {
        match find_byte(s.skip(1), b) {
            Some(i) => Some(i + 1),
            None => None,
        }
    }
}

proof fn lemma_find_byte_char(s: Seq<u8>, b: u8, i: int)
    requires
        0 <= i <= s.len(),
        forall|k: int| 0 <= k < i ==> s[k] != b,
        i == s.len() || s[i] == b,
    ensures
        i < s.len() ==> find_byte(s, b) == Some(i),
        i == s.len() ==> find_byte(s, b) is None,
    decreases s.len(),
{
    if s.len() > 0 && s[0] != b {
        lemma_find_byte_char(s.skip(1), b, i - 1);
    }
}

/// Find the first `-` (the range separator) in `s`.
fn find_dash(s: &[u8]) -> (r: Option<usize>)
    ensures
        r is Some <==> find_byte(s@, 45) is Some,
        r is Some ==> find_byte(s@, 45) == Some(r->0 as int) && r->0 < s@.len(),
{
    let mut i: usize = 0;
    while i < s.len()
        invariant
            0 <= i <= s@.len(),
            forall|k: int| 0 <= k < i ==> s@[k] != 45,
        decreases s@.len() - i,
    {
        if s[i] == 45 {
            proof {
                lemma_find_byte_char(s@, 45, i as int);
            }
            return Some(i);
        }
        i = i + 1;
    }
    proof {
        lemma_find_byte_char(s@, 45, i as int);
    }
    None
}

/// What `parse_range` yields on the trimmed text `t`: a bare non-negative
/// integer gives `Single`; `<a>-<b>` with both sides unsigned integers gives
/// a normalized `Range`; anything else fails.
pub open spec fn spec_parse_range(t: Seq<u8>) -> Result<Page, LookupError> {
    match spec_parse_unsigned(t, u32::MAX as int) {
        Some(p) => Ok(Page::Single(p as u32)),
        None => match find_byte(t, 45) {
            Some(i) => {
                let a = spec_parse_unsigned(t.take(i), u32::MAX as int);
                let b = spec_parse_unsigned(t.skip(i + 1), u32::MAX as int);
                if a is Some && b is Some {
                    let lo = a->0;
                    let hi = b->0;
                    if lo <= hi {
                        Ok(Page::Range(lo as u32, hi as u32))
                    } else {
                        Ok(Page::Range(hi as u32, lo as u32))
                    }
                } else {
                    Err(LookupError::InvalidIdentifier)
                }
            },
            None => Err(LookupError::InvalidIdentifier),
        },
    }
}

/// Parse selector text: the input is trimmed of ASCII whitespace, then read
/// as a bare integer or as a `<a>-<b>` range.
pub fn parse_range(string: &[u8]) -> (r: Result<Page, LookupError>)
    ensures
        r == spec_parse_range(spec_trim(string@)),
{
    let t = trim_bytes(string);
    match parse_u32_rust(t) {
        Some(p) => Ok(Page::Single(p)),
        None => {
            match find_dash(t) {
                Some(i) => {
                    let n = t.len();
                    proof {
                        assert(i < n);
                    }
                    let left = vstd::slice::slice_subrange(t, 0, i);
                    let right = vstd::slice::slice_subrange(t, i + 1, n);
                    proof {
                        assert(left@ =~= t@.take(i as int));
                        assert(right@ =~= t@.skip(i + 1));
                    }
                    let a = parse_u32_rust(left);
                    let b = parse_u32_rust(right);
                    match (a, b) {
                        (Some(lo), Some(hi)) => Ok(Page::range(lo, hi)),
                        _ => Err(LookupError::InvalidIdentifier),
                    }
                },
                None => Err(LookupError::InvalidIdentifier),
            }
        },
    }
}

} // verus!
