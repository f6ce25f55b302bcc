//! A JSON reader for the remote payloads and embedded page state.
//!
//! The grammar is given by the spec-level parser below (`sp_value` and its
//! companions), which reads one value from the front of a byte sequence and
//! reports how many bytes it consumed; bytes after the value are ignored, so
//! an embedded state object followed by script code parses cleanly. Strings
//! are kept as their raw bytes (escapes undecoded — see `unescape` for the
//! decoding) and numbers as their raw text, so no information is lost and no
//! floating point is involved. The accepted grammar is lenient where
//! strictness would not change any payload this library reads: a number is a
//! maximal run of number characters beginning with a digit or `-`, a string
//! may contain any byte except an unescaped quote, and a trailing comma
//! before a closing bracket is tolerated.

use vstd::prelude::*;
use crate::num::is_digit;

verus! {

broadcast use vstd::std_specs::vec::axiom_vec_index_decreases;

/// A parsed JSON value.
#[derive(Debug)]
pub enum Json {
    Null,
    Bool(bool),
    /// The raw text of a number, e.g. `-12.5e3`.
    Num(Vec<u8>),
    /// The raw bytes between the quotes of a string, escapes undecoded.
    Str(Vec<u8>),
    Arr(Vec<Json>),
    /// Members in document order; keys are raw string bytes.
    Obj(Vec<(Vec<u8>, Json)>),
}

/// The mathematical shape of a parsed JSON value.
pub enum JsonV {
    Null,
    Bool(bool),
    Num(Seq<u8>),
    Str(Seq<u8>),
    Arr(Seq<JsonV>),
    Obj(Seq<(Seq<u8>, JsonV)>),
}

/// The view of a member list.
pub open spec fn mems_view(ms: Seq<(Vec<u8>, Json)>) -> Seq<(Seq<u8>, JsonV)> {
    Seq::new(ms.len(), |i: int| (ms[i].0@, json_view(ms[i].1)))
}

/// The view of an element list.
pub open spec fn elems_view(es: Seq<Json>) -> Seq<JsonV> {
    Seq::new(es.len(), |i: int| json_view(es[i]))
}

/// The view of a parsed value. (The range guards keep the recursion inside
/// the vectors, where it is well-founded.)
pub open spec fn json_view(j: Json) -> JsonV
    decreases j,
{
    match j {
        Json::Null => JsonV::Null,
        Json::Bool(b) => JsonV::Bool(b),
        Json::Num(v) => JsonV::Num(v@),
        Json::Str(v) => JsonV::Str(v@),
        Json::Arr(es) => JsonV::Arr(
            Seq::new(
                es@.len(),
                |i: int|
                    if 0 <= i < es@.len() {
                        json_view(es@[i])
                    } else {
                        JsonV::Null
                    },
            ),
        ),
        Json::Obj(ms) => JsonV::Obj(
            Seq::new(
                ms@.len(),
                |i: int|
                    if 0 <= i < ms@.len() {
                        (ms@[i].0@, json_view(ms@[i].1))
                    } else {
                        (Seq::<u8>::empty(), JsonV::Null)
                    },
            ),
        ),
    }
}

/// The view of an array is the element views, in order.
pub proof fn lemma_view_arr(es: Vec<Json>)
    ensures
        json_view(Json::Arr(es)) == JsonV::Arr(elems_view(es@)),
{
    let a = json_view(Json::Arr(es))->Arr_0;
    let b = elems_view(es@);
    assert forall|i: int| 0 <= i < es@.len() implies a[i] == b[i] by {
        assert(a[i] == json_view(es@[i]));
        assert(b[i] == json_view(es@[i]));
    }
    assert(a =~= b);
}

/// The view of an object is the member views, in order.
pub proof fn lemma_view_obj(ms: Vec<(Vec<u8>, Json)>)
    ensures
        json_view(Json::Obj(ms)) == JsonV::Obj(mems_view(ms@)),
{
    let a = json_view(Json::Obj(ms))->Obj_0;
    let b = mems_view(ms@);
    assert forall|i: int| 0 <= i < ms@.len() implies a[i] == b[i] by {
        assert(a[i] == (ms@[i].0@, json_view(ms@[i].1)));
        assert(b[i] == (ms@[i].0@, json_view(ms@[i].1)));
    }
    assert(a =~= b);
}

impl View for Json {
    type V = JsonV;

    open spec fn view(&self) -> JsonV {
        json_view(*self)
    }
}

/// A JSON whitespace byte.
pub open spec fn json_ws(b: u8) -> bool {
    b == 32 || b == 9 || b == 10 || b == 13
}

/// A byte that may stand in a number.
pub open spec fn num_byte(b: u8) -> bool {
    is_digit(b) || b == 43 || b == 45 || b == 46 || b == 69 || b == 101
}

/// How many whitespace bytes `s` starts with.
pub open spec fn ws_len(s: Seq<u8>) -> nat
    decreases s.len(),
{
    if s.len() > 0 && json_ws(s[0]) {
        1 + ws_len(s.skip(1))
    } else {
        0
    }
}

/// How many number bytes `s` starts with.
pub open spec fn num_run(s: Seq<u8>) -> nat
    decreases s.len(),
{
    if s.len() > 0 && num_byte(s[0]) {
        1 + num_run(s.skip(1))
    } else {
        0
    }
}

/// `s` less its first `k` bytes (everything, if `s` is shorter than `k`).
pub open spec fn adv(s: Seq<u8>, k: nat) -> Seq<u8> {
    if k <= s.len() {
        s.skip(k as int)
    } else {
        Seq::empty()
    }
}

/// The body of a string, read from just after the opening quote: the raw
/// bytes up to the closing quote (a backslash always escapes the following
/// byte), and the count of bytes consumed including the closing quote.
pub open spec fn sp_str_body(s: Seq<u8>) -> Option<(Seq<u8>, nat)>
    decreases s.len(),
{
    if s.len() == 0 {
        None
    } else if s[0] == 34 {
        Some((Seq::empty(), 1nat))
    } else if s[0] == 92 {
        if s.len() >= 2 {
            match sp_str_body(adv(s, 2)) {
                Some((raw, n)) => Some((seq![s[0], s[1]] + raw, n + 2)),
                None => None,
            }
        } else {
            None
        }
    } else {
        match sp_str_body(adv(s, 1)) {
            Some((raw, n)) => Some((seq![s[0]] + raw, n + 1)),
            None => None,
        }
    }
}

/// One JSON value read from the front of `s`, after any leading whitespace;
/// the count includes that whitespace.
pub open spec fn sp_value(s: Seq<u8>) -> Option<(JsonV, nat)>
    decreases s.len(), 0int,
{
    let w = ws_len(s);
    let t = adv(s, w);
    if t.len() == 0 {
        None
    } else if t[0] == 34 {
        match sp_str_body(adv(t, 1)) {
            Some((raw, n)) => Some((JsonV::Str(raw), w + 1 + n)),
            None => None,
        }
    } else if t[0] == 123 {
        match sp_membs(adv(t, 1)) {
            Some((ms, n)) => Some((JsonV::Obj(ms), w + 1 + n)),
            None => None,
        }
    } else if t[0] == 91 {
        match sp_elems(adv(t, 1)) {
            Some((es, n)) => Some((JsonV::Arr(es), w + 1 + n)),
            None => None,
        }
    } else if t[0] == 116 {
        if t.len() >= 4 && t[1] == 114 && t[2] == 117 && t[3] == 101 {
            Some((JsonV::Bool(true), w + 4))
        } else {
            None
        }
    } else if t[0] == 102 {
        if t.len() >= 5 && t[1] == 97 && t[2] == 108 && t[3] == 115 && t[4] == 101 {
            Some((JsonV::Bool(false), w + 5))
        } else {
            None
        }
    } else if t[0] == 110 {
        if t.len() >= 4 && t[1] == 117 && t[2] == 108 && t[3] == 108 {
            Some((JsonV::Null, w + 4))
        } else {
            None
        }
    } else if is_digit(t[0]) || t[0] == 45 {
        Some((JsonV::Num(t.take(num_run(t) as int)), w + num_run(t)))
    } else {
        None
    }
}

/// The members of an object, read from just after `{` or a separating comma:
/// either a closing `}` or a key, a colon, a value, and the rest.
pub open spec fn sp_membs(s: Seq<u8>) -> Option<(Seq<(Seq<u8>, JsonV)>, nat)>
    decreases s.len(), 0int,
{
    let w = ws_len(s);
    let t = adv(s, w);
    if t.len() == 0 {
        None
    } else if t[0] == 125 {
        Some((Seq::empty(), w + 1))
    } else if t[0] == 34 {
        match sp_str_body(adv(t, 1)) {
            Some((kraw, kn)) => match sp_after_key(adv(t, 1 + kn)) {
                Some((v, an)) => match sp_member_sep(adv(t, 1 + kn + an)) {
                    Some((ms, sn)) => Some(
                        (seq![(kraw, v)] + ms, w + 1 + kn + an + sn),
                    ),
                    None => None,
                },
                None => None,
            },
            None => None,
        }
    } else {
        None
    }
}

/// After a member's key: a colon, then the member's value.
pub open spec fn sp_after_key(s: Seq<u8>) -> Option<(JsonV, nat)>
    decreases s.len(), 0int,
{
    let w = ws_len(s);
    let t = adv(s, w);
    if t.len() > 0 && t[0] == 58 {
        match sp_value(adv(t, 1)) {
            Some((v, n)) => Some((v, w + 1 + n)),
            None => None,
        }
    } else {
        None
    }
}

/// After a member's value: a comma and the remaining members, or `}`.
pub open spec fn sp_member_sep(s: Seq<u8>) -> Option<(Seq<(Seq<u8>, JsonV)>, nat)>
    decreases s.len(), 0int,
{
    let w = ws_len(s);
    let t = adv(s, w);
    if t.len() == 0 {
        None
    } else if t[0] == 125 {
        Some((Seq::empty(), w + 1))
    } else if t[0] == 44 {
        match sp_membs(adv(t, 1)) {
            Some((ms, n)) => Some((ms, w + 1 + n)),
            None => None,
        }
    } else {
        None
    }
}

/// The elements of an array, read from just after `[` or a separating comma.
pub open spec fn sp_elems(s: Seq<u8>) -> Option<(Seq<JsonV>, nat)>
    decreases s.len(), 1int,
{
    let w = ws_len(s);
    let t = adv(s, w);
    if t.len() == 0 {
        None
    } else if t[0] == 93 {
        Some((Seq::empty(), w + 1))
    } else {
        match sp_value(s) {
            Some((v, n)) => match sp_elem_sep(adv(s, n)) {
                Some((es, sn)) => Some((seq![v] + es, n + sn)),
                None => None,
            },
            None => None,
        }
    }
}

/// After an array element: a comma and the remaining elements, or `]`.
pub open spec fn sp_elem_sep(s: Seq<u8>) -> Option<(Seq<JsonV>, nat)>
    decreases s.len(), 0int,
{
    let w = ws_len(s);
    let t = adv(s, w);
    if t.len() == 0 {
        None
    } else if t[0] == 93 {
        Some((Seq::empty(), w + 1))
    } else if t[0] == 44 {
        match sp_elems(adv(t, 1)) {
            Some((es, n)) => Some((es, w + 1 + n)),
            None => None,
        }
    } else {
        None
    }
}

/// One value read from the front, with only whitespace allowed after it:
/// what parsing a complete document yields.
pub open spec fn sp_document(s: Seq<u8>) -> Option<JsonV> {
    match sp_value(s) {
        Some((v, n)) => if n + ws_len(adv(s, n)) == s.len() {
            Some(v)
        } else {
            None
        },
        None => None,
    }
}

proof fn lemma_ws_len_char(s: Seq<u8>, a: int)
    requires
        0 <= a <= s.len(),
        forall|k: int| 0 <= k < a ==> json_ws(#[trigger] s[k]),
        a == s.len() || !json_ws(s[a]),
    ensures
        ws_len(s) == a,
    decreases s.len(),
{
    if s.len() > 0 && json_ws(s[0]) {
        lemma_ws_len_char(s.skip(1), a - 1);
    }
}

proof fn lemma_num_run_char(s: Seq<u8>, a: int)
    requires
        0 <= a <= s.len(),
        forall|k: int| 0 <= k < a ==> num_byte(#[trigger] s[k]),
        a == s.len() || !num_byte(s[a]),
    ensures
        num_run(s) == a,
    decreases s.len(),
{
    if s.len() > 0 && num_byte(s[0]) {
        lemma_num_run_char(s.skip(1), a - 1);
    }
}

/// Whether `c` is a JSON whitespace byte.
fn is_json_ws_byte(c: u8) -> (r: bool)
    ensures
        r == json_ws(c),
{
    c == 32 || c == 9 || c == 10 || c == 13
}

/// Whether `c` may stand in a number.
fn is_num_byte(c: u8) -> (r: bool)
    ensures
        r == num_byte(c),
{
    (48 <= c && c <= 57) || c == 43 || c == 45 || c == 46 || c == 69 || c == 101
}

/// Count the leading whitespace bytes.
fn ex_ws(s: &[u8]) -> (n: usize)
    ensures
        n as nat == ws_len(s@),
        n <= s@.len(),
{
    let mut i: usize = 0;
    while i < s.len() && is_json_ws_byte(s[i])
        invariant
            0 <= i <= s@.len(),
            forall|k: int| 0 <= k < i ==> json_ws(#[trigger] s@[k]),
        decreases s@.len() - i,
    {
        i = i + 1;
    }
    proof {
        lemma_ws_len_char(s@, i as int);
    }
    i
}

/// Count the leading number bytes.
fn ex_num_run(s: &[u8]) -> (n: usize)
    ensures
        n as nat == num_run(s@),
        n <= s@.len(),
{
    let mut i: usize = 0;
    while i < s.len() && is_num_byte(s[i])
        invariant
            0 <= i <= s@.len(),
            forall|k: int| 0 <= k < i ==> num_byte(#[trigger] s@[k]),
        decreases s@.len() - i,
    {
        i = i + 1;
    }
    proof {
        lemma_num_run_char(s@, i as int);
    }
    i
}

/// Read a string body, from just after the opening quote.
fn ex_str_body(s: &[u8]) -> (r: Option<(Vec<u8>, usize)>)
    ensures
        r is Some <==> sp_str_body(s@) is Some,
        r matches Some((raw, n)) ==> sp_str_body(s@) == Some((raw@, n as nat)) && n <= s@.len(),
    decreases s@.len(),
{
    if s.len() == 0 {
        return None;
    }
    let b0 = s[0];
    if b0 == 34 {
        return Some((Vec::new(), 1));
    }
    if b0 == 92 {
        if s.len() < 2 {
            return None;
        }
        let b1 = s[1];
        let rest = vstd::slice::slice_subrange(s, 2, s.len());
        proof {
            assert(rest@ =~= adv(s@, 2));
        }
        match ex_str_body(rest) {
            Some((raw, n)) => {
                let mut v = raw;
                v.insert(0, b1);
                v.insert(0, b0);
                proof {
                    let ghost sub = sp_str_body(adv(s@, 2))->0;
                    assert(v@ =~= seq![s@[0], s@[1]] + sub.0);
                }
                Some((v, n + 2))
            },
            None => None,
        }
    } else {
        let rest = vstd::slice::slice_subrange(s, 1, s.len());
        proof {
            assert(rest@ =~= adv(s@, 1));
        }
        match ex_str_body(rest) {
            Some((raw, n)) => {
                let mut v = raw;
                v.insert(0, b0);
                proof {
                    let ghost sub = sp_str_body(adv(s@, 1))->0;
                    assert(v@ =~= seq![s@[0]] + sub.0);
                }
                Some((v, n + 1))
            },
            None => None,
        }
    }
}

/// Read one value from the front of `s`.
fn ex_value(s: &[u8]) -> (r: Option<(Json, usize)>)
    ensures
        r is Some <==> sp_value(s@) is Some,
        r matches Some((v, n)) ==> sp_value(s@) == Some((v@, n as nat)) && n <= s@.len(),
    decreases s@.len(), 0int,
{
    let w = ex_ws(s);
    let t = vstd::slice::slice_subrange(s, w, s.len());
    proof {
        assert(t@ =~= adv(s@, w as nat));
    }
    if t.len() == 0 {
        return None;
    }
    let b0 = t[0];
    if b0 == 34 {
        let t1 = vstd::slice::slice_subrange(t, 1, t.len());
        proof {
            assert(t1@ =~= adv(t@, 1));
        }
        match ex_str_body(t1) {
            Some((raw, n)) => Some((Json::Str(raw), w + 1 + n)),
            None => None,
        }
    } else if b0 == 123 {
        let t1 = vstd::slice::slice_subrange(t, 1, t.len());
        proof {
            assert(t1@ =~= adv(t@, 1));
        }
        match ex_membs(t1) {
            Some((ms, n)) => {
                proof {
                    lemma_view_obj(ms);
                }
                Some((Json::Obj(ms), w + 1 + n))
            },
            None => None,
        }
    } else if b0 == 91 {
        let t1 = vstd::slice::slice_subrange(t, 1, t.len());
        proof {
            assert(t1@ =~= adv(t@, 1));
        }
        match ex_elems(t1) {
            Some((es, n)) => {
                proof {
                    lemma_view_arr(es);
                }
                Some((Json::Arr(es), w + 1 + n))
            },
            None => None,
        }
    } else if b0 == 116 {
        if t.len() >= 4 && t[1] == 114 && t[2] == 117 && t[3] == 101 {
            Some((Json::Bool(true), w + 4))
        } else {
            None
        }
    } else if b0 == 102 {
        if t.len() >= 5 && t[1] == 97 && t[2] == 108 && t[3] == 115 && t[4] == 101 {
            Some((Json::Bool(false), w + 5))
        } else {
            None
        }
    } else if b0 == 110 {
        if t.len() >= 4 && t[1] == 117 && t[2] == 108 && t[3] == 108 {
            Some((Json::Null, w + 4))
        } else {
            None
        }
    } else if (48 <= b0 && b0 <= 57) || b0 == 45 {
        let n = ex_num_run(t);
        let raw = vstd::slice::slice_to_vec(vstd::slice::slice_subrange(t, 0, n));
        proof {
            assert(raw@ =~= t@.take(num_run(t@) as int));
        }
        Some((Json::Num(raw), w + n))
    } else {
        None
    }
}

/// Read an object's members, from just after `{` or a comma.
fn ex_membs(s: &[u8]) -> (r: Option<(Vec<(Vec<u8>, Json)>, usize)>)
    ensures
        r is Some <==> sp_membs(s@) is Some,
        r matches Some((ms, n)) ==> sp_membs(s@) == Some((mems_view(ms@), n as nat)) && n <= s@.len(),
    decreases s@.len(), 0int,
{
    let w = ex_ws(s);
    let t = vstd::slice::slice_subrange(s, w, s.len());
    proof {
        assert(t@ =~= adv(s@, w as nat));
    }
    if t.len() == 0 {
        return None;
    }
    let b0 = t[0];
    if b0 == 125 {
        proof {
            assert(mems_view(Seq::<(Vec<u8>, Json)>::empty()) =~= Seq::<(Seq<u8>, JsonV)>::empty());
        }
        return Some((Vec::new(), w + 1));
    }
    if b0 != 34 {
        return None;
    }
    let t1 = vstd::slice::slice_subrange(t, 1, t.len());
    proof {
        assert(t1@ =~= adv(t@, 1));
    }
    match ex_str_body(t1) {
        Some((kraw, kn)) => {
            let t2 = vstd::slice::slice_subrange(t, 1 + kn, t.len());
            proof {
                assert(t2@ =~= adv(t@, (1 + kn) as nat));
            }
            match ex_after_key(t2) {
                Some((v, an)) => {
                    let t3 = vstd::slice::slice_subrange(t, 1 + kn + an, t.len());
                    proof {
                        assert(t3@ =~= adv(t@, (1 + kn + an) as nat));
                    }
                    match ex_member_sep(t3) {
                        Some((ms, sn)) => {
                            let mut out = ms;
                            out.insert(0, (kraw, v));
                            proof {
                                let ghost sep_r = sp_member_sep(adv(t@, (1 + kn + an) as nat))->0;
                                let ghost key_r = sp_str_body(adv(t@, 1))->0;
                                let ghost val_r = sp_after_key(adv(t@, (1 + kn) as nat))->0;
                                assert(mems_view(out@) =~= seq![(key_r.0, val_r.0)] + sep_r.0);
                            }
                            Some((out, w + 1 + kn + an + sn))
                        },
                        None => None,
                    }
                },
                None => None,
            }
        },
        None => None,
    }
}

/// Read a colon and the member's value.
fn ex_after_key(s: &[u8]) -> (r: Option<(Json, usize)>)
    ensures
        r is Some <==> sp_after_key(s@) is Some,
        r matches Some((v, n)) ==> sp_after_key(s@) == Some((v@, n as nat)) && n <= s@.len(),
    decreases s@.len(), 0int,
{
    let w = ex_ws(s);
    let t = vstd::slice::slice_subrange(s, w, s.len());
    proof {
        assert(t@ =~= adv(s@, w as nat));
    }
    if t.len() > 0 && t[0] == 58 {
        let t1 = vstd::slice::slice_subrange(t, 1, t.len());
        proof {
            assert(t1@ =~= adv(t@, 1));
        }
        match ex_value(t1) {
            Some((v, n)) => Some((v, w + 1 + n)),
            None => None,
        }
    } else {
        None
    }
}

/// Read a member separator: a comma and the remaining members, or `}`.
fn ex_member_sep(s: &[u8]) -> (r: Option<(Vec<(Vec<u8>, Json)>, usize)>)
    ensures
        r is Some <==> sp_member_sep(s@) is Some,
        r matches Some((ms, n)) ==> sp_member_sep(s@) == Some((mems_view(ms@), n as nat)) && n
            <= s@.len(),
    decreases s@.len(), 0int,
{
    let w = ex_ws(s);
    let t = vstd::slice::slice_subrange(s, w, s.len());
    proof {
        assert(t@ =~= adv(s@, w as nat));
    }
    if t.len() == 0 {
        return None;
    }
    let b0 = t[0];
    if b0 == 125 {
        proof {
            assert(mems_view(Seq::<(Vec<u8>, Json)>::empty()) =~= Seq::<(Seq<u8>, JsonV)>::empty());
        }
        return Some((Vec::new(), w + 1));
    }
    if b0 == 44 {
        let t1 = vstd::slice::slice_subrange(t, 1, t.len());
        proof {
            assert(t1@ =~= adv(t@, 1));
        }
        match ex_membs(t1) {
            Some((ms, n)) => Some((ms, w + 1 + n)),
            None => None,
        }
    } else {
        None
    }
}

/// Read an array's elements, from just after `[` or a comma.
fn ex_elems(s: &[u8]) -> (r: Option<(Vec<Json>, usize)>)
    ensures
        r is Some <==> sp_elems(s@) is Some,
        r matches Some((es, n)) ==> sp_elems(s@) == Some((elems_view(es@), n as nat)) && n
            <= s@.len(),
    decreases s@.len(), 1int,
{
    let w = ex_ws(s);
    let t = vstd::slice::slice_subrange(s, w, s.len());
    proof {
        assert(t@ =~= adv(s@, w as nat));
    }
    if t.len() == 0 {
        return None;
    }
    if t[0] == 93 {
        proof {
            assert(elems_view(Seq::<Json>::empty()) =~= Seq::<JsonV>::empty());
        }
        return Some((Vec::new(), w + 1));
    }
    match ex_value(s) {
        Some((v, n)) => {
            let t2 = vstd::slice::slice_subrange(s, n, s.len());
            proof {
                assert(t2@ =~= adv(s@, n as nat));
            }
            match ex_elem_sep(t2) {
                Some((es, sn)) => {
                    let mut out = es;
                    out.insert(0, v);
                    proof {
                        let ghost val_r = sp_value(s@)->0;
                        let ghost sep_r = sp_elem_sep(adv(s@, n as nat))->0;
                        assert(elems_view(out@) =~= seq![val_r.0] + sep_r.0);
                    }
                    Some((out, n + sn))
                },
                None => None,
            }
        },
        None => None,
    }
}

/// Read an element separator: a comma and the remaining elements, or `]`.
fn ex_elem_sep(s: &[u8]) -> (r: Option<(Vec<Json>, usize)>)
    ensures
        r is Some <==> sp_elem_sep(s@) is Some,
        r matches Some((es, n)) ==> sp_elem_sep(s@) == Some((elems_view(es@), n as nat)) && n
            <= s@.len(),
    decreases s@.len(), 0int,
{
    let w = ex_ws(s);
    let t = vstd::slice::slice_subrange(s, w, s.len());
    proof {
        assert(t@ =~= adv(s@, w as nat));
    }
    if t.len() == 0 {
        return None;
    }
    let b0 = t[0];
    if b0 == 93 {
        proof {
            assert(elems_view(Seq::<Json>::empty()) =~= Seq::<JsonV>::empty());
        }
        return Some((Vec::new(), w + 1));
    }
    if b0 == 44 {
        let t1 = vstd::slice::slice_subrange(t, 1, t.len());
        proof {
            assert(t1@ =~= adv(t@, 1));
        }
        match ex_elems(t1) {
            Some((es, n)) => Some((es, w + 1 + n)),
            None => None,
        }
    } else {
        None
    }
}

/// Read one JSON value from the front of `s`, ignoring whatever follows it.
pub fn parse_prefix(s: &[u8]) -> (r: Option<(Json, usize)>)
    ensures
        r is Some <==> sp_value(s@) is Some,
        r matches Some((v, n)) ==> sp_value(s@) == Some((v@, n as nat)) && n <= s@.len(),
{
    ex_value(s)
}

/// Read a complete JSON document: one value with only whitespace after it.
pub fn parse_document(s: &[u8]) -> (r: Option<Json>)
    ensures
        r is Some <==> sp_document(s@) is Some,
        r matches Some(v) ==> sp_document(s@) == Some(v@),
{
    match ex_value(s) {
        Some((v, n)) => {
            let rest = vstd::slice::slice_subrange(s, n, s.len());
            proof {
                assert(rest@ =~= adv(s@, n as nat));
            }
            let w = ex_ws(rest);
            if n + w == s.len() {
                Some(v)
            } else {
                None
            }
        },
        None => None,
    }
}

} // verus!
