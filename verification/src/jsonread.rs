//! Reading fields out of parsed JSON values: object lookup, numbers as
//! integers, and string unescaping.

use vstd::prelude::*;
use crate::json::{Json, JsonV, mems_view, lemma_view_obj, json_view};
use crate::num::{is_digit, all_digits, dec_val, spec_parse_u64, parse_u64_dec, lemma_dec_val_nonneg};
use crate::textops::bytes_to_string;
use vstd::utf8::{encode_scalar, encode_utf8, valid_utf8};

verus! {

/// Look a key up among an object's members; on a duplicate key the later
/// member wins, as JSON object readers conventionally let later members
/// overwrite earlier ones.
pub open spec fn obj_get(ms: Seq<(Seq<u8>, JsonV)>, key: Seq<u8>) -> Option<JsonV>
    decreases ms.len(),
{
    if ms.len() == 0 {
        None
    } else if ms.last().0 == key {
        Some(ms.last().1)
    } else {
        obj_get(ms.drop_last(), key)
    }
}

/// Look a key up in a value: `None` unless the value is an object with that
/// key (as indexing a non-object JSON tree yields nothing).
pub open spec fn jv_get(v: JsonV, key: Seq<u8>) -> Option<JsonV> {
    match v {
        JsonV::Obj(ms) => obj_get(ms, key),
        _ => None,
    }
}

/// A number read as an unsigned integer: digits only, fitting `u64`; a
/// signed, fractional or exponent form reads as no integer.
pub open spec fn jv_as_u64(v: JsonV) -> Option<u64> {
    match v {
        JsonV::Num(raw) => spec_parse_u64(raw),
        _ => None,
    }
}

/// A number read as a signed integer: an optional `-`, digits, within the
/// `i64` bounds.
pub open spec fn jv_as_i64(v: JsonV) -> Option<i64> {
    match v {
        JsonV::Num(raw) => if raw.len() > 0 && raw[0] == 45 {
            let t = raw.skip(1);
            if t.len() > 0 && all_digits(t) && dec_val(t) <= 0x8000000000000000 {
                Some((-dec_val(t)) as i64)
            } else {
                None
            }
        } else {
            if raw.len() > 0 && all_digits(raw) && dec_val(raw) <= i64::MAX {
                Some(dec_val(raw) as i64)
            } else {
                None
            }
        },
        _ => None,
    }
}

/// Whether two byte slices hold the same bytes.
pub fn bytes_eq(a: &[u8], b: &[u8]) -> (r: bool)
    ensures
        r == (a@ == b@),
{
    if a.len() != b.len() {
        return false;
    }
    let mut i: usize = 0;
    while i < a.len()
        invariant
            0 <= i <= a@.len(),
            a@.len() == b@.len(),
            forall|k: int| 0 <= k < i ==> a@[k] == b@[k],
        decreases a@.len() - i,
    {
        if a[i] != b[i] {
            return false;
        }
        i = i + 1;
    }
    proof {
        assert(a@ =~= b@);
    }
    true
}

/// Find `key` among the members of `j`, when `j` is an object.
pub fn json_get<'a>(j: &'a Json, key: &[u8]) -> (r: Option<&'a Json>)
    ensures
        r is Some <==> jv_get(j@, key@) is Some,
        r matches Some(v) ==> jv_get(j@, key@) == Some(v@),
{
    match j {
        Json::Obj(ms) => {
            proof {
                assert(*j == Json::Obj(*ms));
                lemma_view_obj(*ms);
                assert(jv_get(j@, key@) == obj_get(mems_view(ms@), key@));
            }
            let ghost full = mems_view(ms@);
            let mut i: usize = ms.len();
            proof {
                assert(full.take(ms@.len() as int) =~= full);
            }
            while i > 0
                invariant
                    0 <= i <= ms@.len(),
                    full == mems_view(ms@),
                    full.len() == ms@.len(),
                    jv_get(j@, key@) == obj_get(full, key@),
                    obj_get(full, key@) == obj_get(full.take(i as int), key@),
                decreases i,
            {
                proof {
                    assert(full.take(i as int).last() == full[i - 1]);
                    assert(full.take(i as int).drop_last() =~= full.take(i - 1));
                }
                let m = &ms[i - 1];
                if bytes_eq(m.0.as_slice(), key) {
                    proof {
                        assert(full[i - 1] == (ms@[i - 1].0@, json_view(ms@[i - 1].1)));
                        assert(obj_get(full.take(i as int), key@) == Some(full[i - 1].1));
                    }
                    return Some(&m.1);
                }
                i = i - 1;
            }
            proof {
                assert(full.take(0) =~= Seq::<(Seq<u8>, JsonV)>::empty());
            }
            None
        },
        _ => None,
    }
}

/// Read `j` as an unsigned integer.
pub fn json_as_u64(j: &Json) -> (r: Option<u64>)
    ensures
        r == jv_as_u64(j@),
{
    match j {
        Json::Num(raw) => parse_u64_dec(raw.as_slice()),
        _ => None,
    }
}

/// Read `j` as a signed integer.
pub fn json_as_i64(j: &Json) -> (r: Option<i64>)
    ensures
        r == jv_as_i64(j@),
{
    match j {
        Json::Num(raw) => {
            let s = raw.as_slice();
            if s.len() > 0 && s[0] == 45 {
                let t = vstd::slice::slice_subrange(s, 1, s.len());
                proof {
                    assert(t@ =~= raw@.skip(1));
                    if t@.len() > 0 && all_digits(t@) {
                        lemma_dec_val_nonneg(t@);
                    }
                }
                match parse_u64_dec(t) {
                    Some(v) => {
                        if v <= 0x8000000000000000u64 {
                            let w: i64 = if v == 0x8000000000000000u64 {
                                i64::MIN
                            } else {
                                0i64 - (v as i64)
                            };
                            Some(w)
                        } else {
                            None
                        }
                    },
                    None => None,
                }
            } else {
                proof {
                    if s@.len() > 0 && all_digits(s@) {
                        lemma_dec_val_nonneg(s@);
                    }
                }
                match parse_u64_dec(s) {
                    Some(v) => {
                        if v <= i64::MAX as u64 {
                            Some(v as i64)
                        } else {
                            None
                        }
                    },
                    None => None,
                }
            }
        },
        _ => None,
    }
}

/// A hexadecimal digit.
pub open spec fn is_hex(b: u8) -> bool {
    is_digit(b) || (97 <= b <= 102) || (65 <= b <= 70)
}

/// The value of a hexadecimal digit.
pub open spec fn hex_val(b: u8) -> int {
    if is_digit(b) {
        b - 48
    } else if 97 <= b <= 102 {
        b - 87
    } else {
        b - 55
    }
}

/// The value of the four hex digits at the front of `s`.
pub open spec fn hex4(s: Seq<u8>) -> int {
    hex_val(s[0]) * 4096 + hex_val(s[1]) * 256 + hex_val(s[2]) * 16 + hex_val(s[3])
}

/// Whether the first four bytes of `s` are hex digits.
pub open spec fn hex4_ok(s: Seq<u8>) -> bool {
    s.len() >= 4 && is_hex(s[0]) && is_hex(s[1]) && is_hex(s[2]) && is_hex(s[3])
}

/// The decoded bytes of a raw string body: escapes are rewritten, everything
/// else is copied. A `\uXXXX` escape yields the scalar's UTF-8 bytes; a high
/// surrogate must be followed by an escaped low surrogate, and a lone
/// surrogate makes the whole string read as nothing.
pub open spec fn sp_unescape(s: Seq<u8>) -> Option<Seq<u8>>
    decreases s.len(),
{
    if s.len() == 0 {
        Some(Seq::empty())
    } else if s[0] == 92 {
        if s.len() >= 2 {
            let c = s[1];
            if c == 34 || c == 92 || c == 47 {
                cons_unescaped(seq![c], sp_unescape(s.skip(2)))
            } else if c == 98 {
                cons_unescaped(seq![8u8], sp_unescape(s.skip(2)))
            } else if c == 102 {
                cons_unescaped(seq![12u8], sp_unescape(s.skip(2)))
            } else if c == 110 {
                cons_unescaped(seq![10u8], sp_unescape(s.skip(2)))
            } else if c == 114 {
                cons_unescaped(seq![13u8], sp_unescape(s.skip(2)))
            } else if c == 116 {
                cons_unescaped(seq![9u8], sp_unescape(s.skip(2)))
            } else if c == 117 {
                if hex4_ok(s.skip(2)) {
                    let cp = hex4(s.skip(2));
                    if 0xD800 <= cp <= 0xDBFF {
                        if s.len() >= 12 && s[6] == 92 && s[7] == 117 && hex4_ok(s.skip(8)) {
                            let lo = hex4(s.skip(8));
                            if 0xDC00 <= lo <= 0xDFFF {
                                let scalar = 0x10000 + (cp - 0xD800) * 0x400 + (lo - 0xDC00);
                                cons_unescaped(encode_scalar(scalar as u32), sp_unescape(s.skip(12)))
                            } else {
                                None
                            }
                        } else {
                            None
                        }
                    } else if 0xDC00 <= cp <= 0xDFFF {
                        None
                    } else {
                        cons_unescaped(encode_scalar(cp as u32), sp_unescape(s.skip(6)))
                    }
                } else {
                    None
                }
            } else {
                None
            }
        } else {
            None
        }
    } else {
        cons_unescaped(seq![s[0]], sp_unescape(s.skip(1)))
    }
}

/// Prefix bytes onto an optional tail.
pub open spec fn cons_unescaped(head: Seq<u8>, tail: Option<Seq<u8>>) -> Option<Seq<u8>> {
    match tail {
        Some(t) => Some(head + t),
        None => None,
    }
}

/// Whether `c` is a hexadecimal digit.
fn is_hex_byte(c: u8) -> (r: bool)
    ensures
        r == is_hex(c),
{
    (48 <= c && c <= 57) || (97 <= c && c <= 102) || (65 <= c && c <= 70)
}

/// The value of a hexadecimal digit.
fn hex_val_byte(c: u8) -> (r: u8)
    requires
        is_hex(c),
    ensures
        r as int == hex_val(c),
        r < 16,
{
    if 48 <= c && c <= 57 {
        c - 48
    } else if 97 <= c && c <= 102 {
        c - 87
    } else {
        c - 55
    }
}

/// Read the four hex digits at the front of `s`, if they are there.
fn read_hex4(s: &[u8]) -> (r: Option<u32>)
    ensures
        r is Some <==> hex4_ok(s@),
        r matches Some(v) ==> v as int == hex4(s@) && v < 0x10000,
{
    if s.len() < 4 {
        return None;
    }
    let b0 = s[0];
    let b1 = s[1];
    let b2 = s[2];
    let b3 = s[3];
    if is_hex_byte(b0) && is_hex_byte(b1) && is_hex_byte(b2) && is_hex_byte(b3) {
        let v: u32 = (hex_val_byte(b0) as u32) * 4096 + (hex_val_byte(b1) as u32) * 256 + (
        hex_val_byte(b2) as u32) * 16 + (hex_val_byte(b3) as u32);
        Some(v)
    } else {
        None
    }
}

/// The UTF-8 bytes of one scalar value.
fn encode_scalar_exec(scalar: u32) -> (r: Vec<u8>)
    requires
        vstd::utf8::is_scalar(scalar),
    ensures
        r@ == encode_scalar(scalar),
{
    proof {
        assert((scalar & 0x7F) <= 0x7F && ((scalar >> 6) & 0x1F) <= 0x1F && ((scalar >> 12)
            & 0x0F) <= 0x0F && ((scalar >> 18) & 0x7) <= 0x7 && (scalar & 0x3F) <= 0x3F && ((scalar
            >> 6) & 0x3F) <= 0x3F && ((scalar >> 12) & 0x3F) <= 0x3F) by (bit_vector);
    }
    let mut v: Vec<u8> = Vec::new();
    if scalar <= 0x7F {
        v.push((scalar & 0x7F) as u8);
        proof {
            assert(v@ =~= encode_scalar(scalar));
        }
    } else if scalar <= 0x7FF {
        v.push(0xC0u8 | (((scalar >> 6) & 0x1F) as u8));
        v.push(0x80u8 | ((scalar & 0x3F) as u8));
        proof {
            assert(v@ =~= encode_scalar(scalar));
        }
    } else if scalar <= 0xFFFF {
        v.push(0xE0u8 | (((scalar >> 12) & 0x0F) as u8));
        v.push(0x80u8 | (((scalar >> 6) & 0x3F) as u8));
        v.push(0x80u8 | ((scalar & 0x3F) as u8));
        proof {
            assert(v@ =~= encode_scalar(scalar));
        }
    } else {
        v.push(0xF0u8 | (((scalar >> 18) & 0x7) as u8));
        v.push(0x80u8 | (((scalar >> 12) & 0x3F) as u8));
        v.push(0x80u8 | (((scalar >> 6) & 0x3F) as u8));
        v.push(0x80u8 | ((scalar & 0x3F) as u8));
        proof {
            assert(v@ =~= encode_scalar(scalar));
        }
    }
    v
}

/// Decode a raw string body.
pub fn unescape(s: &[u8]) -> (r: Option<Vec<u8>>)
    ensures
        r is Some <==> sp_unescape(s@) is Some,
        r matches Some(v) ==> sp_unescape(s@) == Some(v@),
    decreases s@.len(),
{
    if s.len() == 0 {
        return Some(Vec::new());
    }
    let b0 = s[0];
    if b0 == 92 {
        if s.len() < 2 {
            return None;
        }
        let c = s[1];
        if c == 34 || c == 92 || c == 47 || c == 98 || c == 102 || c == 110 || c == 114 || c == 116 {
            let rep: u8 = if c == 98 {
                8
            } else if c == 102 {
                12
            } else if c == 110 {
                10
            } else if c == 114 {
                13
            } else if c == 116 {
                9
            } else {
                c
            };
            let rest = vstd::slice::slice_subrange(s, 2, s.len());
            proof {
                assert(rest@ =~= s@.skip(2));
            }
            match unescape(rest) {
                Some(tail) => {
                    let ghost tail_view = tail@;
                    let mut v = tail;
                    v.insert(0, rep);
                    proof {
                        assert(v@ =~= seq![rep] + tail_view);
                    }
                    Some(v)
                },
                None => None,
            }
        } else if c == 117 {
            let s2 = vstd::slice::slice_subrange(s, 2, s.len());
            proof {
                assert(s2@ =~= s@.skip(2));
            }
            match read_hex4(s2) {
                Some(cp) => {
                    if 0xD800 <= cp && cp <= 0xDBFF {
                        if s.len() >= 12 && s[6] == 92 && s[7] == 117 {
                            let s8 = vstd::slice::slice_subrange(s, 8, s.len());
                            proof {
                                assert(s8@ =~= s@.skip(8));
                            }
                            match read_hex4(s8) {
                                Some(lo) => {
                                    if 0xDC00 <= lo && lo <= 0xDFFF {
                                        let scalar: u32 = 0x10000 + (cp - 0xD800) * 0x400 + (lo
                                            - 0xDC00);
                                        let enc = encode_scalar_exec(scalar);
                                        let rest = vstd::slice::slice_subrange(s, 12, s.len());
                                        proof {
                                            assert(rest@ =~= s@.skip(12));
                                        }
                                        match unescape(rest) {
                                            Some(tail) => {
                                                let ghost enc_view = enc@;
                                                let ghost tail_view = tail@;
                                                let mut v = enc;
                                                let mut t = tail;
                                                v.append(&mut t);
                                                proof {
                                                    assert(v@ =~= enc_view + tail_view);
                                                }
                                                Some(v)
                                            },
                                            None => None,
                                        }
                                    } else {
                                        None
                                    }
                                },
                                None => None,
                            }
                        } else {
                            None
                        }
                    } else if 0xDC00 <= cp && cp <= 0xDFFF {
                        None
                    } else {
                        let enc = encode_scalar_exec(cp);
                        let rest = vstd::slice::slice_subrange(s, 6, s.len());
                        proof {
                            assert(rest@ =~= s@.skip(6));
                        }
                        match unescape(rest) {
                            Some(tail) => {
                                let ghost enc_view = enc@;
                                let ghost tail_view = tail@;
                                let mut v = enc;
                                let mut t = tail;
                                v.append(&mut t);
                                proof {
                                    assert(v@ =~= enc_view + tail_view);
                                }
                                Some(v)
                            },
                            None => None,
                        }
                    }
                },
                None => None,
            }
        } else {
            None
        }
    } else {
        let rest = vstd::slice::slice_subrange(s, 1, s.len());
        proof {
            assert(rest@ =~= s@.skip(1));
        }
        match unescape(rest) {
            Some(tail) => {
                let ghost tail_view = tail@;
                let mut v = tail;
                v.insert(0, b0);
                proof {
                    assert(v@ =~= seq![s@[0]] + tail_view);
                }
                Some(v)
            },
            None => None,
        }
    }
}

/// The bytes a string value decodes to.
pub open spec fn jv_as_str_bytes(v: JsonV) -> Option<Seq<u8>> {
    match v {
        JsonV::Str(raw) => sp_unescape(raw),
        _ => None,
    }
}

/// Read `j` as a string: its raw bytes decoded and taken as UTF-8.
pub fn json_as_string(j: &Json) -> (r: Option<String>)
    ensures
        r is Some <==> (jv_as_str_bytes(j@) is Some && valid_utf8(jv_as_str_bytes(j@)->0)),
        r matches Some(out) ==> encode_utf8(out@) == jv_as_str_bytes(j@)->0,
{
    match j {
        Json::Str(raw) => match unescape(raw.as_slice()) {
            Some(bytes) => bytes_to_string(bytes),
            None => None,
        },
        _ => None,
    }
}

/// A string field of `o`: present, a string, and decoding to valid UTF-8.
pub open spec fn sp_str_field(o: JsonV, key: Seq<u8>) -> Option<Seq<u8>> {
    match jv_get(o, key) {
        Some(f) => match jv_as_str_bytes(f) {
            Some(b) => if valid_utf8(b) {
                Some(b)
            } else {
                None
            },
            None => None,
        },
        None => None,
    }
}

/// An unsigned integer field of `o`.
pub open spec fn sp_u64_field(o: JsonV, key: Seq<u8>) -> Option<u64> {
    match jv_get(o, key) {
        Some(f) => jv_as_u64(f),
        None => None,
    }
}

/// Read a string field of `o`.
pub fn str_field(o: &Json, key: &[u8]) -> (r: Option<String>)
    ensures
        r is Some <==> sp_str_field(o@, key@) is Some,
        r matches Some(s) ==> sp_str_field(o@, key@) == Some(encode_utf8(s@)),
{
    match json_get(o, key) {
        Some(f) => json_as_string(f),
        None => None,
    }
}

/// Read an unsigned integer field of `o`.
pub fn u64_field(o: &Json, key: &[u8]) -> (r: Option<u64>)
    ensures
        r == sp_u64_field(o@, key@),
{
    match json_get(o, key) {
        Some(f) => json_as_u64(f),
        None => None,
    }
}

} // verus!
