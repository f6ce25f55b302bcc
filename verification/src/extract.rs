//! Extraction of a video's identity from an HTML document: the embedded
//! state object is located by its marker text, its leading JSON value is
//! parsed (trailing script code ignored), and the `epInfo` / `videoData`
//! shapes are read, in that priority.

use vstd::prelude::*;
use vstd::utf8::encode_utf8;
use vstd::utf8::valid_utf8;
use crate::json::{Json, JsonV, sp_value, adv};
use crate::num::{is_digit, spec_parse_u64, parse_u64_dec};
use crate::errors::{LookupError, ErrV};
use crate::jsonread::{jv_get, json_get, json_as_u64, json_as_string, sp_str_field, sp_u64_field};

verus! {

/// Whether the needle stands in the haystack at position `i`.
pub open spec fn match_at(h: Seq<u8>, n: Seq<u8>, i: int) -> bool {
    0 <= i && i + n.len() <= h.len() && h.subrange(i, i + n.len()) == n
}

/// The first position where the needle stands in the haystack.
pub open spec fn first_match(h: Seq<u8>, n: Seq<u8>) -> Option<int>
    decreases h.len(),
{
    if n.len() == 0 {
        Some(0)
    } else if h.len() < n.len() {
        None
    } else if h.take(n.len() as int) == n {
        Some(0)
    } else {
        match first_match(h.skip(1), n) {
            Some(i) => Some(i + 1),
            None => None,
        }
    }
}

proof fn lemma_first_match_char(h: Seq<u8>, n: Seq<u8>, i: int)
    requires
        n.len() > 0,
        0 <= i <= h.len(),
        forall|j: int| 0 <= j < i ==> !match_at(h, n, j),
        i + n.len() <= h.len() ==> match_at(h, n, i),
    ensures
        i + n.len() <= h.len() ==> first_match(h, n) == Some(i),
        i + n.len() > h.len() ==> first_match(h, n) is None,
    decreases h.len(),
{
    if h.len() < n.len() {
        // first_match is None, and i + n.len() > h.len() in every case here
    } else if h.take(n.len() as int) == n {
        assert(h.subrange(0, n.len() as int) == h.take(n.len() as int));
        assert(match_at(h, n, 0));
        assert(i == 0);
    } else {
        assert(!match_at(h, n, 0)) by {
            assert(h.subrange(0, n.len() as int) == h.take(n.len() as int));
        }
        assert(i > 0);
        assert forall|j: int| 0 <= j < i - 1 implies !match_at(h.skip(1), n, j) by {
            assert(!match_at(h, n, j + 1));
            if match_at(h.skip(1), n, j) {
                assert(h.skip(1).subrange(j, j + n.len()) =~= h.subrange(j + 1, j + 1 + n.len()));
                assert(match_at(h, n, j + 1));
            }
        }
        if i - 1 + n.len() <= h.len() - 1 {
            assert(match_at(h, n, i));
            assert(h.skip(1).subrange(i - 1, i - 1 + n.len()) =~= h.subrange(i, i + n.len()));
            assert(match_at(h.skip(1), n, i - 1));
        }
        lemma_first_match_char(h.skip(1), n, i - 1);
    }
}

/// Find the first occurrence of `needle` in `hay`.
pub fn find_subseq(hay: &[u8], needle: &[u8]) -> (r: Option<usize>)
    requires
        needle@.len() > 0,
    ensures
        r is Some <==> first_match(hay@, needle@) is Some,
        r matches Some(i) ==> first_match(hay@, needle@) == Some(i as int) && i + needle@.len()
            <= hay@.len(),
{
    let hlen = hay.len();
    let nlen = needle.len();
    if hlen < nlen {
        proof {
            lemma_first_match_char(hay@, needle@, hay@.len() as int);
        }
        return None;
    }
    let mut i: usize = 0;
    let last = hlen - nlen;
    while i <= last
        invariant
            0 <= i <= last + 1,
            hlen == hay@.len(),
            nlen == needle@.len(),
            last == hay@.len() - needle@.len(),
            needle@.len() > 0,
            forall|j: int| 0 <= j < i ==> !match_at(hay@, needle@, j),
        decreases last + 1 - i,
    {
        let mut k: usize = 0;
        let mut hit = true;
        while k < needle.len()
            invariant
                0 <= k <= needle@.len(),
                hlen == hay@.len(),
                nlen == needle@.len(),
                i + needle@.len() <= hay@.len(),
                hit ==> forall|q: int| 0 <= q < k ==> hay@[i + q] == needle@[q],
                !hit ==> !match_at(hay@, needle@, i as int),
            decreases needle@.len() - k,
        {
            if hay[i + k] != needle[k] {
                proof {
                    if match_at(hay@, needle@, i as int) {
                        assert(hay@.subrange(i as int, i + needle@.len())[k as int] == hay@[i + k]);
                    }
                }
                hit = false;
                k = needle.len();
            } else {
                k = k + 1;
            }
        }
        if hit {
            proof {
                assert(hay@.subrange(i as int, i + needle@.len()) =~= needle@);
                lemma_first_match_char(hay@, needle@, i as int);
            }
            return Some(i);
        }
        i = i + 1;
    }
    proof {
        lemma_first_match_char(hay@, needle@, i as int);
    }
    None
}

/// The marker text that precedes the embedded state object.
pub open spec fn marker_bytes() -> Seq<u8> {
    seq![119u8, 105, 110, 100, 111, 119, 46, 95, 95, 73, 78, 73, 84, 73, 65, 76, 95, 83, 84, 65, 84, 69, 95, 95, 61]
}

/// The `epInfo` key.
pub open spec fn epinfo_key() -> Seq<u8> {
    seq![101u8, 112, 73, 110, 102, 111]
}

/// The `videoData` key.
pub open spec fn videodata_key() -> Seq<u8> {
    seq![118u8, 105, 100, 101, 111, 68, 97, 116, 97]
}

/// The `bvid` key.
pub open spec fn bvid_key() -> Seq<u8> {
    seq![98u8, 118, 105, 100]
}

/// The `cid` key.
pub open spec fn cid_key() -> Seq<u8> {
    seq![99u8, 105, 100]
}

fn marker_vec() -> (v: Vec<u8>)
    ensures
        v@ == marker_bytes(),
{
    let v: Vec<u8> = vec![119u8, 105, 110, 100, 111, 119, 46, 95, 95, 73, 78, 73, 84, 73, 65, 76, 95, 83, 84, 65, 84, 69, 95, 95, 61];
    proof {
        assert(v@ =~= marker_bytes());
    }
    v
}

fn epinfo_key_vec() -> (v: Vec<u8>)
    ensures
        v@ == epinfo_key(),
{
    let v: Vec<u8> = vec![101u8, 112, 73, 110, 102, 111];
    proof {
        assert(v@ =~= epinfo_key());
    }
    v
}

fn videodata_key_vec() -> (v: Vec<u8>)
    ensures
        v@ == videodata_key(),
{
    let v: Vec<u8> = vec![118u8, 105, 100, 101, 111, 68, 97, 116, 97];
    proof {
        assert(v@ =~= videodata_key());
    }
    v
}

fn bvid_key_vec() -> (v: Vec<u8>)
    ensures
        v@ == bvid_key(),
{
    let v: Vec<u8> = vec![98u8, 118, 105, 100];
    proof {
        assert(v@ =~= bvid_key());
    }
    v
}

fn cid_key_vec() -> (v: Vec<u8>)
    ensures
        v@ == cid_key(),
{
    let v: Vec<u8> = vec![99u8, 105, 100];
    proof {
        assert(v@ =~= cid_key());
    }
    v
}

/// The `(bvid, cid)` pair read out of one state shape.
pub open spec fn sp_ids_in(o: JsonV) -> Option<(Seq<u8>, u64)> {
    match (sp_str_field(o, bvid_key()), sp_u64_field(o, cid_key())) {
        (Some(b), Some(c)) => Some((b, c)),
        _ => None,
    }
}

/// The `(bvid, cid)` pair of the `epInfo` shape.
pub open spec fn sp_epinfo_ids(v: JsonV) -> Option<(Seq<u8>, u64)> {
    match jv_get(v, epinfo_key()) {
        Some(e) => if e is Obj {
            sp_ids_in(e)
        } else {
            None
        },
        None => None,
    }
}

/// The `(bvid, cid)` pair of a state object: the `epInfo` shape takes
/// priority; whenever it yields no pair — the member absent, not an object,
/// or lacking the fields — the `videoData` shape is read instead.
pub open spec fn sp_state_ids(v: JsonV) -> Option<(Seq<u8>, u64)> {
    match sp_epinfo_ids(v) {
        Some(p) => Some(p),
        None => sp_videodata_ids(v),
    }
}

/// The `(bvid, cid)` pair of the `videoData` shape.
pub open spec fn sp_videodata_ids(v: JsonV) -> Option<(Seq<u8>, u64)> {
    match jv_get(v, videodata_key()) {
        Some(d) => if d is Obj {
            sp_ids_in(d)
        } else {
            None
        },
        None => None,
    }
}

/// What `find_id` yields on a document: the marker is found, the JSON value
/// after it parsed (whatever follows the value is ignored), and one of the
/// two shapes read.
pub open spec fn sp_find_id(html: Seq<u8>) -> Option<(Seq<u8>, u64)> {
    match first_match(html, marker_bytes()) {
        Some(i) => {
            match sp_value(adv(html, (i + marker_bytes().len()) as nat)) {
                Some((v, _n)) => sp_state_ids(v),
                None => None,
            }
        },
        None => None,
    }
}

/// Whether `j` is an object.
fn is_obj(j: &Json) -> (r: bool)
    ensures
        r == (j@ is Obj),
{
    match j {
        Json::Obj(_) => true,
        _ => false,
    }
}

/// Read `bvid` and `cid` out of one state shape.
fn ids_in(o: &Json) -> (r: Option<(String, u64)>)
    ensures
        r is Some <==> sp_ids_in(o@) is Some,
        r matches Some(p) ==> sp_ids_in(o@) == Some((encode_utf8(p.0@), p.1)),
{
    let bk = bvid_key_vec();
    let ck = cid_key_vec();
    match json_get(o, bk.as_slice()) {
        Some(bv) => match json_as_string(bv) {
            Some(s) => match json_get(o, ck.as_slice()) {
                Some(c) => match json_as_u64(c) {
                    Some(cid) => Some((s, cid)),
                    None => None,
                },
                None => None,
            },
            None => None,
        },
        None => None,
    }
}

/// Read the `videoData` shape.
fn videodata_ids(v: &Json) -> (r: Option<(String, u64)>)
    ensures
        r is Some <==> sp_videodata_ids(v@) is Some,
        r matches Some(p) ==> sp_videodata_ids(v@) == Some((encode_utf8(p.0@), p.1)),
{
    let vk = videodata_key_vec();
    match json_get(v, vk.as_slice()) {
        Some(d) => {
            if is_obj(d) {
                ids_in(d)
            } else {
                None
            }
        },
        None => None,
    }
}

/// Read the state object: `epInfo` first; `videoData` whenever that shape
/// yields no pair.
fn state_ids(v: &Json) -> (r: Option<(String, u64)>)
    ensures
        r is Some <==> sp_state_ids(v@) is Some,
        r matches Some(p) ==> sp_state_ids(v@) == Some((encode_utf8(p.0@), p.1)),
{
    let ek = epinfo_key_vec();
    let from_epinfo = match json_get(v, ek.as_slice()) {
        Some(e) => {
            if is_obj(e) {
                ids_in(e)
            } else {
                None
            }
        },
        None => None,
    };
    match from_epinfo {
        Some(p) => Some(p),
        None => videodata_ids(v),
    }
}

/// Extract the encoded id and content id embedded in an episode or video
/// page: find the state marker, parse the JSON value that follows it, and
/// read whichever recognized shape is present.
pub fn find_id(html: &[u8]) -> (r: Option<(String, u64)>)
    ensures
        r is Some <==> sp_find_id(html@) is Some,
        r matches Some(p) ==> sp_find_id(html@) == Some((encode_utf8(p.0@), p.1)),
{
    let marker = marker_vec();
    let hlen = html.len();
    match find_subseq(html, marker.as_slice()) {
        Some(i) => {
            let start = i + marker.len();
            let data = vstd::slice::slice_subrange(html, start, hlen);
            proof {
                assert(data@ =~= adv(html@, (i + marker_bytes().len()) as nat));
            }
            match crate::json::parse_prefix(data) {
                Some((v, _n)) => state_ids(&v),
                None => None,
            }
        },
        None => None,
    }
}

/// A run of ASCII digits at the front of `s`.
pub open spec fn digit_run(s: Seq<u8>) -> nat
    decreases s.len(),
{
    if s.len() > 0 && is_digit(s[0]) {
        1 + digit_run(s.skip(1))
    } else {
        0
    }
}

/// The literal the season id is scraped by: `"season_id":`.
pub open spec fn season_pat() -> Seq<u8> {
    seq![34u8, 115, 101, 97, 115, 111, 110, 95, 105, 100, 34, 58]
}

/// Relies on regex::bytes::Regex (`new` and `find`): the pattern
/// `"season_id":[0-9]*` matches first at the first occurrence of the literal
/// `"season_id":` (the digit run matches the empty text, so the match starts
/// wherever the literal first stands), and runs greedily to the end of the
/// digit run that follows.
#[verifier::external_body]
fn season_id_find(content: &[u8]) -> (r: Option<(usize, usize)>)
    ensures
        r is Some <==> first_match(content@, season_pat()) is Some,
        r matches Some(p) ==> first_match(content@, season_pat()) == Some(p.0 as int) && p.1 == p.0
            + season_pat().len() + digit_run(adv(content@, (p.0 + season_pat().len()) as nat))
            && p.1 <= content@.len(),
{
    let re = regex::bytes::Regex::new("\"season_id\":[0-9]*").ok()?;
    let m = re.find(content)?;
    Some((m.start(), m.end()))
}

/// What scraping the season id from a media page yields: the digits after
/// the first `"season_id":` as a number, `NotFound` when the pattern is
/// absent, and a malformed-identifier failure when the digits are empty or
/// beyond `u64`.
pub open spec fn sp_season_id(content: Seq<u8>) -> Result<u64, ErrV> {
    match first_match(content, season_pat()) {
        Some(i) => {
            let rest = adv(content, (i + season_pat().len()) as nat);
            let digits = rest.take(digit_run(rest) as int);
            match spec_parse_u64(digits) {
                Some(v) => Ok(v),
                None => Err(ErrV::InvalidIdentifier),
            }
        },
        None => Err(ErrV::NotFound),
    }
}

/// Scrape the season id out of a media landing page.
pub fn season_id_from_html(content: &[u8]) -> (r: Result<u64, LookupError>)
    ensures
        r is Ok <==> sp_season_id(content@) is Ok,
        r matches Ok(v) ==> sp_season_id(content@) == Ok::<_, ErrV>(v),
        r matches Err(e) ==> sp_season_id(content@) == Err::<u64, _>(e@),
{
    match season_id_find(content) {
        Some((a, b)) => {
            proof {
                assert(season_pat().len() == 12);
            }
            let digits = vstd::slice::slice_subrange(content, a + 12, b);
            proof {
                let rest = adv(content@, (a + 12) as nat);
                assert(digits@ =~= rest.take(digit_run(rest) as int));
            }
            match parse_u64_dec(digits) {
                Some(v) => Ok(v),
                None => Err(LookupError::InvalidIdentifier),
            }
        },
        None => Err(LookupError::NotFound),
    }
}

} // verus!
