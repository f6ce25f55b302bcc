//! The remote payloads: the response envelope and the three list payloads
//! (subtitle tracks, video pages, season episodes), decoded from bytes and
//! failing closed on any unexpected shape.

use vstd::prelude::*;
use vstd::utf8::{encode_utf8, decode_utf8};
use crate::json::{Json, JsonV, sp_document, parse_document, elems_view, lemma_view_arr};
use crate::jsonread::{
    jv_get, jv_as_i64, json_get, json_as_i64, sp_str_field, sp_u64_field, str_field, u64_field,
};
use crate::errors::{LookupError, ErrV};

verus! {

broadcast use vstd::utf8::encode_utf8_decode_utf8;

/// The `code` key.
pub open spec fn code_key() -> Seq<u8> {
    seq![99u8, 111, 100, 101]
}

fn code_key_vec() -> (v: Vec<u8>)
    ensures
        v@ == code_key(),
{
    let v: Vec<u8> = vec![99u8, 111, 100, 101];
    proof {
        assert(v@ =~= code_key());
    }
    v
}

/// The `message` key.
pub open spec fn message_key() -> Seq<u8> {
    seq![109u8, 101, 115, 115, 97, 103, 101]
}

fn message_key_vec() -> (v: Vec<u8>)
    ensures
        v@ == message_key(),
{
    let v: Vec<u8> = vec![109u8, 101, 115, 115, 97, 103, 101];
    proof {
        assert(v@ =~= message_key());
    }
    v
}

/// The `data` key.
pub open spec fn data_key() -> Seq<u8> {
    seq![100u8, 97, 116, 97]
}

fn data_key_vec() -> (v: Vec<u8>)
    ensures
        v@ == data_key(),
{
    let v: Vec<u8> = vec![100u8, 97, 116, 97];
    proof {
        assert(v@ =~= data_key());
    }
    v
}

/// The `result` key.
pub open spec fn result_key() -> Seq<u8> {
    seq![114u8, 101, 115, 117, 108, 116]
}

fn result_key_vec() -> (v: Vec<u8>)
    ensures
        v@ == result_key(),
{
    let v: Vec<u8> = vec![114u8, 101, 115, 117, 108, 116];
    proof {
        assert(v@ =~= result_key());
    }
    v
}

/// The `subtitle` key.
pub open spec fn subtitle_key() -> Seq<u8> {
    seq![115u8, 117, 98, 116, 105, 116, 108, 101]
}

fn subtitle_key_vec() -> (v: Vec<u8>)
    ensures
        v@ == subtitle_key(),
{
    let v: Vec<u8> = vec![115u8, 117, 98, 116, 105, 116, 108, 101];
    proof {
        assert(v@ =~= subtitle_key());
    }
    v
}

/// The `subtitles` key.
pub open spec fn subtitles_key() -> Seq<u8> {
    seq![115u8, 117, 98, 116, 105, 116, 108, 101, 115]
}

fn subtitles_key_vec() -> (v: Vec<u8>)
    ensures
        v@ == subtitles_key(),
{
    let v: Vec<u8> = vec![115u8, 117, 98, 116, 105, 116, 108, 101, 115];
    proof {
        assert(v@ =~= subtitles_key());
    }
    v
}

/// The `id` key.
pub open spec fn id_key() -> Seq<u8> {
    seq![105u8, 100]
}

fn id_key_vec() -> (v: Vec<u8>)
    ensures
        v@ == id_key(),
{
    let v: Vec<u8> = vec![105u8, 100];
    proof {
        assert(v@ =~= id_key());
    }
    v
}

/// The `lan` key.
pub open spec fn lan_key() -> Seq<u8> {
    seq![108u8, 97, 110]
}

fn lan_key_vec() -> (v: Vec<u8>)
    ensures
        v@ == lan_key(),
{
    let v: Vec<u8> = vec![108u8, 97, 110];
    proof {
        assert(v@ =~= lan_key());
    }
    v
}

/// The `lan_doc` key.
pub open spec fn lan_doc_key() -> Seq<u8> {
    seq![108u8, 97, 110, 95, 100, 111, 99]
}

fn lan_doc_key_vec() -> (v: Vec<u8>)
    ensures
        v@ == lan_doc_key(),
{
    let v: Vec<u8> = vec![108u8, 97, 110, 95, 100, 111, 99];
    proof {
        assert(v@ =~= lan_doc_key());
    }
    v
}

/// The `subtitle_url` key.
pub open spec fn subtitle_url_key() -> Seq<u8> {
    seq![115u8, 117, 98, 116, 105, 116, 108, 101, 95, 117, 114, 108]
}

fn subtitle_url_key_vec() -> (v: Vec<u8>)
    ensures
        v@ == subtitle_url_key(),
{
    let v: Vec<u8> = vec![115u8, 117, 98, 116, 105, 116, 108, 101, 95, 117, 114, 108];
    proof {
        assert(v@ =~= subtitle_url_key());
    }
    v
}

/// The `type` key.
pub open spec fn kind_key() -> Seq<u8> {
    seq![116u8, 121, 112, 101]
}

fn kind_key_vec() -> (v: Vec<u8>)
    ensures
        v@ == kind_key(),
{
    let v: Vec<u8> = vec![116u8, 121, 112, 101];
    proof {
        assert(v@ =~= kind_key());
    }
    v
}

/// The `cid` key.
pub open spec fn cid_key() -> Seq<u8> {
    seq![99u8, 105, 100]
}

fn cid_key_vec() -> (v: Vec<u8>)
    ensures
        v@ == cid_key(),
{
    let v: Vec<u8> = vec![99u8, 105, 100];
    proof {
        assert(v@ =~= cid_key());
    }
    v
}

/// The `page` key.
pub open spec fn page_key() -> Seq<u8> {
    seq![112u8, 97, 103, 101]
}

fn page_key_vec() -> (v: Vec<u8>)
    ensures
        v@ == page_key(),
{
    let v: Vec<u8> = vec![112u8, 97, 103, 101];
    proof {
        assert(v@ =~= page_key());
    }
    v
}

/// The `part` key.
pub open spec fn part_key() -> Seq<u8> {
    seq![112u8, 97, 114, 116]
}

fn part_key_vec() -> (v: Vec<u8>)
    ensures
        v@ == part_key(),
{
    let v: Vec<u8> = vec![112u8, 97, 114, 116];
    proof {
        assert(v@ =~= part_key());
    }
    v
}

/// The `duration` key.
pub open spec fn duration_key() -> Seq<u8> {
    seq![100u8, 117, 114, 97, 116, 105, 111, 110]
}

fn duration_key_vec() -> (v: Vec<u8>)
    ensures
        v@ == duration_key(),
{
    let v: Vec<u8> = vec![100u8, 117, 114, 97, 116, 105, 111, 110];
    proof {
        assert(v@ =~= duration_key());
    }
    v
}

/// The `aid` key.
pub open spec fn aid_key() -> Seq<u8> {
    seq![97u8, 105, 100]
}

fn aid_key_vec() -> (v: Vec<u8>)
    ensures
        v@ == aid_key(),
{
    let v: Vec<u8> = vec![97u8, 105, 100];
    proof {
        assert(v@ =~= aid_key());
    }
    v
}

/// The `main_section` key.
pub open spec fn main_section_key() -> Seq<u8> {
    seq![109u8, 97, 105, 110, 95, 115, 101, 99, 116, 105, 111, 110]
}

fn main_section_key_vec() -> (v: Vec<u8>)
    ensures
        v@ == main_section_key(),
{
    let v: Vec<u8> = vec![109u8, 97, 105, 110, 95, 115, 101, 99, 116, 105, 111, 110];
    proof {
        assert(v@ =~= main_section_key());
    }
    v
}

/// The `episodes` key.
pub open spec fn episodes_key() -> Seq<u8> {
    seq![101u8, 112, 105, 115, 111, 100, 101, 115]
}

fn episodes_key_vec() -> (v: Vec<u8>)
    ensures
        v@ == episodes_key(),
{
    let v: Vec<u8> = vec![101u8, 112, 105, 115, 111, 100, 101, 115];
    proof {
        assert(v@ =~= episodes_key());
    }
    v
}

/// The `title` key.
pub open spec fn title_key() -> Seq<u8> {
    seq![116u8, 105, 116, 108, 101]
}

fn title_key_vec() -> (v: Vec<u8>)
    ensures
        v@ == title_key(),
{
    let v: Vec<u8> = vec![116u8, 105, 116, 108, 101];
    proof {
        assert(v@ =~= title_key());
    }
    v
}

/// The `long_title` key.
pub open spec fn long_title_key() -> Seq<u8> {
    seq![108u8, 111, 110, 103, 95, 116, 105, 116, 108, 101]
}

fn long_title_key_vec() -> (v: Vec<u8>)
    ensures
        v@ == long_title_key(),
{
    let v: Vec<u8> = vec![108u8, 111, 110, 103, 95, 116, 105, 116, 108, 101];
    proof {
        assert(v@ =~= long_title_key());
    }
    v
}

/// Metadata for one language track of a page or episode.
#[derive(Debug)]
pub struct SubtitleInfo {
    pub id: u64,
    pub lan: String,
    pub lan_doc: String,
    pub subtitle_url: String,
    /// The track type (the wire format names this field `type`).
    pub kind: u8,
}

/// The mathematical shape of a track's metadata.
pub struct SubtitleInfoV {
    pub id: u64,
    pub lan: Seq<char>,
    pub lan_doc: Seq<char>,
    pub subtitle_url: Seq<char>,
    pub kind: u8,
}

impl View for SubtitleInfo {
    type V = SubtitleInfoV;

    open spec fn view(&self) -> SubtitleInfoV {
        SubtitleInfoV {
            id: self.id,
            lan: self.lan@,
            lan_doc: self.lan_doc@,
            subtitle_url: self.subtitle_url@,
            kind: self.kind,
        }
    }
}

/// One playable segment of a multi-part video.
#[derive(Debug)]
pub struct PageInfo {
    pub cid: u64,
    pub page: u32,
    pub part: String,
    pub duration: u64,
}

/// The mathematical shape of a page entry.
pub struct PageInfoV {
    pub cid: u64,
    pub page: u32,
    pub part: Seq<char>,
    pub duration: u64,
}

impl View for PageInfo {
    type V = PageInfoV;

    open spec fn view(&self) -> PageInfoV {
        PageInfoV { cid: self.cid, page: self.page, part: self.part@, duration: self.duration }
    }
}

/// One episode of a season.
#[derive(Debug)]
pub struct Episodes {
    pub id: u64,
    pub aid: u64,
    pub cid: u64,
    pub title: Option<String>,
    pub long_title: Option<String>,
}

/// The mathematical shape of an episode entry.
pub struct EpisodesV {
    pub id: u64,
    pub aid: u64,
    pub cid: u64,
    pub title: Option<Seq<char>>,
    pub long_title: Option<Seq<char>>,
}

impl View for Episodes {
    type V = EpisodesV;

    open spec fn view(&self) -> EpisodesV {
        EpisodesV {
            id: self.id,
            aid: self.aid,
            cid: self.cid,
            title: match self.title {
                Some(t) => Some(t@),
                None => None,
            },
            long_title: match self.long_title {
                Some(t) => Some(t@),
                None => None,
            },
        }
    }
}

/// Look a key up under an optional value.
pub open spec fn sp_opt_get(o: Option<JsonV>, key: Seq<u8>) -> Option<JsonV> {
    match o {
        Some(x) => jv_get(x, key),
        None => None,
    }
}

/// The envelope's `code` field.
pub open spec fn sp_env_code(v: JsonV) -> Option<i64> {
    match jv_get(v, code_key()) {
        Some(c) => jv_as_i64(c),
        None => None,
    }
}

/// Decode the response envelope: the document must parse whole, carry an
/// integer `code` and a string `message`; a non-zero code is a remote failure
/// carrying the message, and a zero code hands the document on.
pub open spec fn sp_envelope(s: Seq<u8>) -> Result<JsonV, ErrV> {
    match sp_document(s) {
        Some(v) => match (sp_env_code(v), sp_str_field(v, message_key())) {
            (Some(c), Some(m)) => if c != 0 {
                Err(ErrV::Remote(decode_utf8(m)))
            } else {
                Ok(v)
            },
            _ => Err(ErrV::Shape),
        },
        None => Err(ErrV::Shape),
    }
}

/// Parse a payload and check its envelope.
fn decode_envelope(content: &[u8]) -> (r: Result<Json, LookupError>)
    ensures
        r is Ok <==> sp_envelope(content@) is Ok,
        r matches Ok(doc) ==> sp_envelope(content@) == Ok::<JsonV, ErrV>(doc@),
        r matches Err(e) ==> sp_envelope(content@) == Err::<JsonV, ErrV>(e@),
{
    match parse_document(content) {
        Some(doc) => {
            let ck = code_key_vec();
            let mk = message_key_vec();
            let code_opt = match json_get(&doc, ck.as_slice()) {
                Some(c) => json_as_i64(c),
                None => None,
            };
            let msg_opt = str_field(&doc, mk.as_slice());
            match (code_opt, msg_opt) {
                (Some(c), Some(m)) => {
                    if c != 0 {
                        Err(LookupError::Remote(m))
                    } else {
                        Ok(doc)
                    }
                },
                _ => Err(LookupError::Shape),
            }
        },
        None => Err(LookupError::Shape),
    }
}

/// One track's metadata, read from one element of the `subtitles` array: the
/// element must be an object carrying all five fields with their types.
pub open spec fn sp_track_of(e: JsonV) -> Option<SubtitleInfoV> {
    if !(e is Obj) {
        None
    } else {
        match (
            sp_u64_field(e, id_key()),
            sp_str_field(e, lan_key()),
            sp_str_field(e, lan_doc_key()),
            sp_str_field(e, subtitle_url_key()),
            sp_u64_field(e, kind_key()),
        ) {
            (Some(id), Some(lan), Some(lan_doc), Some(su), Some(k)) => if k <= 255 {
                Some(
                    SubtitleInfoV {
                        id,
                        lan: decode_utf8(lan),
                        lan_doc: decode_utf8(lan_doc),
                        subtitle_url: decode_utf8(su),
                        kind: k as u8,
                    },
                )
            } else {
                None
            },
            _ => None,
        }
    }
}

/// The tracks of an array of elements, keeping the elements that read as
/// track metadata and dropping the rest, in order.
pub open spec fn sp_tracks(es: Seq<JsonV>) -> Seq<SubtitleInfoV>
    decreases es.len(),
{
    if es.len() == 0 {
        Seq::empty()
    } else {
        match sp_track_of(es[0]) {
            Some(t) => seq![t] + sp_tracks(es.drop_first()),
            None => sp_tracks(es.drop_first()),
        }
    }
}

/// The views of a track list.
pub open spec fn track_views(s: Seq<SubtitleInfo>) -> Seq<SubtitleInfoV> {
    Seq::new(s.len(), |i: int| s[i]@)
}

/// Whether `j` is an object.
fn exec_is_obj(j: &Json) -> (r: bool)
    ensures
        r == (j@ is Obj),
{
    match j {
        Json::Obj(_) => true,
        _ => false,
    }
}

/// Read one track's metadata.
fn track_of(j: &Json) -> (r: Option<SubtitleInfo>)
    ensures
        r is Some <==> sp_track_of(j@) is Some,
        r matches Some(t) ==> sp_track_of(j@) == Some(t@),
{
    if !exec_is_obj(j) {
        return None;
    }
    let idk = id_key_vec();
    let lank = lan_key_vec();
    let landock = lan_doc_key_vec();
    let suk = subtitle_url_key_vec();
    let kk = kind_key_vec();
    let id = u64_field(j, idk.as_slice());
    let lan = str_field(j, lank.as_slice());
    let lan_doc = str_field(j, landock.as_slice());
    let su = str_field(j, suk.as_slice());
    let k = u64_field(j, kk.as_slice());
    match (id, lan, lan_doc, su, k) {
        (Some(id), Some(lan), Some(lan_doc), Some(su), Some(k)) => {
            if k <= 255 {
                Some(SubtitleInfo { id, lan, lan_doc, subtitle_url: su, kind: k as u8 })
            } else {
                None
            }
        },
        _ => None,
    }
}

/// Collect the elements that read as track metadata, in order.
#[verifier::rlimit(100)]
#[verifier::spinoff_prover]
fn tracks_from(es: &Vec<Json>) -> (r: Vec<SubtitleInfo>)
    ensures
        track_views(r@) == sp_tracks(elems_view(es@)),
{
    let ghost full = elems_view(es@);
    let mut out: Vec<SubtitleInfo> = Vec::new();
    let mut i: usize = 0;
    proof {
        assert(full.skip(0) =~= full);
        assert(track_views(out@) =~= Seq::<SubtitleInfoV>::empty());
    }
    while i < es.len()
        invariant
            0 <= i <= es@.len(),
            full == elems_view(es@),
            full.len() == es@.len(),
            sp_tracks(full) == track_views(out@) + sp_tracks(full.skip(i as int)),
        decreases es@.len() - i,
    {
        let ghost prev = out@;
        proof {
            assert(full.skip(i as int)[0] == full[i as int]);
            assert(full.skip(i as int).drop_first() =~= full.skip(i + 1));
            assert(full[i as int] == es@[i as int]@);
        }
        match track_of(&es[i]) {
            Some(t) => {
                let ghost tv = t@;
                out.push(t);
                proof {
                    assert(track_views(out@) =~= track_views(prev) + seq![tv]);
                    assert((track_views(prev) + seq![tv]) + sp_tracks(full.skip(i + 1)) =~= track_views(
                        prev,
                    ) + (seq![tv] + sp_tracks(full.skip(i + 1))));
                }
            },
            None => {},
        }
        i = i + 1;
    }
    proof {
        assert(full.skip(i as int) =~= Seq::<JsonV>::empty());
        assert(track_views(out@) + sp_tracks(full.skip(i as int)) =~= track_views(out@));
    }
    out
}

/// What the subtitle-list payload decodes to: the envelope is checked, then
/// `data.subtitle.subtitles` must be an array, whose conforming elements are
/// the tracks.
pub open spec fn sp_subtitle_list(s: Seq<u8>) -> Result<Seq<SubtitleInfoV>, ErrV> {
    match sp_envelope(s) {
        Ok(v) => match sp_opt_get(
            sp_opt_get(jv_get(v, data_key()), subtitle_key()),
            subtitles_key(),
        ) {
            Some(JsonV::Arr(es)) => Ok(sp_tracks(es)),
            _ => Err(ErrV::Shape),
        },
        Err(e) => Err(e),
    }
}

/// Decode the subtitle-list payload.
pub fn handle_subtitle_list_result(content: &[u8]) -> (r: Result<
    Vec<SubtitleInfo>,
    LookupError,
>)
    ensures
        r is Ok <==> sp_subtitle_list(content@) is Ok,
        r matches Ok(list) ==> sp_subtitle_list(content@) == Ok::<_, ErrV>(track_views(list@)),
        r matches Err(e) ==> sp_subtitle_list(content@) == Err::<Seq<SubtitleInfoV>, _>(e@),
{
    match decode_envelope(content) {
        Ok(doc) => {
            let dk = data_key_vec();
            let sk = subtitle_key_vec();
            let ssk = subtitles_key_vec();
            let step1 = json_get(&doc, dk.as_slice());
            let step2 = match step1 {
                Some(d) => json_get(d, sk.as_slice()),
                None => None,
            };
            let step3 = match step2 {
                Some(x) => json_get(x, ssk.as_slice()),
                None => None,
            };
            match step3 {
                Some(arr) => match arr {
                    Json::Arr(es) => {
                        proof {
                            lemma_view_arr(*es);
                        }
                        Ok(tracks_from(es))
                    },
                    _ => Err(LookupError::Shape),
                },
                None => Err(LookupError::Shape),
            }
        },
        Err(e) => Err(e),
    }
}

/// One page entry: an object with `cid`, `page` (within `u32`), `part`
/// and `duration`.
pub open spec fn sp_page_of(e: JsonV) -> Option<PageInfoV> {
    if !(e is Obj) {
        None
    } else {
        match (
            sp_u64_field(e, cid_key()),
            sp_u64_field(e, page_key()),
            sp_str_field(e, part_key()),
            sp_u64_field(e, duration_key()),
        ) {
            (Some(cid), Some(p), Some(part), Some(duration)) => if p <= u32::MAX {
                Some(PageInfoV { cid, page: p as u32, part: decode_utf8(part), duration })
            } else {
                None
            },
            _ => None,
        }
    }
}

/// All page entries of an array, or nothing if any element does not conform.
pub open spec fn sp_pages_all(es: Seq<JsonV>) -> Option<Seq<PageInfoV>>
    decreases es.len(),
{
    if es.len() == 0 {
        Some(Seq::empty())
    } else {
        match (sp_page_of(es[0]), sp_pages_all(es.drop_first())) {
            (Some(p), Some(rest)) => Some(seq![p] + rest),
            _ => None,
        }
    }
}

/// The views of a page list.
pub open spec fn page_views(s: Seq<PageInfo>) -> Seq<PageInfoV> {
    Seq::new(s.len(), |i: int| s[i]@)
}

/// Read one page entry.
fn page_of(j: &Json) -> (r: Option<PageInfo>)
    ensures
        r is Some <==> sp_page_of(j@) is Some,
        r matches Some(p) ==> sp_page_of(j@) == Some(p@),
{
    if !exec_is_obj(j) {
        return None;
    }
    let cidk = cid_key_vec();
    let pagek = page_key_vec();
    let partk = part_key_vec();
    let durk = duration_key_vec();
    let cid = u64_field(j, cidk.as_slice());
    let p = u64_field(j, pagek.as_slice());
    let part = str_field(j, partk.as_slice());
    let duration = u64_field(j, durk.as_slice());
    match (cid, p, part, duration) {
        (Some(cid), Some(p), Some(part), Some(duration)) => {
            if p <= u32::MAX as u64 {
                Some(PageInfo { cid, page: p as u32, part, duration })
            } else {
                None
            }
        },
        _ => None,
    }
}

/// What the page-list payload decodes to: the envelope is checked, then
/// `data` must be an array whose every element is a page entry.
pub open spec fn sp_page_list(s: Seq<u8>) -> Result<Seq<PageInfoV>, ErrV> {
    match sp_envelope(s) {
        Ok(v) => match jv_get(v, data_key()) {
            Some(JsonV::Arr(es)) => match sp_pages_all(es) {
                Some(ps) => Ok(ps),
                None => Err(ErrV::Shape),
            },
            _ => Err(ErrV::Shape),
        },
        Err(e) => Err(e),
    }
}

/// Decode the page-list payload.
pub fn parse_page_list(content: &[u8]) -> (r: Result<Vec<PageInfo>, LookupError>)
    ensures
        r is Ok <==> sp_page_list(content@) is Ok,
        r matches Ok(list) ==> sp_page_list(content@) == Ok::<_, ErrV>(page_views(list@)),
        r matches Err(e) ==> sp_page_list(content@) == Err::<Seq<PageInfoV>, _>(e@),
{
    match decode_envelope(content) {
        Ok(doc) => {
            let dk = data_key_vec();
            match json_get(&doc, dk.as_slice()) {
                Some(arr) => match arr {
                    Json::Arr(es) => {
                        proof {
                            lemma_view_arr(*es);
                        }
                        match pages_from(es) {
                            Some(list) => Ok(list),
                            None => Err(LookupError::Shape),
                        }
                    },
                    _ => Err(LookupError::Shape),
                },
                None => Err(LookupError::Shape),
            }
        },
        Err(e) => Err(e),
    }
}

/// Collect all page entries, or nothing if any element does not conform.
#[verifier::rlimit(60)]
fn pages_from(es: &Vec<Json>) -> (r: Option<Vec<PageInfo>>)
    ensures
        r is Some <==> sp_pages_all(elems_view(es@)) is Some,
        r matches Some(list) ==> sp_pages_all(elems_view(es@)) == Some(page_views(list@)),
{
    let ghost full = elems_view(es@);
    let mut out: Vec<PageInfo> = Vec::new();
    let mut i: usize = 0;
    proof {
        assert(full.skip(0) =~= full);
        assert(page_views(out@) =~= Seq::<PageInfoV>::empty());
    }
    while i < es.len()
        invariant
            0 <= i <= es@.len(),
            full == elems_view(es@),
            full.len() == es@.len(),
            sp_pages_all(full) is Some <==> sp_pages_all(full.skip(i as int)) is Some,
            sp_pages_all(full) matches Some(all) ==> sp_pages_all(full.skip(i as int)) matches Some(
                rest,
            ) && all == page_views(out@) + rest,
        decreases es@.len() - i,
    {
        let ghost prev = out@;
        proof {
            assert(full.skip(i as int)[0] == full[i as int]);
            assert(full.skip(i as int).drop_first() =~= full.skip(i + 1));
            assert(full[i as int] == es@[i as int]@);
        }
        match page_of(&es[i]) {
            Some(p) => {
                let ghost pv = p@;
                out.push(p);
                proof {
                    assert(page_views(out@) =~= page_views(prev) + seq![pv]);
                    if sp_pages_all(full) matches Some(all) {
                        let rest = sp_pages_all(full.skip(i as int))->0;
                        let rest2 = sp_pages_all(full.skip(i + 1))->0;
                        assert(rest =~= seq![pv] + rest2);
                        assert((page_views(prev) + seq![pv]) + rest2 =~= page_views(prev) + (
                        seq![pv] + rest2));
                    }
                }
            },
            None => {
                proof {
                    assert(sp_pages_all(full.skip(i as int)) is None);
                }
                return None;
            },
        }
        i = i + 1;
    }
    proof {
        assert(full.skip(i as int) =~= Seq::<JsonV>::empty());
        assert(page_views(out@) + Seq::<PageInfoV>::empty() =~= page_views(out@));
    }
    Some(out)
}

/// An optional string field: absent or null reads as nothing there, a string
/// reads as its text, and any other shape does not conform.
pub open spec fn sp_opt_str_field(e: JsonV, key: Seq<u8>) -> Option<Option<Seq<char>>> {
    match jv_get(e, key) {
        None => Some(None),
        Some(JsonV::Null) => Some(None),
        Some(_) => match sp_str_field(e, key) {
            Some(b) => Some(Some(decode_utf8(b))),
            None => None,
        },
    }
}

/// One episode entry: an object with required `id`, `aid`, `cid` and
/// optional `title`, `long_title`.
pub open spec fn sp_episode_of(e: JsonV) -> Option<EpisodesV> {
    if !(e is Obj) {
        None
    } else {
        match (
            sp_u64_field(e, id_key()),
            sp_u64_field(e, aid_key()),
            sp_u64_field(e, cid_key()),
            sp_opt_str_field(e, title_key()),
            sp_opt_str_field(e, long_title_key()),
        ) {
            (Some(id), Some(aid), Some(cid), Some(title), Some(long_title)) => Some(
                EpisodesV { id, aid, cid, title, long_title },
            ),
            _ => None,
        }
    }
}

/// All episode entries of an array, or nothing if any element does not
/// conform.
pub open spec fn sp_episodes_all(es: Seq<JsonV>) -> Option<Seq<EpisodesV>>
    decreases es.len(),
{
    if es.len() == 0 {
        Some(Seq::empty())
    } else {
        match (sp_episode_of(es[0]), sp_episodes_all(es.drop_first())) {
            (Some(p), Some(rest)) => Some(seq![p] + rest),
            _ => None,
        }
    }
}

/// The views of an episode list.
pub open spec fn episode_views(s: Seq<Episodes>) -> Seq<EpisodesV> {
    Seq::new(s.len(), |i: int| s[i]@)
}

/// Read an optional string field.
fn opt_str_field(e: &Json, key: &[u8]) -> (r: Option<Option<String>>)
    ensures
        r is Some <==> sp_opt_str_field(e@, key@) is Some,
        r matches Some(o) ==> sp_opt_str_field(e@, key@) matches Some(so) && (o is Some <==> so is Some)
            && (o matches Some(s) ==> so == Some(s@)),
{
    match json_get(e, key) {
        None => Some(None),
        Some(f) => match f {
            Json::Null => Some(None),
            _ => match str_field(e, key) {
                Some(s) => Some(Some(s)),
                None => None,
            },
        },
    }
}

/// Read one episode entry.
fn episode_of(j: &Json) -> (r: Option<Episodes>)
    ensures
        r is Some <==> sp_episode_of(j@) is Some,
        r matches Some(p) ==> sp_episode_of(j@) == Some(p@),
{
    if !exec_is_obj(j) {
        return None;
    }
    let idk = id_key_vec();
    let aidk = aid_key_vec();
    let cidk = cid_key_vec();
    let titlek = title_key_vec();
    let ltk = long_title_key_vec();
    let id = u64_field(j, idk.as_slice());
    let aid = u64_field(j, aidk.as_slice());
    let cid = u64_field(j, cidk.as_slice());
    let title = opt_str_field(j, titlek.as_slice());
    let long_title = opt_str_field(j, ltk.as_slice());
    match (id, aid, cid, title, long_title) {
        (Some(id), Some(aid), Some(cid), Some(title), Some(long_title)) => Some(
            Episodes { id, aid, cid, title, long_title },
        ),
        _ => None,
    }
}

/// What the season-episodes payload decodes to: the envelope is checked,
/// `result.main_section` must be an object, and its `episodes` member an
/// array whose every element is an episode entry.
pub open spec fn sp_season_episodes(s: Seq<u8>) -> Result<Seq<EpisodesV>, ErrV> {
    match sp_envelope(s) {
        Ok(v) => match sp_opt_get(jv_get(v, result_key()), main_section_key()) {
            Some(ms) => if !(ms is Obj) {
                Err(ErrV::Shape)
            } else {
                match jv_get(ms, episodes_key()) {
                    Some(JsonV::Arr(es)) => match sp_episodes_all(es) {
                        Some(eps) => Ok(eps),
                        None => Err(ErrV::Shape),
                    },
                    _ => Err(ErrV::Shape),
                }
            },
            None => Err(ErrV::Shape),
        },
        Err(e) => Err(e),
    }
}

/// Decode the season-episodes payload.
pub fn parse_season_episodes(content: &[u8]) -> (r: Result<Vec<Episodes>, LookupError>)
    ensures
        r is Ok <==> sp_season_episodes(content@) is Ok,
        r matches Ok(list) ==> sp_season_episodes(content@) == Ok::<_, ErrV>(episode_views(list@)),
        r matches Err(e) ==> sp_season_episodes(content@) == Err::<Seq<EpisodesV>, _>(e@),
{
    match decode_envelope(content) {
        Ok(doc) => {
            let rk = result_key_vec();
            let msk = main_section_key_vec();
            let ek = episodes_key_vec();
            let step1 = json_get(&doc, rk.as_slice());
            let step2 = match step1 {
                Some(x) => json_get(x, msk.as_slice()),
                None => None,
            };
            match step2 {
                Some(ms) => {
                    if !exec_is_obj(ms) {
                        return Err(LookupError::Shape);
                    }
                    match json_get(ms, ek.as_slice()) {
                        Some(arr) => match arr {
                            Json::Arr(es) => {
                                proof {
                                    lemma_view_arr(*es);
                                }
                                match episodes_from(es) {
                                    Some(list) => Ok(list),
                                    None => Err(LookupError::Shape),
                                }
                            },
                            _ => Err(LookupError::Shape),
                        },
                        None => Err(LookupError::Shape),
                    }
                },
                None => Err(LookupError::Shape),
            }
        },
        Err(e) => Err(e),
    }
}

/// Collect all episode entries, or nothing if any element does not conform.
#[verifier::rlimit(60)]
fn episodes_from(es: &Vec<Json>) -> (r: Option<Vec<Episodes>>)
    ensures
        r is Some <==> sp_episodes_all(elems_view(es@)) is Some,
        r matches Some(list) ==> sp_episodes_all(elems_view(es@)) == Some(episode_views(list@)),
{
    let ghost full = elems_view(es@);
    let mut out: Vec<Episodes> = Vec::new();
    let mut i: usize = 0;
    proof {
        assert(full.skip(0) =~= full);
        assert(episode_views(out@) =~= Seq::<EpisodesV>::empty());
    }
    while i < es.len()
        invariant
            0 <= i <= es@.len(),
            full == elems_view(es@),
            full.len() == es@.len(),
            sp_episodes_all(full) is Some <==> sp_episodes_all(full.skip(i as int)) is Some,
            sp_episodes_all(full) matches Some(all) ==> sp_episodes_all(
                full.skip(i as int),
            ) matches Some(rest) && all == episode_views(out@) + rest,
        decreases es@.len() - i,
    {
        let ghost prev = out@;
        proof {
            assert(full.skip(i as int)[0] == full[i as int]);
            assert(full.skip(i as int).drop_first() =~= full.skip(i + 1));
            assert(full[i as int] == es@[i as int]@);
        }
        match episode_of(&es[i]) {
            Some(p) => {
                let ghost pv = p@;
                out.push(p);
                proof {
                    assert(episode_views(out@) =~= episode_views(prev) + seq![pv]);
                    if sp_episodes_all(full) matches Some(all) {
                        let rest = sp_episodes_all(full.skip(i as int))->0;
                        let rest2 = sp_episodes_all(full.skip(i + 1))->0;
                        assert(rest =~= seq![pv] + rest2);
                        assert((episode_views(prev) + seq![pv]) + rest2 =~= episode_views(prev) + (
                        seq![pv] + rest2));
                    }
                }
            },
            None => {
                proof {
                    assert(sp_episodes_all(full.skip(i as int)) is None);
                }
                return None;
            },
        }
        i = i + 1;
    }
    proof {
        assert(full.skip(i as int) =~= Seq::<JsonV>::empty());
        assert(episode_views(out@) + Seq::<EpisodesV>::empty() =~= episode_views(out@));
    }
    Some(out)
}

} // verus!
