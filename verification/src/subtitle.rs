//! Caption tracks: the line and track types, and the parsing of a
//! subtitle track's JSON body.
//!
//! A line's start and end times are kept as the exact decimal text they were
//! read from, so nothing is rounded; conversion to a number happens at the
//! output edge, outside this library.

use vstd::prelude::*;
use vstd::utf8::{encode_utf8, decode_utf8, valid_utf8};
use crate::json::{Json, JsonV, sp_document, parse_document, elems_view, lemma_view_arr};
use crate::jsonread::{jv_get, json_get, sp_str_field, str_field};
use crate::errors::{LookupError, ErrV};
use crate::textops::bytes_to_string;

verus! {

broadcast use vstd::utf8::encode_utf8_decode_utf8;

/// The `body` key.
pub open spec fn body_key() -> Seq<u8> {
    seq![98u8, 111, 100, 121]
}

fn body_key_vec() -> (v: Vec<u8>)
    ensures
        v@ == body_key(),
{
    let v: Vec<u8> = vec![98u8, 111, 100, 121];
    proof {
        assert(v@ =~= body_key());
    }
    v
}

/// The `content` key.
pub open spec fn content_key() -> Seq<u8> {
    seq![99u8, 111, 110, 116, 101, 110, 116]
}

fn content_key_vec() -> (v: Vec<u8>)
    ensures
        v@ == content_key(),
{
    let v: Vec<u8> = vec![99u8, 111, 110, 116, 101, 110, 116];
    proof {
        assert(v@ =~= content_key());
    }
    v
}

/// The `from` key.
pub open spec fn from_time_key() -> Seq<u8> {
    seq![102u8, 114, 111, 109]
}

fn from_time_key_vec() -> (v: Vec<u8>)
    ensures
        v@ == from_time_key(),
{
    let v: Vec<u8> = vec![102u8, 114, 111, 109];
    proof {
        assert(v@ =~= from_time_key());
    }
    v
}

/// The `to` key.
pub open spec fn to_time_key() -> Seq<u8> {
    seq![116u8, 111]
}

fn to_time_key_vec() -> (v: Vec<u8>)
    ensures
        v@ == to_time_key(),
{
    let v: Vec<u8> = vec![116u8, 111];
    proof {
        assert(v@ =~= to_time_key());
    }
    v
}

/// One caption entry: its text, and its start and end times in seconds as
/// their exact decimal source text.
#[derive(Debug)]
pub struct Line {
    pub content: String,
    pub start: String,
    pub end: String,
}

/// The mathematical shape of a line: the text as characters, the times as
/// the raw bytes of their decimal source text.
pub struct LineV {
    pub content: Seq<char>,
    pub start: Seq<u8>,
    pub end: Seq<u8>,
}

impl View for Line {
    type V = LineV;

    open spec fn view(&self) -> LineV {
        LineV {
            content: self.content@,
            start: encode_utf8(self.start@),
            end: encode_utf8(self.end@),
        }
    }
}

/// A resolved, named subtitle track ready for formatting.
#[derive(Debug)]
pub struct CcSubtitle {
    pub name: String,
    pub lan: Option<String>,
    pub lan_doc: Option<String>,
    pub lines: Vec<Line>,
}

/// The mathematical shape of a track.
pub struct CcSubtitleV {
    pub name: Seq<char>,
    pub lan: Option<Seq<char>>,
    pub lan_doc: Option<Seq<char>>,
    pub lines: Seq<LineV>,
}

/// The views of a line list.
pub open spec fn line_views(s: Seq<Line>) -> Seq<LineV> {
    Seq::new(s.len(), |i: int| s[i]@)
}

impl View for CcSubtitle {
    type V = CcSubtitleV;

    open spec fn view(&self) -> CcSubtitleV {
        CcSubtitleV {
            name: self.name@,
            lan: match self.lan {
                Some(l) => Some(l@),
                None => None,
            },
            lan_doc: match self.lan_doc {
                Some(l) => Some(l@),
                None => None,
            },
            lines: line_views(self.lines@),
        }
    }
}

/// A number field of `o`, as its raw text (which must be UTF-8, as number
/// text always is).
pub open spec fn sp_num_field(o: JsonV, key: Seq<u8>) -> Option<Seq<u8>> {
    match jv_get(o, key) {
        Some(JsonV::Num(raw)) => if valid_utf8(raw) {
            Some(raw)
        } else {
            None
        },
        _ => None,
    }
}

/// Read a number field of `o` as its raw text.
fn num_field(o: &Json, key: &[u8]) -> (r: Option<String>)
    ensures
        r is Some <==> sp_num_field(o@, key@) is Some,
        r matches Some(s) ==> sp_num_field(o@, key@) == Some(encode_utf8(s@)),
{
    match json_get(o, key) {
        Some(f) => match f {
            Json::Num(raw) => bytes_to_string(vstd::slice::slice_to_vec(raw.as_slice())),
            _ => None,
        },
        _ => None,
    }
}

/// One caption line, read from one element of the `body` array: the element
/// must carry a string `content` and numbers `from` and `to`.
pub open spec fn sp_line_of(e: JsonV) -> Option<LineV> {
    match (
        sp_str_field(e, content_key()),
        sp_num_field(e, from_time_key()),
        sp_num_field(e, to_time_key()),
    ) {
        (Some(c), Some(f), Some(t)) => Some(LineV { content: decode_utf8(c), start: f, end: t }),
        _ => None,
    }
}

/// All caption lines of an array, or nothing if any element does not
/// conform.
pub open spec fn sp_lines_all(es: Seq<JsonV>) -> Option<Seq<LineV>>
    decreases es.len(),
{
    if es.len() == 0 {
        Some(Seq::empty())
    } else {
        match (sp_line_of(es[0]), sp_lines_all(es.drop_first())) {
            (Some(l), Some(rest)) => Some(seq![l] + rest),
            _ => None,
        }
    }
}

/// What a subtitle track's body decodes to: a complete JSON document whose
/// `body` member is an array of caption lines.
pub open spec fn sp_subtitle_body(s: Seq<u8>) -> Option<Seq<LineV>> {
    match sp_document(s) {
        Some(v) => match jv_get(v, body_key()) {
            Some(JsonV::Arr(es)) => sp_lines_all(es),
            _ => None,
        },
        None => None,
    }
}

/// Read one caption line.
fn line_of(j: &Json) -> (r: Option<Line>)
    ensures
        r is Some <==> sp_line_of(j@) is Some,
        r matches Some(l) ==> sp_line_of(j@) == Some(l@),
{
    let ck = content_key_vec();
    let fk = from_time_key_vec();
    let tk = to_time_key_vec();
    let content = str_field(j, ck.as_slice());
    let start = num_field(j, fk.as_slice());
    let end = num_field(j, tk.as_slice());
    match (content, start, end) {
        (Some(content), Some(start), Some(end)) => Some(Line { content, start, end }),
        _ => None,
    }
}

/// Collect all caption lines, or nothing if any element does not conform.
#[verifier::rlimit(60)]
fn lines_from(es: &Vec<Json>) -> (r: Option<Vec<Line>>)
    ensures
        r is Some <==> sp_lines_all(elems_view(es@)) is Some,
        r matches Some(list) ==> sp_lines_all(elems_view(es@)) == Some(line_views(list@)),
{
    let ghost full = elems_view(es@);
    let mut out: Vec<Line> = Vec::new();
    let mut i: usize = 0;
    proof {
        assert(full.skip(0) =~= full);
        assert(line_views(out@) =~= Seq::<LineV>::empty());
    }
    while i < es.len()
        invariant
            0 <= i <= es@.len(),
            full == elems_view(es@),
            full.len() == es@.len(),
            sp_lines_all(full) is Some <==> sp_lines_all(full.skip(i as int)) is Some,
            sp_lines_all(full) matches Some(all) ==> sp_lines_all(full.skip(i as int)) matches Some(
                rest,
            ) && all == line_views(out@) + rest,
        decreases es@.len() - i,
    {
        let ghost prev = out@;
        proof {
            assert(full.skip(i as int)[0] == full[i as int]);
            assert(full.skip(i as int).drop_first() =~= full.skip(i + 1));
            assert(full[i as int] == es@[i as int]@);
        }
        match line_of(&es[i]) {
            Some(l) => {
                let ghost lv = l@;
                out.push(l);
                proof {
                    assert(line_views(out@) =~= line_views(prev) + seq![lv]);
                    if sp_lines_all(full) matches Some(all) {
                        let rest = sp_lines_all(full.skip(i as int))->0;
                        let rest2 = sp_lines_all(full.skip(i + 1))->0;
                        assert(rest =~= seq![lv] + rest2);
                        assert((line_views(prev) + seq![lv]) + rest2 =~= line_views(prev) + (
                        seq![lv] + rest2));
                    }
                }
            },
            None => {
                proof {
                    assert(sp_lines_all(full.skip(i as int)) is None);
                }
                return None;
            },
        }
        i = i + 1;
    }
    proof {
        assert(full.skip(i as int) =~= Seq::<JsonV>::empty());
        assert(line_views(out@) + Seq::<LineV>::empty() =~= line_views(out@));
    }
    Some(out)
}

/// Parse a subtitle track's JSON body into a track named `name`, with no
/// language metadata attached yet.
pub fn json_to_subtitle(name: &str, content: &[u8]) -> (r: Result<CcSubtitle, LookupError>)
    ensures
        r is Ok <==> sp_subtitle_body(content@) is Some,
        r matches Ok(cc) ==> cc@.name == name@ && cc@.lan is None && cc@.lan_doc is None
            && sp_subtitle_body(content@) == Some(cc@.lines),
        r matches Err(e) ==> e == LookupError::Shape,
{
    match parse_document(content) {
        Some(doc) => {
            let bk = body_key_vec();
            match json_get(&doc, bk.as_slice()) {
                Some(arr) => match arr {
                    Json::Arr(es) => {
                        proof {
                            lemma_view_arr(*es);
                        }
                        match lines_from(es) {
                            Some(lines) => Ok(
                                CcSubtitle {
                                    name: name.to_owned(),
                                    lan: None,
                                    lan_doc: None,
                                    lines,
                                },
                            ),
                            None => Err(LookupError::Shape),
                        }
                    },
                    _ => Err(LookupError::Shape),
                },
                None => Err(LookupError::Shape),
            }
        },
        None => Err(LookupError::Shape),
    }
}

impl CcSubtitle {
    /// Rename the track by caller policy: to its language tag, or, when
    /// `doc` is set, to the language's display name; a track without the
    /// chosen field keeps its name.
    pub fn determine_name(&mut self, doc: bool)
        ensures
            final(self).lan == old(self).lan,
            final(self).lan_doc == old(self).lan_doc,
            final(self).lines == old(self).lines,
            ({
                let chosen = if doc {
                    old(self).lan_doc
                } else {
                    old(self).lan
                };
                match chosen {
                    Some(l) => final(self).name == l,
                    None => final(self).name == old(self).name,
                }
            }),
    {
        if doc {
            match &self.lan_doc {
                Some(l) => {
                    self.name = l.clone();
                },
                None => {},
            }
        } else {
            match &self.lan {
                Some(l) => {
                    self.name = l.clone();
                },
                None => {},
            }
        }
    }
}

} // verus!
