//! Multi-source aggregation of subtitle tracks with partial-failure
//! tolerance, and the narrowing of page/episode lists by selectors.
//!
//! The aggregation is a pure fold over the track metadata and the bytes
//! fetched for each track: a track whose URL the url crate refuses is
//! skipped, a track whose body could not be fetched or parsed is dropped and
//! reported on the failure channel, and every track that parses is returned,
//! in the metadata's order.

use vstd::prelude::*;
use crate::payload::{SubtitleInfo, SubtitleInfoV, PageInfo, track_views};
use crate::subtitle::{CcSubtitle, CcSubtitleV, json_to_subtitle, sp_subtitle_body};
use crate::selector::{Page, spec_any_match, any_match};
use crate::web::{is_parsable_url, last_path_segment, url_is_valid, url_file_name};
use vstd::string::StrSliceExecFns;
use vstd::string::StringExecFns;

verus! {

/// One page of a video together with its resolved subtitle tracks.
pub struct VideoPage {
    pub p: u32,
    pub subtitles: Vec<CcSubtitle>,
}

/// The characters `https:`, prefixed to a scheme-less track URL.
pub open spec fn https_prefix_chars() -> Seq<char> {
    seq!['h', 't', 't', 'p', 's', ':']
}

/// Whether the text begins with `http`.
pub open spec fn sp_has_http_prefix(u: Seq<char>) -> bool {
    u.len() >= 4 && u[0] == 'h' && u[1] == 't' && u[2] == 't' && u[3] == 'p'
}

/// The absolute form of a track URL: itself when it begins with `http`,
/// otherwise with `https:` prefixed.
pub open spec fn sp_effective_url(u: Seq<char>) -> Seq<char> {
    if sp_has_http_prefix(u) {
        u
    } else {
        https_prefix_chars() + u
    }
}

impl SubtitleInfo {
    /// The absolute URL of this track's body, when the url crate accepts it.
    pub fn url(&self) -> (r: Option<String>)
        ensures
            r is Some <==> is_parsable_url(sp_effective_url(self.subtitle_url@)),
            r matches Some(u) ==> u@ == sp_effective_url(self.subtitle_url@),
    {
        let s = self.subtitle_url.as_str();
        let eff: String = if s.unicode_len() >= 4 && s.get_char(0) == 'h' && s.get_char(1) == 't'
            && s.get_char(2) == 't' && s.get_char(3) == 'p' {
            self.subtitle_url.clone()
        } else {
            proof {
                reveal_strlit("https:");
                assert(("https:")@ =~= https_prefix_chars());
            }
            String::from_str("https:").concat(s)
        };
        proof {
            assert(eff@ == sp_effective_url(self.subtitle_url@));
        }
        if url_is_valid(eff.as_str()) {
            Some(eff)
        } else {
            None
        }
    }
}

/// The position of the last `.` in the text.
pub open spec fn last_dot(s: Seq<char>) -> Option<int>
    decreases s.len(),
{
    if s.len() == 0 {
        None
    } else if s.last() == '.' {
        Some(s.len() - 1)
    } else {
        last_dot(s.drop_last())
    }
}

/// The text up to its last `.`: a file name with its extension stripped.
pub open spec fn sp_strip_ext(s: Seq<char>) -> Seq<char> {
    match last_dot(s) {
        Some(i) => s.take(i),
        None => s,
    }
}

proof fn lemma_last_dot_char(s: Seq<char>, b: int)
    requires
        0 <= b <= s.len(),
        forall|k: int| b <= k < s.len() ==> s[k] != '.',
        b == 0 || s[b - 1] == '.',
    ensures
        b > 0 ==> last_dot(s) == Some(b - 1),
        b == 0 ==> last_dot(s) is None,
    decreases s.len(),
{
    if s.len() == 0 {
    } else if s.last() == '.' {
        assert(b == s.len());
    } else {
        assert(b < s.len());
        lemma_last_dot_char(s.drop_last(), b);
    }
}

/// Strip the extension off a file name.
fn strip_ext(seg: &str) -> (r: String)
    ensures
        r@ == sp_strip_ext(seg@),
{
    let n = seg.unicode_len();
    let mut i: usize = n;
    while i > 0
        invariant
            0 <= i <= n,
            n == seg@.len(),
            forall|k: int| i <= k < n ==> seg@[k] != '.',
        decreases i,
    {
        if seg.get_char(i - 1) == '.' {
            proof {
                lemma_last_dot_char(seg@, i as int);
            }
            let pre = seg.substring_char(0, i - 1);
            return pre.to_owned();
        }
        i = i - 1;
    }
    proof {
        lemma_last_dot_char(seg@, 0);
    }
    seg.to_owned()
}

/// The file name a track is saved under, from its URL: the last path
/// segment, extension stripped.
pub fn name_from_url(u: &str) -> (r: Option<String>)
    ensures
        r is Some <==> (is_parsable_url(u@) && last_path_segment(u@) is Some),
        r matches Some(nm) ==> last_path_segment(u@) matches Some(seg) && nm@ == sp_strip_ext(seg),
{
    match url_file_name(u) {
        Some(seg) => Some(strip_ext(seg.as_str())),
        None => None,
    }
}

/// The report for one dropped track: which language it carried, and whether
/// the fetch (rather than the parse) failed.
#[derive(Debug)]
pub struct TrackFailure {
    pub lan_doc: String,
    pub fetch_failed: bool,
}

/// The mathematical shape of a dropped track's report.
pub struct TrackFailureV {
    pub lan_doc: Seq<char>,
    pub fetch_failed: bool,
}

impl View for TrackFailure {
    type V = TrackFailureV;

    open spec fn view(&self) -> TrackFailureV {
        TrackFailureV { lan_doc: self.lan_doc@, fetch_failed: self.fetch_failed }
    }
}

/// What becomes of one track.
pub enum TrackStepV {
    Skipped,
    Failed(TrackFailureV),
    Loaded(CcSubtitleV),
}

/// One track's fate: skipped when its URL is refused; a fetch failure when
/// no body came back; a parse failure when the body does not read as a
/// subtitle track; otherwise a track named by its URL's file name, carrying
/// the metadata's language fields.
pub open spec fn sp_track_step(info: SubtitleInfoV, body: Option<Seq<u8>>) -> TrackStepV {
    let u = sp_effective_url(info.subtitle_url);
    if !is_parsable_url(u) {
        TrackStepV::Skipped
    } else {
        match body {
            None => TrackStepV::Failed(
                TrackFailureV { lan_doc: info.lan_doc, fetch_failed: true },
            ),
            Some(b) => match last_path_segment(u) {
                Some(seg) => match sp_subtitle_body(b) {
                    Some(lines) => TrackStepV::Loaded(
                        CcSubtitleV {
                            name: sp_strip_ext(seg),
                            lan: Some(info.lan),
                            lan_doc: Some(info.lan_doc),
                            lines,
                        },
                    ),
                    None => TrackStepV::Failed(
                        TrackFailureV { lan_doc: info.lan_doc, fetch_failed: false },
                    ),
                },
                None => TrackStepV::Failed(
                    TrackFailureV { lan_doc: info.lan_doc, fetch_failed: false },
                ),
            },
        }
    }
}

/// The aggregation fold: the loaded tracks and the failure reports, both in
/// the metadata's order.
pub open spec fn sp_aggregate(infos: Seq<SubtitleInfoV>, bodies: Seq<Option<Seq<u8>>>) -> (
    Seq<CcSubtitleV>,
    Seq<TrackFailureV>,
)
    decreases infos.len(),
{
    if infos.len() == 0 {
        (Seq::empty(), Seq::empty())
    } else {
        let rest = sp_aggregate(infos.drop_first(), bodies.drop_first());
        match sp_track_step(infos[0], bodies[0]) {
            TrackStepV::Skipped => rest,
            TrackStepV::Failed(f) => (rest.0, seq![f] + rest.1),
            TrackStepV::Loaded(c) => (seq![c] + rest.0, rest.1),
        }
    }
}

/// The views of a track list.
pub open spec fn cc_views(s: Seq<CcSubtitle>) -> Seq<CcSubtitleV> {
    Seq::new(s.len(), |i: int| s[i]@)
}

/// The views of a failure list.
pub open spec fn failure_views(s: Seq<TrackFailure>) -> Seq<TrackFailureV> {
    Seq::new(s.len(), |i: int| s[i]@)
}

/// The views of the fetched bodies.
pub open spec fn body_views(s: Seq<Option<Vec<u8>>>) -> Seq<Option<Seq<u8>>> {
    Seq::new(
        s.len(),
        |i: int|
            match s[i] {
                Some(v) => Some(v@),
                None => None,
            },
    )
}

/// Aggregate the subtitle tracks of one page or episode: `bodies[i]` holds
/// what was fetched from track `i`'s URL (nothing on a fetch failure).
/// Tracks that fail are dropped and reported, never aborting the whole call.
#[verifier::rlimit(100)]
#[verifier::spinoff_prover]
pub fn aggregate_tracks(infos: &Vec<SubtitleInfo>, bodies: &Vec<Option<Vec<u8>>>) -> (r: (
    Vec<CcSubtitle>,
    Vec<TrackFailure>,
))
    requires
        infos@.len() == bodies@.len(),
    ensures
        cc_views(r.0@) == sp_aggregate(track_views(infos@), body_views(bodies@)).0,
        failure_views(r.1@) == sp_aggregate(track_views(infos@), body_views(bodies@)).1,
{
    let ghost fi = track_views(infos@);
    let ghost fb = body_views(bodies@);
    let mut subs: Vec<CcSubtitle> = Vec::new();
    let mut fails: Vec<TrackFailure> = Vec::new();
    let mut i: usize = 0;
    proof {
        assert(fi.skip(0) =~= fi);
        assert(fb.skip(0) =~= fb);
        assert(cc_views(subs@) =~= Seq::<CcSubtitleV>::empty());
        assert(failure_views(fails@) =~= Seq::<TrackFailureV>::empty());
    }
    while i < infos.len()
        invariant
            0 <= i <= infos@.len(),
            infos@.len() == bodies@.len(),
            fi == track_views(infos@),
            fb == body_views(bodies@),
            fi.len() == infos@.len(),
            fb.len() == bodies@.len(),
            sp_aggregate(fi, fb).0 == cc_views(subs@) + sp_aggregate(
                fi.skip(i as int),
                fb.skip(i as int),
            ).0,
            sp_aggregate(fi, fb).1 == failure_views(fails@) + sp_aggregate(
                fi.skip(i as int),
                fb.skip(i as int),
            ).1,
        decreases infos@.len() - i,
    {
        let ghost prev_subs = subs@;
        let ghost prev_fails = fails@;
        proof {
            assert(fi.skip(i as int)[0] == fi[i as int]);
            assert(fb.skip(i as int)[0] == fb[i as int]);
            assert(fi.skip(i as int).drop_first() =~= fi.skip(i + 1));
            assert(fb.skip(i as int).drop_first() =~= fb.skip(i + 1));
            assert(fi[i as int] == infos@[i as int]@);
        }
        let info = &infos[i];
        let ghost step = sp_track_step(fi[i as int], fb[i as int]);
        match info.url() {
            None => {
                proof {
                    assert(step is Skipped);
                }
            },
            Some(u) => {
                match &bodies[i] {
                    None => {
                        fails.push(
                            TrackFailure { lan_doc: info.lan_doc.clone(), fetch_failed: true },
                        );
                        proof {
                            let fv = TrackFailureV {
                                lan_doc: infos@[i as int]@.lan_doc,
                                fetch_failed: true,
                            };
                            assert(step == TrackStepV::Failed(fv));
                            assert(failure_views(fails@) =~= failure_views(prev_fails) + seq![fv]);
                            assert((failure_views(prev_fails) + seq![fv]) + sp_aggregate(
                                fi.skip(i + 1),
                                fb.skip(i + 1),
                            ).1 =~= failure_views(prev_fails) + (seq![fv] + sp_aggregate(
                                fi.skip(i + 1),
                                fb.skip(i + 1),
                            ).1));
                        }
                    },
                    Some(b) => {
                        let mut loaded: Option<CcSubtitle> = None;
                        match name_from_url(u.as_str()) {
                            Some(nm) => {
                                match json_to_subtitle(nm.as_str(), b.as_slice()) {
                                    Ok(cc) => {
                                        let mut cc = cc;
                                        cc.lan = Some(info.lan.clone());
                                        cc.lan_doc = Some(info.lan_doc.clone());
                                        loaded = Some(cc);
                                    },
                                    Err(_) => {},
                                }
                            },
                            None => {},
                        }
                        match loaded {
                            Some(cc) => {
                                let ghost cv = cc@;
                                subs.push(cc);
                                proof {
                                    assert(step == TrackStepV::Loaded(cv));
                                    assert(cc_views(subs@) =~= cc_views(prev_subs) + seq![cv]);
                                    assert((cc_views(prev_subs) + seq![cv]) + sp_aggregate(
                                        fi.skip(i + 1),
                                        fb.skip(i + 1),
                                    ).0 =~= cc_views(prev_subs) + (seq![cv] + sp_aggregate(
                                        fi.skip(i + 1),
                                        fb.skip(i + 1),
                                    ).0));
                                }
                            },
                            None => {
                                fails.push(
                                    TrackFailure {
                                        lan_doc: info.lan_doc.clone(),
                                        fetch_failed: false,
                                    },
                                );
                                proof {
                                    let fv = TrackFailureV {
                                        lan_doc: infos@[i as int]@.lan_doc,
                                        fetch_failed: false,
                                    };
                                    assert(step == TrackStepV::Failed(fv));
                                    assert(failure_views(fails@) =~= failure_views(prev_fails)
                                        + seq![fv]);
                                    assert((failure_views(prev_fails) + seq![fv]) + sp_aggregate(
                                        fi.skip(i + 1),
                                        fb.skip(i + 1),
                                    ).1 =~= failure_views(prev_fails) + (seq![fv] + sp_aggregate(
                                        fi.skip(i + 1),
                                        fb.skip(i + 1),
                                    ).1));
                                }
                            },
                        }
                    },
                }
            },
        }
        i = i + 1;
    }
    proof {
        assert(fi.skip(i as int) =~= Seq::<SubtitleInfoV>::empty());
        assert(fb.skip(i as int) =~= Seq::<Option<Seq<u8>>>::empty());
        assert(cc_views(subs@) + Seq::<CcSubtitleV>::empty() =~= cc_views(subs@));
        assert(failure_views(fails@) + Seq::<TrackFailureV>::empty() =~= failure_views(fails@));
    }
    (subs, fails)
}

/// The indices of the pages a selector set keeps, in the server's order
/// (filtering never reorders: the indices come out strictly ascending, and
/// every matching page's index is among them).
pub fn select_page_indices(pages: &Vec<PageInfo>, sels: &Vec<Page>) -> (r: Vec<usize>)
    ensures
        forall|k: int|
            0 <= k < r@.len() ==> (#[trigger] r@[k]) < pages@.len() && spec_any_match(
                sels@,
                pages@[r@[k] as int].page,
            ),
        forall|k1: int, k2: int| 0 <= k1 < k2 < r@.len() ==> r@[k1] < r@[k2],
        forall|j: int|
            0 <= j < pages@.len() && spec_any_match(sels@, (#[trigger] pages@[j]).page)
                ==> r@.contains(j as usize),
{
    let mut out: Vec<usize> = Vec::new();
    let mut i: usize = 0;
    while i < pages.len()
        invariant
            0 <= i <= pages@.len(),
            forall|k: int|
                0 <= k < out@.len() ==> (#[trigger] out@[k]) < i && spec_any_match(
                    sels@,
                    pages@[out@[k] as int].page,
                ),
            forall|k1: int, k2: int| 0 <= k1 < k2 < out@.len() ==> out@[k1] < out@[k2],
            forall|j: int|
                0 <= j < i && spec_any_match(sels@, (#[trigger] pages@[j]).page) ==> out@.contains(
                    j as usize,
                ),
        decreases pages@.len() - i,
    {
        let ghost prev = out@;
        if any_match(sels, &pages[i].page) {
            out.push(i);
            proof {
                assert forall|j: int|
                    0 <= j < i + 1 && spec_any_match(
                        sels@,
                        (#[trigger] pages@[j]).page,
                    ) implies out@.contains(j as usize) by {
                    if j < i {
                        assert(prev.contains(j as usize));
                        let k = choose|k: int| 0 <= k < prev.len() && prev[k] == j as usize;
                        assert(out@[k] == j as usize);
                    } else {
                        assert(out@[out@.len() - 1] == i as usize);
                    }
                }
            }
        } else {
            proof {
                assert forall|j: int|
                    0 <= j < i + 1 && spec_any_match(
                        sels@,
                        (#[trigger] pages@[j]).page,
                    ) implies out@.contains(j as usize) by {
                    assert(j < i);
                    assert(prev.contains(j as usize));
                    let k = choose|k: int| 0 <= k < prev.len() && prev[k] == j as usize;
                    assert(out@[k] == j as usize);
                }
            }
        }
        i = i + 1;
    }
    out
}

/// The 0-based positions among `count` episodes whose 1-based index a
/// selector set keeps, strictly ascending and complete.
pub fn selected_positions(count: usize, sels: &Vec<Page>) -> (r: Vec<usize>)
    requires
        count <= u32::MAX as usize,
    ensures
        forall|k: int|
            0 <= k < r@.len() ==> (#[trigger] r@[k]) < count && spec_any_match(
                sels@,
                (r@[k] + 1) as u32,
            ),
        forall|k1: int, k2: int| 0 <= k1 < k2 < r@.len() ==> r@[k1] < r@[k2],
        forall|j: int|
            0 <= j < count && spec_any_match(sels@, ((j + 1) as u32)) ==> #[trigger] r@.contains(
                j as usize,
            ),
{
    let mut out: Vec<usize> = Vec::new();
    let mut i: usize = 0;
    while i < count
        invariant
            0 <= i <= count,
            count <= u32::MAX as usize,
            forall|k: int|
                0 <= k < out@.len() ==> (#[trigger] out@[k]) < i && spec_any_match(
                    sels@,
                    (out@[k] + 1) as u32,
                ),
            forall|k1: int, k2: int| 0 <= k1 < k2 < out@.len() ==> out@[k1] < out@[k2],
            forall|j: int|
                0 <= j < i && spec_any_match(sels@, ((j + 1) as u32)) ==> #[trigger] out@.contains(
                    j as usize,
                ),
        decreases count - i,
    {
        let ghost prev = out@;
        let p: u32 = (i as u32) + 1;
        if any_match(sels, &p) {
            out.push(i);
            proof {
                assert forall|j: int|
                    0 <= j < i + 1 && spec_any_match(sels@, ((j + 1) as u32)) implies #[trigger] out@.contains(
                    j as usize,
                ) by {
                    if j < i {
                        assert(prev.contains(j as usize));
                        let k = choose|k: int| 0 <= k < prev.len() && prev[k] == j as usize;
                        assert(out@[k] == j as usize);
                    } else {
                        assert(out@[out@.len() - 1] == i as usize);
                    }
                }
            }
        } else {
            proof {
                assert forall|j: int|
                    0 <= j < i + 1 && spec_any_match(sels@, ((j + 1) as u32)) implies #[trigger] out@.contains(
                    j as usize,
                ) by {
                    assert(j < i);
                    assert(prev.contains(j as usize));
                    let k = choose|k: int| 0 <= k < prev.len() && prev[k] == j as usize;
                    assert(out@[k] == j as usize);
                }
            }
        }
        i = i + 1;
    }
    out
}

/// Law: aggregation drops failing tracks and never substitutes for them —
/// the loaded tracks and the failure reports together never outnumber the
/// metadata entries, so the result may only be shorter than what was asked.
pub proof fn lemma_aggregate_drops_never_substitutes(
    infos: Seq<SubtitleInfoV>,
    bodies: Seq<Option<Seq<u8>>>,
)
    ensures
        sp_aggregate(infos, bodies).0.len() + sp_aggregate(infos, bodies).1.len() <= infos.len(),
    decreases infos.len(),
{
    if infos.len() > 0 {
        lemma_aggregate_drops_never_substitutes(infos.drop_first(), bodies.drop_first());
    }
}

} // verus!
