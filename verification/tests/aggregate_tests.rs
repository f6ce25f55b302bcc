use bccdc::payload::SubtitleInfo;
use bccdc::aggregate::{aggregate_tracks, name_from_url, select_page_indices, selected_positions};
use bccdc::payload::PageInfo;
use bccdc::selector::Page;

fn meta(id: u64, lan: &str, lan_doc: &str, url: &str) -> SubtitleInfo {
    SubtitleInfo {
        id,
        lan: String::from(lan),
        lan_doc: String::from(lan_doc),
        subtitle_url: String::from(url),
        kind: 0,
    }
}

fn good_body() -> Vec<u8> {
    b"{\"body\":[{\"content\":\"x\",\"from\":1.5,\"to\":2.5}]}".to_vec()
}

#[test]
fn partial_failure_keeps_the_tracks_that_parse() {
    let infos = vec![
        meta(1, "zh-Hant", "a", "//host/bfs/subtitle/one.json"),
        meta(2, "en", "b", "//host/bfs/subtitle/two.json"),
        meta(3, "ja", "c", "//host/bfs/subtitle/three.json"),
    ];
    let bodies = vec![
        Some(good_body()),
        Some(b"malformed {".to_vec()),
        Some(good_body()),
    ];
    let (subs, fails) = aggregate_tracks(&infos, &bodies);
    assert_eq!(subs.len(), 2);
    assert_eq!(subs[0].name, "one");
    assert_eq!(subs[0].lan.as_deref(), Some("zh-Hant"));
    assert_eq!(subs[0].lan_doc.as_deref(), Some("a"));
    assert_eq!(subs[1].name, "three");
    assert_eq!(subs[1].lan.as_deref(), Some("ja"));
    assert_eq!(fails.len(), 1);
    assert_eq!(fails[0].lan_doc, "b");
    assert!(!fails[0].fetch_failed);
}

#[test]
fn fetch_failure_is_reported_and_dropped() {
    let infos = vec![
        meta(1, "zh", "a", "//host/s/one.json"),
        meta(2, "en", "b", "//host/s/two.json"),
    ];
    let bodies = vec![None, Some(good_body())];
    let (subs, fails) = aggregate_tracks(&infos, &bodies);
    assert_eq!(subs.len(), 1);
    assert_eq!(subs[0].name, "two");
    assert_eq!(fails.len(), 1);
    assert_eq!(fails[0].lan_doc, "a");
    assert!(fails[0].fetch_failed);
}

#[test]
fn unusable_url_is_skipped_silently() {
    let infos = vec![meta(1, "zh", "a", "not a url at all")];
    let bodies = vec![None];
    let (subs, fails) = aggregate_tracks(&infos, &bodies);
    assert_eq!(subs.len(), 0);
    assert_eq!(fails.len(), 0);
}

#[test]
fn track_url_gains_a_scheme_when_it_lacks_one() {
    let info = meta(
        1,
        "zh-Hant",
        "doc",
        "//i0.hdslb.com/bfs/subtitle/b7d807cb5df496ad1276e29637704c5f5dc80f43.json",
    );
    assert_eq!(
        info.url().unwrap(),
        "https://i0.hdslb.com/bfs/subtitle/b7d807cb5df496ad1276e29637704c5f5dc80f43.json"
    );
    let absolute = meta(2, "zh", "d", "http://host/a.json");
    assert_eq!(absolute.url().unwrap(), "http://host/a.json");
}

#[test]
fn track_name_is_the_file_stem_of_the_url() {
    assert_eq!(
        name_from_url("https://i0.hdslb.com/bfs/subtitle/b7d807cb5df496ad1276e29637704c5f5dc80f43.json").unwrap(),
        "b7d807cb5df496ad1276e29637704c5f5dc80f43"
    );
    assert_eq!(name_from_url("https://host/plain").unwrap(), "plain");
    assert_eq!(name_from_url("https://host/a.b.c").unwrap(), "a.b");
    assert_eq!(name_from_url("::not a url::"), None);
}

fn page(cid: u64, page: u32) -> PageInfo {
    PageInfo { cid, page, part: String::new(), duration: 0 }
}

#[test]
fn page_selection_keeps_order_and_matches() {
    let pages = vec![page(10, 1), page(20, 2), page(30, 3), page(40, 4)];
    let sels = vec![Page::Single(4), Page::Range(1, 2)];
    let picked = select_page_indices(&pages, &sels);
    assert_eq!(picked, vec![0, 1, 3]);
    let all = select_page_indices(&pages, &vec![Page::All]);
    assert_eq!(all, vec![0, 1, 2, 3]);
    let none = select_page_indices(&pages, &Vec::new());
    assert_eq!(none, Vec::<usize>::new());
}

#[test]
fn episode_selection_is_one_based() {
    let sels = vec![Page::Range(2, 3)];
    let picked = selected_positions(5, &sels);
    assert_eq!(picked, vec![1, 2]);
    let all = selected_positions(3, &vec![Page::All]);
    assert_eq!(all, vec![0, 1, 2]);
}
