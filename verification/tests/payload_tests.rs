use bccdc::payload::{handle_subtitle_list_result, parse_page_list, parse_season_episodes};
use bccdc::errors::LookupError;

// What the player endpoint answers for (bvid "BV1zT4y1v7kC", cid 569612278);
// asking by the equivalent numeric id (aid 937924663) yields the same
// payload.
fn player_response() -> String {
    String::from(
        "{\"code\":0,\"message\":\"0\",\"ttl\":1,\"data\":{\"aid\":937924663,\"bvid\":\"BV1zT4y1v7kC\",\"cid\":569612278,\"subtitle\":{\"allow_submit\":false,\"subtitles\":[{\"id\":932631245551156736,\"lan\":\"zh-Hant\",\"lan_doc\":\"中文（繁体）\",\"is_lock\":false,\"subtitle_url\":\"//i0.hdslb.com/bfs/subtitle/b7d807cb5df496ad1276e29637704c5f5dc80f43.json\",\"type\":0}]}}}",
    )
}

#[test]
fn get_subtitle_list_test() {
    let infos = handle_subtitle_list_result(player_response().as_bytes()).unwrap();

    let subtitle = &infos[0];

    assert_eq!(subtitle.id, 932631245551156736);
    assert_eq!(subtitle.lan, "zh-Hant");
    assert_eq!(subtitle.lan_doc, "中文（繁体）");
    assert_eq!(subtitle.subtitle_url, "//i0.hdslb.com/bfs/subtitle/b7d807cb5df496ad1276e29637704c5f5dc80f43.json");

    println!("{:?}", infos);
}

#[test]
fn get_subtitle_list_by_av_test() {
    let infos = handle_subtitle_list_result(player_response().as_bytes()).unwrap();

    let subtitle = &infos[0];

    assert_eq!(subtitle.id, 932631245551156736);
    assert_eq!(subtitle.lan, "zh-Hant");
    assert_eq!(subtitle.lan_doc, "中文（繁体）");
    assert_eq!(subtitle.subtitle_url, "//i0.hdslb.com/bfs/subtitle/b7d807cb5df496ad1276e29637704c5f5dc80f43.json");

    println!("{:?}", infos);
}

#[test]
fn subtitle_list_skips_nonconforming_entries() {
    let json = "{\"code\":0,\"message\":\"0\",\"data\":{\"subtitle\":{\"subtitles\":[{\"id\":1,\"lan\":\"a\",\"lan_doc\":\"b\",\"subtitle_url\":\"//h/x.json\",\"type\":0},17,{\"id\":3,\"lan\":\"en\"}]}}}";
    let infos = handle_subtitle_list_result(json.as_bytes()).unwrap();
    assert_eq!(infos.len(), 1);
    assert_eq!(infos[0].id, 1);
}

#[test]
fn subtitle_list_remote_error_carries_message() {
    let json = "{\"code\":-404,\"message\":\"啥都木有\",\"ttl\":1}";
    match handle_subtitle_list_result(json.as_bytes()) {
        Err(LookupError::Remote(m)) => assert_eq!(m, "啥都木有"),
        _ => panic!("expected the remote failure"),
    }
}

#[test]
fn subtitle_list_without_tracks_is_a_shape_error() {
    let json = "{\"code\":0,\"message\":\"0\",\"data\":{}}";
    assert!(matches!(
        handle_subtitle_list_result(json.as_bytes()),
        Err(LookupError::Shape)
    ));
    assert!(matches!(
        handle_subtitle_list_result(b"no json"),
        Err(LookupError::Shape)
    ));
}

#[test]
fn page_list_decodes_in_order() {
    let json = "{\"code\":0,\"message\":\"0\",\"ttl\":1,\"data\":[{\"cid\":569612278,\"page\":1,\"from\":\"vupload\",\"part\":\"PP02_Haishin_R.encoded\",\"duration\":1421,\"dimension\":{}},{\"cid\":7,\"page\":2,\"part\":\"b\",\"duration\":9}]}";
    let pages = parse_page_list(json.as_bytes()).unwrap();
    assert_eq!(pages.len(), 2);
    assert_eq!(pages[0].cid, 569612278);
    assert_eq!(pages[0].page, 1);
    assert_eq!(pages[0].part, "PP02_Haishin_R.encoded");
    assert_eq!(pages[0].duration, 1421);
    assert_eq!(pages[1].cid, 7);
    assert_eq!(pages[1].page, 2);
}

#[test]
fn page_list_fails_whole_on_one_bad_entry() {
    let json = "{\"code\":0,\"message\":\"0\",\"data\":[{\"cid\":1,\"page\":1,\"part\":\"a\",\"duration\":2},{\"cid\":\"x\",\"page\":2,\"part\":\"b\",\"duration\":3}]}";
    assert!(matches!(
        parse_page_list(json.as_bytes()),
        Err(LookupError::Shape)
    ));
}

#[test]
fn season_episodes_decode() {
    let json = "{\"code\":0,\"message\":\"success\",\"result\":{\"main_section\":{\"episodes\":[{\"aid\":11931200,\"cid\":19695814,\"id\":152109,\"title\":\"1\",\"long_title\":\"first\"},{\"aid\":719079280,\"cid\":19695813,\"id\":152110,\"title\":null}]}}}";
    let eps = parse_season_episodes(json.as_bytes()).unwrap();
    assert_eq!(eps.len(), 2);
    assert_eq!(eps[0].aid, 11931200);
    assert_eq!(eps[0].cid, 19695814);
    assert_eq!(eps[0].id, 152109);
    assert_eq!(eps[0].title.as_deref(), Some("1"));
    assert_eq!(eps[0].long_title.as_deref(), Some("first"));
    assert_eq!(eps[1].aid, 719079280);
    assert_eq!(eps[1].title, None);
    assert_eq!(eps[1].long_title, None);
}

#[test]
fn season_episodes_missing_main_section_is_a_shape_error() {
    let json = "{\"code\":0,\"message\":\"success\",\"result\":{}}";
    assert!(matches!(
        parse_season_episodes(json.as_bytes()),
        Err(LookupError::Shape)
    ));
}

#[test]
fn season_episodes_remote_error() {
    let json = "{\"code\":10500,\"message\":\"service unavailable\",\"result\":null}";
    match parse_season_episodes(json.as_bytes()) {
        Err(LookupError::Remote(m)) => assert_eq!(m, "service unavailable"),
        _ => panic!("expected the remote failure"),
    }
}
