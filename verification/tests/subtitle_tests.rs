use bccdc::subtitle::json_to_subtitle;
use bccdc::errors::LookupError;

#[test]
fn body_round_trip_exact_times() {
    let json = "{\"body\":[{\"content\":\"x\",\"from\":1341.19,\"to\":1343.27}]}";
    let cc = json_to_subtitle("x", json.as_bytes()).unwrap();
    assert_eq!(cc.name, "x");
    assert_eq!(cc.lan, None);
    assert_eq!(cc.lan_doc, None);
    assert_eq!(cc.lines.len(), 1);
    let line = &cc.lines[0];
    assert_eq!(line.content, "x");
    // the times are kept as their exact source text: nothing is rounded
    assert_eq!(line.start, "1341.19");
    assert_eq!(line.end, "1343.27");
    assert_eq!(line.start.parse::<f64>().unwrap(), 1341.19);
    assert_eq!(line.end.parse::<f64>().unwrap(), 1343.27);
}

#[test]
fn body_with_unicode_content_and_extra_fields() {
    let json = "{\"body\":[{\"content\":\"花蕾 石屑 又一輪循環\",\"from\":1341.19,\"location\":2,\"to\":1343.27}]}";
    let cc = json_to_subtitle("track", json.as_bytes()).unwrap();
    let line = &cc.lines[0];
    assert_eq!("花蕾 石屑 又一輪循環", &line.content);
    assert_eq!(1341.19, line.start.parse::<f64>().unwrap());
    assert_eq!(1343.27, line.end.parse::<f64>().unwrap());
}

#[test]
fn body_with_escaped_content() {
    let json = "{\"body\":[{\"content\":\"a\\\"b\\u0041\\nc\",\"from\":0,\"to\":1}]}";
    let cc = json_to_subtitle("t", json.as_bytes()).unwrap();
    assert_eq!(cc.lines[0].content, "a\"bA\nc");
}

#[test]
fn body_missing_is_invalid() {
    assert!(matches!(
        json_to_subtitle("t", b"{\"lines\":[]}"),
        Err(LookupError::Shape)
    ));
}

#[test]
fn body_element_missing_field_is_invalid() {
    let json = "{\"body\":[{\"content\":\"x\",\"from\":1.0}]}";
    assert!(matches!(json_to_subtitle("t", json.as_bytes()), Err(LookupError::Shape)));
}

#[test]
fn unparsable_body_is_invalid() {
    assert!(matches!(json_to_subtitle("t", b"not json"), Err(LookupError::Shape)));
    assert!(matches!(json_to_subtitle("t", b"{\"body\":[}"), Err(LookupError::Shape)));
}

#[test]
fn empty_body_gives_empty_track() {
    let cc = json_to_subtitle("t", b"{\"body\":[]}").unwrap();
    assert_eq!(cc.lines.len(), 0);
}

#[test]
fn rename_by_language_policy() {
    let json = "{\"body\":[{\"content\":\"x\",\"from\":1,\"to\":2}]}";
    let mut cc = json_to_subtitle("orig", json.as_bytes()).unwrap();
    cc.lan = Some(String::from("zh-Hant"));
    cc.lan_doc = Some(String::from("中文（繁体）"));
    cc.determine_name(false);
    assert_eq!(cc.name, "zh-Hant");
    cc.determine_name(true);
    assert_eq!(cc.name, "中文（繁体）");
    cc.lan = None;
    cc.determine_name(false);
    assert_eq!(cc.name, "中文（繁体）");
}
