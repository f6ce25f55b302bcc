use bccdc::av_to_bv;
use bccdc::codec::resolve_bvid;
use bccdc::errors::LookupError;

#[test]
fn av_to_bv_test() {
    let test_case: [(u64, &str); 13] = [
        (11931200, "BV1px411z7FA"),
        (209041759, "BV1Ch411t7ms"),
        (294034570, "BV1MF411Y7re"),
        (591600094, "BV1nq4y1k7Ex"),
        (634103120, "BV1Rb4y187kB"),
        (379112581, "BV1sf4y1T7Mz"),
        (721602076, "BV1bS4y1d7FT"),
        (464008075, "BV1uL411u7AK"),
        (676602083, "BV1EU4y1M7pq"),
        (764081645, "BV1Rr4y1C7qC"),
        (721608355, "BV1bS4y1d7vP"),
        (719079280, "BV1tQ4y1m7pX"),
        (934101570, "BV1aT4y197qB"),
    ];
    for i in 0..13 {
        let bvid = av_to_bv(&test_case[i].0);
        assert_eq!(&bvid, test_case[i].1);
    }
}

#[test]
fn encode_known_vectors() {
    assert_eq!(av_to_bv(&11931200), "BV1px411z7FA");
    assert_eq!(av_to_bv(&719079280), "BV1tQ4y1m7pX");
    assert_eq!(av_to_bv(&934101570), "BV1aT4y197qB");
}

#[test]
fn encode_deterministic() {
    for aid in [0u64, 1, 937924663, 11931200, 4294967295] {
        let first = av_to_bv(&aid);
        let second = av_to_bv(&aid);
        assert_eq!(first, second);
    }
}

#[test]
fn encode_shape() {
    for aid in [0u64, 1, 57, 58, 937924663, 4294967295, 1_000_000_000_000] {
        let bvid = av_to_bv(&aid);
        assert_eq!(bvid.len(), 12);
        assert!(bvid.starts_with("BV1"));
        let chars: Vec<char> = bvid.chars().collect();
        assert_eq!(chars[5], '4');
        assert_eq!(chars[7], '1');
        assert_eq!(chars[9], '7');
    }
}

#[test]
fn resolve_av_identifier() {
    assert_eq!(resolve_bvid("av937924663").unwrap(), "BV1zT4y1v7kC");
    assert_eq!(resolve_bvid("av11931200").unwrap(), "BV1px411z7FA");
}

#[test]
fn resolve_av_identifier_in_any_letter_case() {
    assert_eq!(resolve_bvid("AV937924663").unwrap(), "BV1zT4y1v7kC");
    assert_eq!(resolve_bvid("Av937924663").unwrap(), "BV1zT4y1v7kC");
    assert_eq!(resolve_bvid("aV937924663").unwrap(), "BV1zT4y1v7kC");
}

#[test]
fn resolve_passes_encoded_id_through() {
    assert_eq!(resolve_bvid("BV1zT4y1v7kC").unwrap(), "BV1zT4y1v7kC");
    assert_eq!(resolve_bvid("anything else").unwrap(), "anything else");
}

#[test]
fn resolve_rejects_malformed_numeric_id() {
    assert_eq!(
        resolve_bvid("av12x"),
        Err(LookupError::InvalidIdentifier)
    );
    assert_eq!(resolve_bvid("av"), Err(LookupError::InvalidIdentifier));
    // beyond the encodable range
    assert_eq!(
        resolve_bvid("av18446744073709551615"),
        Err(LookupError::InvalidIdentifier)
    );
}
