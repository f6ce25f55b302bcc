use bccdc::selector::{Page, parse_range, normalize_selectors, any_match};
use bccdc::errors::LookupError;

#[test]
fn parse_single() {
    assert!(matches!(parse_range(b"5"), Ok(Page::Single(5))));
    assert!(matches!(parse_range(b" 12 "), Ok(Page::Single(12))));
    assert!(matches!(parse_range(b"0"), Ok(Page::Single(0))));
}

#[test]
fn parse_single_covers_the_whole_page_range() {
    assert!(matches!(parse_range(b"2147483648"), Ok(Page::Single(2147483648))));
    assert!(matches!(parse_range(b"4294967295"), Ok(Page::Single(4294967295))));
    assert!(matches!(parse_range(b"4294967296"), Err(LookupError::InvalidIdentifier)));
}

#[test]
fn parse_range_normalizes_order() {
    assert!(matches!(parse_range(b"4-1"), Ok(Page::Range(1, 4))));
    assert!(matches!(parse_range(b"3-4"), Ok(Page::Range(3, 4))));
    assert!(matches!(parse_range(b"7-7"), Ok(Page::Range(7, 7))));
}

#[test]
fn parse_rejects_bad_selector_text() {
    assert!(matches!(parse_range(b"abc"), Err(LookupError::InvalidIdentifier)));
    assert!(matches!(parse_range(b"-3"), Err(LookupError::InvalidIdentifier)));
    assert!(matches!(parse_range(b"3-"), Err(LookupError::InvalidIdentifier)));
    assert!(matches!(parse_range(b"3 - 4"), Err(LookupError::InvalidIdentifier)));
    assert!(matches!(parse_range(b""), Err(LookupError::InvalidIdentifier)));
}

#[test]
fn reversed_range_matches_between_bounds() {
    let sel = match parse_range(b"4-1") {
        Ok(s) => s,
        Err(_) => panic!("selector text refused"),
    };
    for p in 1u32..=4 {
        assert!(sel.test(&p));
    }
    assert!(!sel.test(&0));
    assert!(!sel.test(&5));
}

#[test]
fn empty_selector_set_substituted_matches_everything() {
    let sels = normalize_selectors(Vec::new());
    assert_eq!(sels.len(), 1);
    assert!(any_match(&sels, &0));
    assert!(any_match(&sels, &1));
    assert!(any_match(&sels, &4294967295));
}

#[test]
fn selector_union_is_a_disjunction() {
    let sels = vec![Page::Single(2), Page::Range(5, 7)];
    assert!(any_match(&sels, &2));
    assert!(any_match(&sels, &5));
    assert!(any_match(&sels, &6));
    assert!(any_match(&sels, &7));
    assert!(!any_match(&sels, &1));
    assert!(!any_match(&sels, &3));
    assert!(!any_match(&sels, &8));
    assert!(!any_match(&Vec::new(), &1));
}
