use bccdc::json::{parse_document, parse_prefix, Json};
use bccdc::jsonread::{json_get, json_as_u64, json_as_i64, json_as_string, unescape};
use bccdc::errors::LookupError;
use bccdc::format::{Srt, Sub, Ass};

#[test]
fn prefix_parse_ignores_trailing_script() {
    let text = b"{\"a\":1} ;(function(){})();";
    let (v, n) = parse_prefix(text).unwrap();
    assert_eq!(n, 7);
    let a = json_get(&v, b"a").unwrap();
    assert_eq!(json_as_u64(a), Some(1));
}

#[test]
fn document_parse_refuses_trailing_text() {
    assert!(parse_document(b"{\"a\":1} tail").is_none());
    assert!(parse_document(b" {\"a\":1} \n").is_some());
    assert!(parse_document(b"").is_none());
}

#[test]
fn nested_values_parse() {
    let text = b"{\"o\":{\"k\":[1,true,null,false,\"s\"],\"n\":-2.5e3},\"z\":\"\"}";
    let v = parse_document(text).unwrap();
    let o = json_get(&v, b"o").unwrap();
    let k = json_get(o, b"k").unwrap();
    match k {
        Json::Arr(es) => {
            assert_eq!(es.len(), 5);
            assert_eq!(json_as_u64(&es[0]), Some(1));
            assert!(matches!(es[1], Json::Bool(true)));
            assert!(matches!(es[2], Json::Null));
            assert!(matches!(es[3], Json::Bool(false)));
            assert_eq!(json_as_string(&es[4]).unwrap(), "s");
        },
        _ => panic!("expected an array"),
    }
    let n = json_get(o, b"n").unwrap();
    // a fractional number reads as no integer
    assert_eq!(json_as_u64(n), None);
    assert_eq!(json_as_i64(n), None);
}

#[test]
fn signed_integers_read_exactly() {
    let v = parse_document(b"{\"c\":-404,\"d\":9223372036854775807,\"e\":-9223372036854775808}").unwrap();
    assert_eq!(json_as_i64(json_get(&v, b"c").unwrap()), Some(-404));
    assert_eq!(json_as_i64(json_get(&v, b"d").unwrap()), Some(9223372036854775807));
    assert_eq!(json_as_i64(json_get(&v, b"e").unwrap()), Some(-9223372036854775808));
    assert_eq!(json_as_u64(json_get(&v, b"c").unwrap()), None);
}

#[test]
fn duplicate_keys_read_as_the_later_member() {
    let v = parse_document(b"{\"k\":1,\"k\":2}").unwrap();
    assert_eq!(json_as_u64(json_get(&v, b"k").unwrap()), Some(2));
}

#[test]
fn unescape_rewrites_escapes() {
    assert_eq!(unescape(b"plain").unwrap(), b"plain".to_vec());
    assert_eq!(unescape(b"a\\nb\\t\\\\").unwrap(), b"a\nb\t\\".to_vec());
    assert_eq!(unescape(b"\\u0041\\u002F").unwrap(), b"A/".to_vec());
    // a surrogate pair encodes one scalar beyond the basic plane
    assert_eq!(
        unescape(b"\\uD83D\\uDE00").unwrap(),
        String::from("\u{1F600}").into_bytes()
    );
    // a lone surrogate reads as nothing
    assert_eq!(unescape(b"\\uD83D"), None);
    assert_eq!(unescape(b"\\q"), None);
    assert_eq!(unescape(b"tail\\"), None);
}

#[test]
fn format_extensions() {
    assert_eq!(Srt::new().ext(), "srt");
    assert_eq!(Sub::new().ext(), "sub");
    assert_eq!(Ass::new().ext(), "ass");
}

#[test]
fn error_messages() {
    assert_eq!(
        LookupError::Remote(String::from("server said no")).message(),
        "server said no"
    );
    assert_eq!(LookupError::NotFound.message(), "not found");
}
