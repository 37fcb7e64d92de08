use calshare::codec::decode;
use calshare::codec::encode;
use calshare::codec::parse_meta;

#[test]
fn round_trip_encode_decode() {
    let extras = vec!["r".to_string(), "x".to_string()];
    let token = encode("5", &extras, "HASHVAL");
    assert_eq!(token, "$cal$5|r|x$HASHVAL");
    let (meta, hash) = decode(&token).expect("an encoded token decodes");
    assert_eq!(meta, "5|r|x");
    assert_eq!(hash, "HASHVAL");
    assert_eq!(parse_meta(&meta), Some("5".to_string()));
}

#[test]
fn round_trip_with_more_fields() {
    let extras = vec!["read".to_string(), "2030-01-01".to_string(), "z".to_string()];
    let token = encode("123", &extras, "h$with$dollars");
    assert_eq!(token, "$cal$123|read|2030-01-01|z$h$with$dollars");
    let (meta, hash) = decode(&token).expect("an encoded token decodes");
    assert_eq!(meta, "123|read|2030-01-01|z");
    assert_eq!(hash, "h$with$dollars");
    assert_eq!(parse_meta(&meta), Some("123".to_string()));
}

#[test]
fn decode_requires_prefix() {
    assert_eq!(decode("cal$5|r|x$h"), None);
    assert_eq!(decode("$CAL$5|r|x$h"), None);
    assert_eq!(decode("$cal5|r|x$h"), None);
    assert_eq!(decode(""), None);
    assert_eq!(decode("$cal"), None);
}

#[test]
fn decode_requires_hash_separator() {
    assert_eq!(decode("$cal$5|r|x"), None);
    assert_eq!(decode("$cal$"), None);
}

#[test]
fn decode_splits_on_first_dollar() {
    assert_eq!(
        decode("$cal$a|b|c$h$extra"),
        Some(("a|b|c".to_string(), "h$extra".to_string()))
    );
}

#[test]
fn decode_allows_empty_meta_and_hash() {
    assert_eq!(decode("$cal$$"), Some(("".to_string(), "".to_string())));
}

#[test]
fn parse_meta_needs_three_fields() {
    assert_eq!(parse_meta(""), None);
    assert_eq!(parse_meta("a"), None);
    assert_eq!(parse_meta("a|b"), None);
    assert_eq!(parse_meta("a|b|c"), Some("a".to_string()));
    assert_eq!(parse_meta("a|b|c|d"), Some("a".to_string()));
    assert_eq!(parse_meta("||"), Some("".to_string()));
}
