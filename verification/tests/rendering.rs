use telemetry_feed::json::{write_number, write_optional, write_text, write_timestamp};
use telemetry_feed::reading::check_element;
use telemetry_feed::{
    AddedChain, BestBlock, EncodingError, FeedMessage, FeedMessageSerializer, RawJson,
    RemovedChain, Timestamp, Version,
};

fn payload<M: FeedMessage>(msg: M) -> Vec<u8> {
    let mut out = Vec::new();
    assert_eq!(msg.write_payload(&mut out), Ok(()));
    out
}

fn best_block_at(secs: i64, nanos: u32) -> Vec<u8> {
    payload(BestBlock(1, Timestamp { secs, nanos }, None))
}

#[test]
fn numbers_are_decimal() {
    let mut out = b"x".to_vec();
    assert_eq!(write_number(&mut out, 0), Ok(()));
    assert_eq!(out, b"x0".to_vec());
    assert_eq!(write_number(&mut out, 9), Ok(()));
    assert_eq!(write_number(&mut out, 10), Ok(()));
    assert_eq!(write_number(&mut out, 1203), Ok(()));
    assert_eq!(out, b"x09101203".to_vec());
}

#[test]
fn largest_number_is_written_in_full() {
    let mut out = Vec::new();
    assert_eq!(write_number(&mut out, u64::MAX), Ok(()));
    assert_eq!(out, b"18446744073709551615".to_vec());
}

#[test]
fn version_payload_is_a_bare_number() {
    assert_eq!(payload(Version(0)), b"0".to_vec());
    assert_eq!(payload(Version(4096)), b"4096".to_vec());
}

#[test]
fn optional_number_or_null() {
    let mut out = Vec::new();
    assert_eq!(write_optional(&mut out, Some(50)), Ok(()));
    assert_eq!(out, b"50".to_vec());
    assert_eq!(write_optional(&mut out, None), Ok(()));
    assert_eq!(out, b"50null".to_vec());
}

#[test]
fn text_is_quoted() {
    let mut out = b"[".to_vec();
    assert_eq!(write_text(&mut out, "Polkadot"), Ok(()));
    assert_eq!(out, br#"["Polkadot""#.to_vec());
    let mut empty = Vec::new();
    assert_eq!(write_text(&mut empty, ""), Ok(()));
    assert_eq!(empty, br#""""#.to_vec());
}

#[test]
fn quotes_and_backslashes_are_escaped() {
    assert_eq!(payload(RemovedChain("a\"b\\c")), br#""a\"b\\c""#.to_vec());
}

#[test]
fn control_characters_are_escaped() {
    assert_eq!(
        payload(RemovedChain("\u{8}\t\n\u{c}\r")),
        br#""\b\t\n\f\r""#.to_vec()
    );
    assert_eq!(
        payload(RemovedChain("\u{0}\u{1}\u{b}\u{1a}\u{1f}")),
        br#""\u0000\u0001\u000b\u001a\u001f""#.to_vec()
    );
}

#[test]
fn other_bytes_are_kept() {
    assert_eq!(payload(RemovedChain(" /\u{7f}")), b"\" /\x7f\"".to_vec());
    assert_eq!(payload(RemovedChain("é€")), "\"é€\"".as_bytes().to_vec());
}

#[test]
fn added_chain_payload_is_name_then_count() {
    assert_eq!(payload(AddedChain("Polkadot", 3)), br#"["Polkadot",3]"#.to_vec());
    assert_eq!(payload(AddedChain("", 0)), br#"["",0]"#.to_vec());
}

#[test]
fn best_block_payload_is_number_time_duration() {
    let seen = Timestamp { secs: 1_556_712_000, nanos: 0 };
    assert_eq!(
        payload(BestBlock(100, seen, Some(50))),
        br#"[100,"2019-05-01T12:00:00Z",50]"#.to_vec()
    );
    assert_eq!(
        payload(BestBlock(100, seen, None)),
        br#"[100,"2019-05-01T12:00:00Z",null]"#.to_vec()
    );
}

#[test]
fn time_is_rfc3339_in_utc() {
    assert_eq!(best_block_at(0, 0), br#"[1,"1970-01-01T00:00:00Z",null]"#.to_vec());
    assert_eq!(
        best_block_at(-1, 0),
        br#"[1,"1969-12-31T23:59:59Z",null]"#.to_vec()
    );
    assert_eq!(
        best_block_at(1_431_648_000, 500_000_000),
        br#"[1,"2015-05-15T00:00:00.500Z",null]"#.to_vec()
    );
    assert_eq!(
        best_block_at(1_431_648_000, 1),
        br#"[1,"2015-05-15T00:00:00.000000001Z",null]"#.to_vec()
    );
}

#[test]
fn timestamp_writes_nothing_when_it_fails() {
    let mut out = b"[".to_vec();
    assert_eq!(write_timestamp(&mut out, i64::MAX, 0), Err(EncodingError));
    assert_eq!(out, b"[".to_vec());
    assert_eq!(write_timestamp(&mut out, 0, 0), Ok(()));
    assert_eq!(out, br#"["1970-01-01T00:00:00Z""#.to_vec());
}

#[test]
fn payload_goes_behind_what_is_there() {
    let mut out = b"[0,".to_vec();
    assert_eq!(Version(5).write_payload(&mut out), Ok(()));
    assert_eq!(out, b"[0,5".to_vec());
}

#[test]
fn elements_are_closed_texts() {
    assert!(check_element(b"5"));
    assert!(check_element(b"null"));
    assert!(check_element(br#""a,b""#));
    assert!(check_element(br#""]""#));
    assert!(check_element(br#""\"""#));
    assert!(check_element(br#""\\""#));
    assert!(check_element(b"[]"));
    assert!(check_element(b"[1,[2,3],{\"a\":[4]}]"));
    assert!(check_element(br#"{"a":1,"b":"}"}"#));
}

#[test]
fn open_or_split_texts_are_no_elements() {
    assert!(!check_element(b""));
    assert!(!check_element(b"1,2"));
    assert!(!check_element(b"]"));
    assert!(!check_element(b"[1"));
    assert!(!check_element(b"[1]]"));
    assert!(!check_element(b"}{"));
    assert!(!check_element(br#""abc"#));
    assert!(!check_element(br#""abc\""#));
    assert!(!check_element(b"[1],[2]"));
}

#[test]
fn raw_json_keeps_its_text() {
    let text = br#"{"name":"alice","load":[0.5,1.25]}"#.to_vec();
    let value = RawJson::new(text.clone()).unwrap();
    assert_eq!(value.as_bytes(), &text[..]);
}

#[test]
fn raw_json_refuses_what_would_break_a_batch() {
    assert!(RawJson::new(Vec::new()).is_none());
    assert!(RawJson::new(b"1,2".to_vec()).is_none());
    assert!(RawJson::new(b"1]".to_vec()).is_none());
    assert!(RawJson::new(b"[[1]".to_vec()).is_none());
    assert!(RawJson::new(br#""open"#.to_vec()).is_none());
}

#[test]
fn push_writes_the_tag_in_decimal() {
    let mut encoder = FeedMessageSerializer::new();
    assert_eq!(encoder.push(RemovedChain("x")), Ok(()));
    assert_eq!(encoder.push(AddedChain("x", 1)), Ok(()));
    let bytes = encoder.finalize().unwrap().0;
    assert_eq!(bytes, br#"[12,"x",11,["x",1]]"#.to_vec());
}
