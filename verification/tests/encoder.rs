use serde_json::Value;
use telemetry_feed::{
    AddedChain, AddedNode, BestBlock, EncodingError, FeedMessage, FeedMessageSerializer,
    NodeDetails, NodeStats, RawJson, RemovedChain, Timestamp, Version,
};

fn seal(encoder: &mut FeedMessageSerializer) -> Vec<u8> {
    encoder.finalize().expect("something was pushed").0
}

fn decode(bytes: &[u8]) -> Vec<Value> {
    match serde_json::from_slice::<Value>(bytes) {
        Ok(Value::Array(elements)) => elements,
        other => panic!("not a JSON array: {:?}", other),
    }
}

fn text(value: &str) -> Value {
    Value::String(value.to_string())
}

fn list(values: Vec<Value>) -> Value {
    Value::Array(values)
}

#[test]
fn version_seals_to_tag_and_number() {
    let mut encoder = FeedMessageSerializer::new();
    assert_eq!(encoder.push(Version(5)), Ok(()));
    let bytes = seal(&mut encoder);
    assert_eq!(bytes, b"[0,5]".to_vec());
    assert_eq!(decode(&bytes), vec![Value::from(0), Value::from(5)]);
}

#[test]
fn best_block_then_added_chain() {
    let seen = Timestamp { secs: 1_556_712_000, nanos: 0 };
    let mut encoder = FeedMessageSerializer::new();
    assert_eq!(encoder.push(BestBlock(100, seen, Some(50))), Ok(()));
    assert_eq!(encoder.push(AddedChain("Polkadot", 3)), Ok(()));
    let bytes = seal(&mut encoder);
    assert_eq!(
        bytes,
        br#"[1,[100,"2019-05-01T12:00:00Z",50],11,["Polkadot",3]]"#.to_vec()
    );
    assert_eq!(
        decode(&bytes),
        vec![
            Value::from(1),
            list(vec![Value::from(100), text("2019-05-01T12:00:00Z"), Value::from(50)]),
            Value::from(11),
            list(vec![text("Polkadot"), Value::from(3)]),
        ]
    );
}

#[test]
fn added_node_alone() {
    let details = NodeDetails::new(br#"["alice","parity","1.0"]"#.to_vec()).unwrap();
    let stats = NodeStats::new(br#"{"peers":12,"txcount":3}"#.to_vec()).unwrap();
    let load: Vec<f64> = vec![1.5, 0.25];
    let hardware = RawJson::new(serde_json::to_vec(&load).unwrap()).unwrap();
    let mut encoder = FeedMessageSerializer::new();
    assert_eq!(encoder.push(AddedNode(7, &details, &stats, &hardware)), Ok(()));
    let bytes = seal(&mut encoder);
    assert_eq!(
        bytes,
        br#"[3,[7,["alice","parity","1.0"],{"peers":12,"txcount":3},[1.5,0.25]]]"#.to_vec()
    );
    let elements = decode(&bytes);
    assert_eq!(elements.len(), 2);
    assert_eq!(elements[0], Value::from(3));
    assert_eq!(
        elements[1],
        list(vec![
            Value::from(7),
            serde_json::from_slice::<Value>(details.as_bytes()).unwrap(),
            serde_json::from_slice::<Value>(stats.as_bytes()).unwrap(),
            list(vec![Value::from(1.5), Value::from(0.25)]),
        ])
    );
}

#[test]
fn two_batches_are_independent() {
    let mut encoder = FeedMessageSerializer::new();
    assert_eq!(encoder.push(Version(1)), Ok(()));
    let first = seal(&mut encoder);
    assert_eq!(encoder.push(RemovedChain("Kusama")), Ok(()));
    let second = seal(&mut encoder);
    assert_eq!(first, b"[0,1]".to_vec());
    assert_eq!(second, br#"[12,"Kusama"]"#.to_vec());
    assert_eq!(decode(&second), vec![Value::from(12), text("Kusama")]);
}

#[test]
fn new_encoder_has_nothing_to_send() {
    let mut encoder = FeedMessageSerializer::new();
    assert!(encoder.finalize().is_none());
    assert!(encoder.finalize().is_none());
}

#[test]
fn sealed_encoder_has_nothing_to_send() {
    let mut encoder = FeedMessageSerializer::new();
    assert_eq!(encoder.push(Version(2)), Ok(()));
    assert!(encoder.finalize().is_some());
    assert!(encoder.finalize().is_none());
}

#[test]
fn clear_discards_what_was_pushed() {
    let mut encoder = FeedMessageSerializer::new();
    assert_eq!(encoder.push(Version(2)), Ok(()));
    assert_eq!(encoder.push(AddedChain("Polkadot", 9)), Ok(()));
    encoder.clear();
    assert!(encoder.finalize().is_none());
    encoder.clear();
    assert!(encoder.finalize().is_none());
}

#[test]
fn cleared_encoder_starts_a_new_batch() {
    let mut encoder = FeedMessageSerializer::new();
    assert_eq!(encoder.push(Version(2)), Ok(()));
    encoder.clear();
    assert_eq!(encoder.push(Version(3)), Ok(()));
    assert_eq!(seal(&mut encoder), b"[0,3]".to_vec());
}

#[test]
fn sealed_encoder_is_as_good_as_new() {
    let mut used = FeedMessageSerializer::new();
    assert_eq!(used.push(AddedChain("Polkadot", 3)), Ok(()));
    assert_eq!(used.push(Version(8)), Ok(()));
    assert!(used.finalize().is_some());
    let mut fresh = FeedMessageSerializer::new();
    for encoder in [&mut used, &mut fresh] {
        assert_eq!(encoder.push(RemovedChain("Polkadot")), Ok(()));
        assert_eq!(encoder.push(Version(9)), Ok(()));
    }
    let from_used = seal(&mut used);
    assert_eq!(from_used, seal(&mut fresh));
    assert_eq!(from_used, br#"[12,"Polkadot",0,9]"#.to_vec());
}

#[test]
fn n_events_decode_to_2n_elements() {
    let seen = Timestamp { secs: 0, nanos: 0 };
    let details = NodeDetails::new(b"[]".to_vec()).unwrap();
    let stats = NodeStats::new(b"[1,2]".to_vec()).unwrap();
    let hardware = RawJson::new(br#"[[0.5],[],"a,b]"]"#.to_vec()).unwrap();
    let mut encoder = FeedMessageSerializer::new();
    assert_eq!(encoder.push(Version(31)), Ok(()));
    assert_eq!(encoder.push(BestBlock(5, seen, None)), Ok(()));
    assert_eq!(encoder.push(AddedNode(1, &details, &stats, &hardware)), Ok(()));
    assert_eq!(encoder.push(AddedChain("a,b", 2)), Ok(()));
    assert_eq!(encoder.push(RemovedChain("]\"[")), Ok(()));
    let elements = decode(&seal(&mut encoder));
    let tags = [
        Version::ACTION,
        BestBlock::ACTION,
        AddedNode::ACTION,
        AddedChain::ACTION,
        RemovedChain::ACTION,
    ];
    assert_eq!(elements.len(), 2 * tags.len());
    for (i, tag) in tags.iter().enumerate() {
        assert_eq!(elements[2 * i], Value::from(*tag));
    }
}

#[test]
fn decoding_recovers_what_was_pushed() {
    let seen = Timestamp { secs: 1_431_648_000, nanos: 0 };
    let mut encoder = FeedMessageSerializer::new();
    assert_eq!(encoder.push(AddedChain("Kusama", 40)), Ok(()));
    assert_eq!(encoder.push(BestBlock(77, seen, None)), Ok(()));
    assert_eq!(encoder.push(RemovedChain("Kusama")), Ok(()));
    assert_eq!(encoder.push(Version(1)), Ok(()));
    assert_eq!(
        decode(&seal(&mut encoder)),
        vec![
            Value::from(11),
            list(vec![text("Kusama"), Value::from(40)]),
            Value::from(1),
            list(vec![Value::from(77), text("2015-05-15T00:00:00Z"), Value::Null]),
            Value::from(12),
            text("Kusama"),
            Value::from(0),
            Value::from(1),
        ]
    );
}

#[test]
fn tags_are_the_wire_tags() {
    assert_eq!(Version::ACTION, 0x00);
    assert_eq!(BestBlock::ACTION, 0x01);
    assert_eq!(AddedNode::ACTION, 0x03);
    assert_eq!(AddedChain::ACTION, 0x0B);
    assert_eq!(RemovedChain::ACTION, 0x0C);
}

#[test]
fn separator_is_a_bracket_first_and_a_comma_after() {
    let mut encoder = FeedMessageSerializer::new();
    assert_eq!(encoder.push(Version(1)), Ok(()));
    assert_eq!(encoder.push(Version(2)), Ok(()));
    assert_eq!(encoder.push(Version(3)), Ok(()));
    assert_eq!(seal(&mut encoder), b"[0,1,0,2,0,3]".to_vec());
}

#[test]
fn unrepresentable_time_fails_and_leaves_what_was_written() {
    let never = Timestamp { secs: i64::MAX, nanos: 0 };
    let mut encoder = FeedMessageSerializer::new();
    assert_eq!(encoder.push(Version(4)), Ok(()));
    assert_eq!(encoder.push(BestBlock(100, never, Some(50))), Err(EncodingError));
    assert_eq!(seal(&mut encoder), b"[0,4,1,[100,]".to_vec());
}

#[test]
fn failed_first_push_leaves_separator_and_tag() {
    let never = Timestamp { secs: i64::MIN, nanos: 0 };
    let mut encoder = FeedMessageSerializer::new();
    assert_eq!(encoder.push(BestBlock(6, never, None)), Err(EncodingError));
    assert_eq!(seal(&mut encoder), b"[1,[6,]".to_vec());
}

#[test]
fn invalid_nanoseconds_fail() {
    let odd = Timestamp { secs: 10, nanos: 2_000_000_000 };
    let mut encoder = FeedMessageSerializer::new();
    assert_eq!(encoder.push(BestBlock(1, odd, None)), Err(EncodingError));
}

#[test]
fn clear_after_failure_makes_the_encoder_usable() {
    let never = Timestamp { secs: i64::MAX, nanos: 0 };
    let mut encoder = FeedMessageSerializer::new();
    assert_eq!(encoder.push(BestBlock(100, never, None)), Err(EncodingError));
    encoder.clear();
    assert!(encoder.finalize().is_none());
    assert_eq!(encoder.push(Version(4)), Ok(()));
    assert_eq!(seal(&mut encoder), b"[0,4]".to_vec());
}
