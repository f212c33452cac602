//! The message kinds of the feed and the encoder that batches them.
//!
//! A batch on the wire is one flat JSON array, `[tag, payload, tag, payload, ..]`.
//! The tag says which kind a payload belongs to:
//!
//! | tag    | kind                                   |
//! |--------|----------------------------------------|
//! | `0x00` | [`Version`]                            |
//! | `0x01` | [`BestBlock`]                          |
//! | `0x02` | kept free for the best finalized block |
//! | `0x03` | [`AddedNode`]                          |
//! | `0x04` | kept free for a removed node           |
//! | `0x0B` | [`AddedChain`]                         |
//! | `0x0C` | [`RemovedChain`]                       |
//!
//! Clients decode by tag, so a tag never moves to another kind, and the two
//! that are kept free go to no other kind than the one named.

use vstd::prelude::*;
use vstd::utf8::{encode_utf8, encode_utf8_decode_utf8};
use crate::json::{
    decimal, json_string, optional, rfc3339, write_number, write_optional, write_text,
    write_timestamp, EncodingError, CLOSE, COMMA, OPEN,
};
use crate::reading::{
    array, is_element, lemma_array_is_element, lemma_array_tells_elements, lemma_join_push,
};
use crate::values::{
    lemma_decimal_is_element, lemma_decimal_tells_number, lemma_optional_is_element,
    lemma_optional_tells_value, lemma_string_is_element, lemma_string_tells_text,
};
use crate::types::{BlockNumber, NodeDetails, NodeHardware, NodeId, NodeStats, Timestamp};

verus! {

/// An event kind: a fixed wire tag and a payload that renders as one JSON
/// value.
pub trait FeedMessage {
    /// The wire tag of this kind.
    const ACTION: u8;

    /// Whether the payload can be rendered.
    spec fn encodable(&self) -> bool;

    /// The bytes that rendering writes: the whole payload where it is
    /// `encodable`, else what is written before rendering gives up.
    spec fn payload(&self) -> Seq<u8>;

    /// Appends the payload to `out`.
    fn write_payload(&self, out: &mut Vec<u8>) -> (r: Result<(), EncodingError>)
        ensures
            final(out)@ == old(out)@ + self.payload(),
            r is Ok <==> self.encodable(),
    ;

    /// A payload that can be rendered is one element of the batch.
    proof fn lemma_payload_is_element(&self)
        requires
            self.encodable(),
        ensures
            is_element(self.payload()),
    ;
}

/// The version of the feed: a single number.
pub struct Version(pub usize);

/// The best block of a chain: its number, the time it was seen and, where
/// known, the milliseconds it took to propagate.
pub struct BestBlock(pub BlockNumber, pub Timestamp, pub Option<u64>);

/// A node that joined: its id, details, statistics and hardware measurements.
pub struct AddedNode<'a>(
    pub NodeId,
    pub &'a NodeDetails,
    pub &'a NodeStats,
    pub NodeHardware<'a>,
);

/// A chain that appeared: its name and the number of its nodes.
pub struct AddedChain<'a>(pub &'a str, pub usize);

/// A chain that went away: its name.
pub struct RemovedChain<'a>(pub &'a str);

/// Appends `bytes` to `out`.
fn append(out: &mut Vec<u8>, bytes: &[u8])
    ensures
        final(out)@ == old(out)@ + bytes@,
{
    out.extend_from_slice(bytes);
    assert(out@ =~= old(out)@ + bytes@);
}

impl FeedMessage for Version {
    const ACTION: u8 = 0x00;

    open spec fn encodable(&self) -> bool {
        true
    }

    open spec fn payload(&self) -> Seq<u8> {
        decimal(self.0 as nat)
    }

    fn write_payload(&self, out: &mut Vec<u8>) -> (r: Result<(), EncodingError>) {
        write_number(out, self.0 as u64)
    }

    proof fn lemma_payload_is_element(&self) {
        lemma_decimal_is_element(self.0 as nat);
    }
}

impl FeedMessage for BestBlock {
    const ACTION: u8 = 0x01;

    open spec fn encodable(&self) -> bool {
        rfc3339(self.1.secs, self.1.nanos) is Some
    }

    open spec fn payload(&self) -> Seq<u8> {
        match rfc3339(self.1.secs, self.1.nanos) {
            Some(seen) => array(
                seq![decimal(self.0 as nat), json_string(seen), optional(self.2)],
            ),
            None => seq![OPEN] + decimal(self.0 as nat) + seq![COMMA],
        }
    }

    fn write_payload(&self, out: &mut Vec<u8>) -> (r: Result<(), EncodingError>) {
        out.push(OPEN);
        write_number(out, self.0)?;
        out.push(COMMA);
        write_timestamp(out, self.1.secs, self.1.nanos)?;
        out.push(COMMA);
        write_optional(out, self.2)?;
        out.push(CLOSE);
        proof {
            let number = decimal(self.0 as nat);
            let seen = json_string(rfc3339(self.1.secs, self.1.nanos).unwrap());
            let took = optional(self.2);
            lemma_join_push(seq![number], seen);
            lemma_join_push(seq![number, seen], took);
            assert(seq![number].push(seen) =~= seq![number, seen]);
            assert(seq![number, seen].push(took) =~= seq![number, seen, took]);
            assert(out@ =~= old(out)@ + self.payload());
        }
        Ok(())
    }

    proof fn lemma_payload_is_element(&self) {
        let seen = rfc3339(self.1.secs, self.1.nanos).unwrap();
        lemma_decimal_is_element(self.0 as nat);
        lemma_string_is_element(seen);
        lemma_optional_is_element(self.2);
        lemma_array_is_element(seq![decimal(self.0 as nat), json_string(seen), optional(self.2)]);
    }
}

impl<'a> FeedMessage for AddedNode<'a> {
    const ACTION: u8 = 0x03;

    open spec fn encodable(&self) -> bool {
        is_element(self.1@) && is_element(self.2@) && is_element(self.3@)
    }

    open spec fn payload(&self) -> Seq<u8> {
        array(seq![decimal(self.0 as nat), self.1@, self.2@, self.3@])
    }

    fn write_payload(&self, out: &mut Vec<u8>) -> (r: Result<(), EncodingError>) {
        out.push(OPEN);
        write_number(out, self.0 as u64)?;
        out.push(COMMA);
        append(out, self.1.as_bytes());
        out.push(COMMA);
        append(out, self.2.as_bytes());
        out.push(COMMA);
        append(out, self.3.as_bytes());
        out.push(CLOSE);
        proof {
            let id = decimal(self.0 as nat);
            lemma_join_push(seq![id], self.1@);
            lemma_join_push(seq![id, self.1@], self.2@);
            lemma_join_push(seq![id, self.1@, self.2@], self.3@);
            assert(seq![id].push(self.1@) =~= seq![id, self.1@]);
            assert(seq![id, self.1@].push(self.2@) =~= seq![id, self.1@, self.2@]);
            assert(seq![id, self.1@, self.2@].push(self.3@) =~= seq![
                id,
                self.1@,
                self.2@,
                self.3@,
            ]);
            assert(out@ =~= old(out)@ + self.payload());
        }
        Ok(())
    }

    proof fn lemma_payload_is_element(&self) {
        lemma_decimal_is_element(self.0 as nat);
        lemma_array_is_element(seq![decimal(self.0 as nat), self.1@, self.2@, self.3@]);
    }
}

impl<'a> FeedMessage for AddedChain<'a> {
    const ACTION: u8 = 0x0B;

    open spec fn encodable(&self) -> bool {
        true
    }

    open spec fn payload(&self) -> Seq<u8> {
        array(seq![json_string(encode_utf8(self.0@)), decimal(self.1 as nat)])
    }

    fn write_payload(&self, out: &mut Vec<u8>) -> (r: Result<(), EncodingError>) {
        out.push(OPEN);
        write_text(out, self.0)?;
        out.push(COMMA);
        write_number(out, self.1 as u64)?;
        out.push(CLOSE);
        proof {
            let name = json_string(encode_utf8(self.0@));
            let nodes = decimal(self.1 as nat);
            lemma_join_push(seq![name], nodes);
            assert(seq![name].push(nodes) =~= seq![name, nodes]);
            assert(out@ =~= old(out)@ + self.payload());
        }
        Ok(())
    }

    proof fn lemma_payload_is_element(&self) {
        lemma_string_is_element(encode_utf8(self.0@));
        lemma_decimal_is_element(self.1 as nat);
        lemma_array_is_element(seq![json_string(encode_utf8(self.0@)), decimal(self.1 as nat)]);
    }
}

impl<'a> FeedMessage for RemovedChain<'a> {
    const ACTION: u8 = 0x0C;

    open spec fn encodable(&self) -> bool {
        true
    }

    open spec fn payload(&self) -> Seq<u8> {
        json_string(encode_utf8(self.0@))
    }

    fn write_payload(&self, out: &mut Vec<u8>) -> (r: Result<(), EncodingError>) {
        write_text(out, self.0)
    }

    proof fn lemma_payload_is_element(&self) {
        lemma_string_is_element(encode_utf8(self.0@));
    }
}

/// The payload of a version tells the version.
pub proof fn lemma_version_reads_back(a: Version, b: Version)
    requires
        a.payload() == b.payload(),
    ensures
        a.0 == b.0,
{
    lemma_decimal_tells_number(a.0 as nat, b.0 as nat);
}

/// The payload of a best block tells its number, the text of the time it was
/// seen and the time it took.
pub proof fn lemma_best_block_reads_back(a: BestBlock, b: BestBlock)
    requires
        a.encodable(),
        b.encodable(),
        a.payload() == b.payload(),
    ensures
        a.0 == b.0,
        rfc3339(a.1.secs, a.1.nanos) == rfc3339(b.1.secs, b.1.nanos),
        a.2 == b.2,
{
    let seen_a = rfc3339(a.1.secs, a.1.nanos).unwrap();
    let seen_b = rfc3339(b.1.secs, b.1.nanos).unwrap();
    let ours = seq![decimal(a.0 as nat), json_string(seen_a), optional(a.2)];
    let theirs = seq![decimal(b.0 as nat), json_string(seen_b), optional(b.2)];
    lemma_decimal_is_element(a.0 as nat);
    lemma_decimal_is_element(b.0 as nat);
    lemma_string_is_element(seen_a);
    lemma_string_is_element(seen_b);
    lemma_optional_is_element(a.2);
    lemma_optional_is_element(b.2);
    lemma_array_tells_elements(ours, theirs);
    assert(ours[0] == theirs[0] && ours[1] == theirs[1] && ours[2] == theirs[2]);
    lemma_decimal_tells_number(a.0 as nat, b.0 as nat);
    lemma_string_tells_text(seen_a, seen_b);
    lemma_optional_tells_value(a.2, b.2);
}

/// The payload of an added node tells its id and the texts of its details,
/// statistics and hardware.
pub proof fn lemma_added_node_reads_back(a: AddedNode, b: AddedNode)
    requires
        a.encodable(),
        b.encodable(),
        a.payload() == b.payload(),
    ensures
        a.0 == b.0,
        a.1@ == b.1@,
        a.2@ == b.2@,
        a.3@ == b.3@,
{
    let ours = seq![decimal(a.0 as nat), a.1@, a.2@, a.3@];
    let theirs = seq![decimal(b.0 as nat), b.1@, b.2@, b.3@];
    lemma_decimal_is_element(a.0 as nat);
    lemma_decimal_is_element(b.0 as nat);
    lemma_array_tells_elements(ours, theirs);
    assert(ours[0] == theirs[0] && ours[1] == theirs[1] && ours[2] == theirs[2] && ours[3]
        == theirs[3]);
    lemma_decimal_tells_number(a.0 as nat, b.0 as nat);
}

/// The payload of an added chain tells its name and the number of its nodes.
pub proof fn lemma_added_chain_reads_back(a: AddedChain, b: AddedChain)
    requires
        a.payload() == b.payload(),
    ensures
        a.0@ == b.0@,
        a.1 == b.1,
{
    let ours = seq![json_string(encode_utf8(a.0@)), decimal(a.1 as nat)];
    let theirs = seq![json_string(encode_utf8(b.0@)), decimal(b.1 as nat)];
    lemma_string_is_element(encode_utf8(a.0@));
    lemma_string_is_element(encode_utf8(b.0@));
    lemma_decimal_is_element(a.1 as nat);
    lemma_decimal_is_element(b.1 as nat);
    lemma_array_tells_elements(ours, theirs);
    assert(ours[0] == theirs[0] && ours[1] == theirs[1]);
    lemma_string_tells_text(encode_utf8(a.0@), encode_utf8(b.0@));
    encode_utf8_decode_utf8(a.0@);
    encode_utf8_decode_utf8(b.0@);
    lemma_decimal_tells_number(a.1 as nat, b.1 as nat);
}

/// The payload of a removed chain tells its name.
pub proof fn lemma_removed_chain_reads_back(a: RemovedChain, b: RemovedChain)
    requires
        a.payload() == b.payload(),
    ensures
        a.0@ == b.0@,
{
    lemma_string_tells_text(encode_utf8(a.0@), encode_utf8(b.0@));
    encode_utf8_decode_utf8(a.0@);
    encode_utf8_decode_utf8(b.0@);
}

/// The wire tags of the kinds. No two are equal, and none is one of the two
/// that are kept free.
pub proof fn lemma_tags()
    ensures
        Version::ACTION == 0x00,
        BestBlock::ACTION == 0x01,
        AddedNode::ACTION == 0x03,
        AddedChain::ACTION == 0x0B,
        RemovedChain::ACTION == 0x0C,
{
}

/// The buffer after one more entry: `[` if it was empty and `,` if not, the
/// digits of the tag, a comma, and the payload.
pub open spec fn pushed(buffered: Seq<u8>, tag: u8, payload: Seq<u8>) -> Seq<u8> {
    buffered + seq![if buffered.len() == 0 { OPEN } else { COMMA }] + decimal(tag as nat)
        + seq![COMMA] + payload
}

/// What sealing hands out: nothing for an empty buffer, else the buffer
/// closed by `]`.
pub open spec fn sealed(buffered: Seq<u8>) -> Option<Seq<u8>> {
    if buffered.len() == 0 {
        None
    } else {
        Some(buffered.push(CLOSE))
    }
}

/// One sealed batch: the bytes of a complete JSON array.
pub struct Serialized(pub Vec<u8>);

impl View for Serialized {
    type V = Seq<u8>;

    open spec fn view(&self) -> Seq<u8> {
        self.0@
    }
}

/// Collects the messages of one batch in a buffer that it keeps from batch
/// to batch.
pub struct FeedMessageSerializer {
    /// Current buffer,
    buffer: Vec<u8>,
}

impl View for FeedMessageSerializer {
    type V = Seq<u8>;

    /// The bytes buffered since the last seal or clear.
    closed spec fn view(&self) -> Seq<u8> {
        self.buffer@
    }
}

impl FeedMessageSerializer {
    /// An encoder with nothing buffered.
    pub fn new() -> (fresh: Self)
        ensures
            fresh@ == Seq::<u8>::empty(),
    {
        Self { buffer: Vec::new() }
    }

    /// Drops what is buffered.
    pub fn clear(&mut self)
        ensures
            final(self)@ == Seq::<u8>::empty(),
    {
        self.buffer.clear();
    }

    /// Adds `msg` to the batch.
    ///
    /// The separator, the tag and a comma are written first, then the payload.
    /// Where the payload cannot be rendered the call fails and nothing is
    /// taken back: the buffer keeps the separator, the tag, the comma and what
    /// the payload wrote before it gave up. Such a buffer no longer holds the
    /// beginning of a batch; `clear` makes it usable again.
    pub fn push<Message: FeedMessage>(&mut self, msg: Message) -> (r: Result<(), EncodingError>)
        ensures
            final(self)@ == pushed(old(self)@, Message::ACTION, msg.payload()),
            r is Ok <==> msg.encodable(),
    {
        let glue = if self.buffer.len() == 0 {
            OPEN
        } else {
            COMMA
        };
        self.buffer.push(glue);
        write_number(&mut self.buffer, Message::ACTION as u64)?;
        self.buffer.push(COMMA);
        msg.write_payload(&mut self.buffer)
    }

    /// Seals the batch: hands out the buffered bytes closed by `]` and leaves
    /// the encoder empty. With nothing buffered there is nothing to send.
    pub fn finalize(&mut self) -> (out: Option<Serialized>)
        ensures
            final(self)@ == Seq::<u8>::empty(),
            out is Some <==> sealed(old(self)@) is Some,
            out is Some ==> sealed(old(self)@) == Some(out.unwrap()@),
    {
        if self.buffer.len() == 0 {
            return None;
        }
        self.buffer.push(CLOSE);
        let bytes = self.buffer.clone();
        self.buffer.clear();
        Some(Serialized(bytes))
    }
}

} // verus!
