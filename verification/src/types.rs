//! The values that feed messages carry.

use vstd::prelude::*;
use crate::reading::{check_element, is_element};

verus! {

/// Identifies a node within the feed.
pub type NodeId = usize;

/// The height of a block.
pub type BlockNumber = u64;

/// An instant in UTC: whole seconds since the Unix epoch and the nanoseconds
/// past that second.
#[derive(Debug, Clone, Copy, PartialEq, Eq)]
pub struct Timestamp {
    pub secs: i64,
    pub nanos: u32,
}

/// One JSON value in its text form, kept as it was handed over.
///
/// The text is not parsed: that it is JSON is the business of whoever
/// rendered it. Its outline is checked once, when the value is made: it can
/// stand as one element of an array, so a message that carries it cannot
/// break the framing of a batch.
pub struct RawJson {
    text: Vec<u8>,
}

/// What a node says of itself, as one JSON value.
pub type NodeDetails = RawJson;

/// The counters of a node, as one JSON value.
pub type NodeStats = RawJson;

/// The hardware measurements of a node, as one JSON value.
pub type NodeHardware<'a> = &'a RawJson;

impl View for RawJson {
    type V = Seq<u8>;

    closed spec fn view(&self) -> Seq<u8> {
        self.text@
    }
}

impl RawJson {
    #[verifier::type_invariant]
    spec fn well_formed(self) -> bool {
        is_element(self.text@)
    }

    /// Takes `text` if it can stand as one element of an array.
    pub fn new(text: Vec<u8>) -> (made: Option<RawJson>)
        ensures
            made is Some <==> is_element(text@),
            made is Some ==> made.unwrap()@ == text@,
    {
        if check_element(text.as_slice()) {
            Some(RawJson { text })
        } else {
            None
        }
    }

    /// The text.
    pub fn as_bytes(&self) -> (bytes: &[u8])
        ensures
            bytes@ == self@,
            is_element(bytes@),
    {
        proof {
            use_type_invariant(self);
        }
        self.text.as_slice()
    }
}

} // verus!
