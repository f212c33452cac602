//! What a batch is on the wire, and what the encoder promises about it.
//!
//! The statements here are about the encoder as a whole: they follow a row of
//! pushes from an empty buffer to the sealed bytes, and back from the bytes to
//! the entries that were pushed.

use vstd::prelude::*;
use crate::feed::{pushed, sealed, FeedMessageSerializer};
use crate::json::{decimal, CLOSE, OPEN};
use crate::reading::{
    all_elements, array, balanced, deeper, is_element, join, lemma_array_tells_elements,
    lemma_join_balanced, lemma_join_push, lemma_open_array, place, top,
};
use crate::values::{lemma_decimal_is_element, lemma_decimal_tells_number};

verus! {

/// One accepted message: the tag of its kind and its rendered payload.
pub struct Entry {
    pub tag: u8,
    pub payload: Seq<u8>,
}

/// The buffer after pushing `entries`, in order, onto `buffered`.
pub open spec fn pushed_all(buffered: Seq<u8>, entries: Seq<Entry>) -> Seq<u8>
    decreases entries.len(),
{
    if entries.len() == 0 {
        buffered
    } else {
        pushed(
            pushed_all(buffered, entries.drop_last()),
            entries.last().tag,
            entries.last().payload,
        )
    }
}

/// The elements of the batch made of `entries`: for each entry, in order, the
/// digits of its tag and then its payload.
pub open spec fn elements(entries: Seq<Entry>) -> Seq<Seq<u8>>
    decreases entries.len(),
{
    if entries.len() == 0 {
        Seq::empty()
    } else {
        elements(entries.drop_last()).push(decimal(entries.last().tag as nat)).push(
            entries.last().payload,
        )
    }
}

/// Every payload of `entries` is an element.
pub open spec fn all_payloads_elements(entries: Seq<Entry>) -> bool {
    forall|i: int| 0 <= i < entries.len() ==> is_element(#[trigger] entries[i].payload)
}

/// A batch of N entries has 2N elements: the element at 2i is the tag of
/// entry i, the one behind it is its payload.
pub proof fn lemma_elements_alternate(entries: Seq<Entry>)
    ensures
        elements(entries).len() == 2 * entries.len(),
        forall|i: int|
            0 <= i < entries.len() ==> {
                &&& elements(entries)[2 * i] == decimal((#[trigger] entries[i]).tag as nat)
                &&& elements(entries)[2 * i + 1] == entries[i].payload
            },
    decreases entries.len(),
{
    if entries.len() > 0 {
        lemma_elements_alternate(entries.drop_last());
        assert forall|i: int| 0 <= i < entries.len() implies {
            &&& elements(entries)[2 * i] == decimal((#[trigger] entries[i]).tag as nat)
            &&& elements(entries)[2 * i + 1] == entries[i].payload
        } by {
            if i < entries.len() - 1 {
                assert(entries.drop_last()[i] == entries[i]);
            }
        }
    }
}

/// Where every payload is an element, so is every element of the batch.
pub proof fn lemma_elements_are_elements(entries: Seq<Entry>)
    requires
        all_payloads_elements(entries),
    ensures
        all_elements(elements(entries)),
    decreases entries.len(),
{
    if entries.len() > 0 {
        let init = entries.drop_last();
        assert forall|i: int| 0 <= i < init.len() implies is_element(
            #[trigger] init[i].payload,
        ) by {
            assert(init[i] == entries[i]);
        }
        lemma_elements_are_elements(init);
        lemma_decimal_is_element(entries.last().tag as nat);
        assert(is_element(entries.last().payload));
    }
}

/// Pushing N entries into an empty encoder and sealing it gives exactly the
/// JSON array of their 2N elements, in the order of the pushes. Until it is
/// sealed the buffer holds that array without its closing bracket.
pub proof fn lemma_batch_is_array(entries: Seq<Entry>)
    requires
        entries.len() > 0,
    ensures
        pushed_all(Seq::empty(), entries) == seq![OPEN] + join(elements(entries)),
        sealed(pushed_all(Seq::empty(), entries)) == Some(array(elements(entries))),
    decreases entries.len(),
{
    let init = entries.drop_last();
    let tag = decimal(entries.last().tag as nat);
    let payload = entries.last().payload;
    let open = seq![OPEN];
    lemma_join_push(elements(init), tag);
    lemma_join_push(elements(init).push(tag), payload);
    lemma_elements_alternate(init);
    if init.len() == 0 {
        assert(pushed_all(Seq::empty(), init) =~= Seq::<u8>::empty());
        assert(pushed_all(Seq::empty(), entries) =~= open + join(elements(entries)));
    } else {
        lemma_batch_is_array(init);
        assert(pushed_all(Seq::empty(), entries) =~= open + join(elements(entries)));
    }
    assert(sealed(pushed_all(Seq::empty(), entries)).unwrap() =~= array(elements(entries)));
}

/// Until it is sealed a batch is not complete JSON: a reader that has gone
/// through the buffer is still inside the array.
pub proof fn lemma_open_batch_is_open(entries: Seq<Entry>)
    requires
        entries.len() > 0,
        all_payloads_elements(entries),
    ensures
        place(pushed_all(Seq::empty(), entries), pushed_all(Seq::empty(), entries).len() as int)
            == deeper(top(), 1),
        !balanced(pushed_all(Seq::empty(), entries)),
        !is_element(pushed_all(Seq::empty(), entries)),
{
    lemma_batch_is_array(entries);
    lemma_elements_are_elements(entries);
    lemma_join_balanced(elements(entries));
    lemma_open_array(join(elements(entries)));
}

/// A sealed batch can be read in one way only. Whoever splits its bytes into
/// the elements of one array gets 2N of them and finds, for each entry in the
/// order of the pushes, the tag at 2i and the payload behind it.
pub proof fn lemma_batch_reads_back(entries: Seq<Entry>, parts: Seq<Seq<u8>>)
    requires
        entries.len() > 0,
        all_payloads_elements(entries),
        all_elements(parts),
        sealed(pushed_all(Seq::empty(), entries)) == Some(array(parts)),
    ensures
        parts == elements(entries),
        parts.len() == 2 * entries.len(),
        forall|i: int|
            0 <= i < entries.len() ==> {
                &&& parts[2 * i] == decimal((#[trigger] entries[i]).tag as nat)
                &&& parts[2 * i + 1] == entries[i].payload
            },
{
    lemma_batch_is_array(entries);
    lemma_elements_are_elements(entries);
    lemma_elements_alternate(entries);
    lemma_array_tells_elements(parts, elements(entries));
}

/// The bytes tell the batch: two rows of entries that seal to the same bytes
/// are the same row, entry for entry.
pub proof fn lemma_batch_tells_entries(ours: Seq<Entry>, theirs: Seq<Entry>)
    requires
        ours.len() > 0,
        theirs.len() > 0,
        all_payloads_elements(ours),
        all_payloads_elements(theirs),
        sealed(pushed_all(Seq::empty(), ours)) == sealed(pushed_all(Seq::empty(), theirs)),
    ensures
        ours == theirs,
{
    lemma_batch_is_array(theirs);
    lemma_elements_are_elements(theirs);
    lemma_batch_reads_back(ours, elements(theirs));
    lemma_elements_alternate(ours);
    lemma_elements_alternate(theirs);
    assert forall|i: int| 0 <= i < ours.len() implies ours[i] == theirs[i] by {
        assert(elements(ours)[2 * i] == decimal(ours[i].tag as nat));
        assert(elements(theirs)[2 * i] == decimal(theirs[i].tag as nat));
        lemma_decimal_tells_number(ours[i].tag as nat, theirs[i].tag as nat);
        assert(elements(ours)[2 * i + 1] == ours[i].payload);
        assert(elements(theirs)[2 * i + 1] == theirs[i].payload);
    }
    assert(ours =~= theirs);
}

/// An encoder that holds nothing has nothing to send. That is so right after
/// it was made, after each seal and after each clear, whatever was pushed
/// before.
pub proof fn lemma_empty_seals_to_nothing(encoder: FeedMessageSerializer)
    requires
        encoder@ == Seq::<u8>::empty(),
    ensures
        sealed(encoder@) is None,
{
}

/// After a push there is something to send, and it is not the empty array.
pub proof fn lemma_sealed_is_not_empty_array(buffered: Seq<u8>, tag: u8, payload: Seq<u8>)
    ensures
        sealed(pushed(buffered, tag, payload)) is Some,
        sealed(pushed(buffered, tag, payload)) != Some(array(Seq::empty())),
{
    let bytes = pushed(buffered, tag, payload).push(CLOSE);
    assert(array(Seq::empty()).len() == 2);
    assert(bytes.len() >= 3);
}

/// A sealed encoder is as good as new: it holds nothing, as a new one does,
/// and what an encoder does next depends on nothing but what it holds. So the
/// same pushes build the same batch in both.
pub proof fn lemma_sealed_is_fresh(
    used: FeedMessageSerializer,
    fresh: FeedMessageSerializer,
    entries: Seq<Entry>,
)
    requires
        used@ == Seq::<u8>::empty(),
        fresh@ == Seq::<u8>::empty(),
    ensures
        pushed_all(used@, entries) == pushed_all(fresh@, entries),
        sealed(pushed_all(used@, entries)) == sealed(pushed_all(fresh@, entries)),
{
}

} // verus!
