//! Compressed postings lists: the per-term set of document ids, stored as a
//! run-length-optimizable compressed bitmap. The bitmap compression itself
//! is an external capability; this module wraps the narrow interface the
//! build needs (build from ids, run-optimize once, serialize; deserialize
//! and membership for consumers) and names what it returns.

use vstd::prelude::*;

verus! {

/// Strictly ascending (hence duplicate-free) document ids.
pub open spec fn sorted_strict(docs: Seq<u32>) -> bool {
    forall|a: int, b: int| 0 <= a < b < docs.len() ==> docs[a] < docs[b]
}

/// The serialized, run-optimized compressed bitmap holding exactly the ids
/// `docs`: an external format stated only by name, as a function of the id
/// sequence alone, so that identical input reproduces identical bytes.
pub uninterp spec fn postings_bytes(docs: Seq<u32>) -> Seq<u8>;

#[verifier::external_type_specification]
#[verifier::external_body]
pub struct ExBitmap(croaring::Bitmap);

/// The set of document ids a compressed bitmap holds.
pub uninterp spec fn bitmap_docs(b: croaring::Bitmap) -> Set<u32>;

/// Relies on croaring's `Bitmap::of`, `Bitmap::run_optimize` and
/// `Bitmap::serialize` in the portable format: building a bitmap by
/// additions alone, run-optimizing it once after all additions and then
/// serializing it yields bytes that depend on the added ids alone.
#[verifier::external_body]
pub(crate) fn compress_postings(docs: &Vec<u32>) -> (r: Vec<u8>)
    requires
        sorted_strict(docs@),
    ensures
        r@ == postings_bytes(docs@),
{
    let mut bitmap = croaring::Bitmap::of(docs.as_slice());
    bitmap.run_optimize();
    bitmap.serialize::<croaring::Portable>()
}

/// Relies on croaring's `Bitmap::try_deserialize` (portable format): bytes
/// produced by serializing a bitmap deserialize to a bitmap holding the
/// same ids.
#[verifier::external_body]
fn decode_postings(bytes: &Vec<u8>) -> (r: Option<croaring::Bitmap>)
    ensures
        forall|docs: Seq<u32>|
            sorted_strict(docs) && bytes@ == #[trigger] postings_bytes(docs) ==> match r {
                Some(b) => bitmap_docs(b) == docs.to_set(),
                None => false,
            },
{
    croaring::Bitmap::try_deserialize::<croaring::Portable>(bytes.as_slice())
}

/// Relies on croaring's `Bitmap::contains`.
#[verifier::external_body]
fn bitmap_contains(b: &croaring::Bitmap, doc: u32) -> (r: bool)
    ensures
        r == bitmap_docs(*b).contains(doc),
{
    b.contains(doc)
}

/// Membership test against a serialized compressed postings list: for the
/// bytes emitted for a document-id sequence, reports exactly whether `doc`
/// is one of those ids.
pub fn postings_contains(bytes: &Vec<u8>, doc: u32) -> (r: Option<bool>)
    ensures
        forall|docs: Seq<u32>|
            sorted_strict(docs) && bytes@ == #[trigger] postings_bytes(docs) ==> r == Some(
                docs.to_set().contains(doc),
            ),
{
    match decode_postings(bytes) {
        Some(b) => {
            let c = bitmap_contains(&b, doc);
            Some(c)
        },
        None => None,
    }
}

} // verus!
