//! The storage engine's own types that the library holds, and what it
//! takes from the engine without proof.
//!
//! Everything here only computes in memory. Reading and writing a store is
//! left to the caller, who performs what the library decided and reports
//! back.

use vstd::prelude::*;

verus! {

/// One write of a batch: a key, with the value a set stores there, or
/// `None` for a delete.
pub type Op = (Seq<u8>, Option<Seq<u8>>);

/// `regolith::WriteBatch`, of which only [`batch_ops`] is known.
#[verifier::external_type_specification]
#[verifier::external_body]
pub struct ExWriteBatch(regolith::WriteBatch);

/// The sets and deletes that a [`regolith::WriteBatch`] holds for the
/// default column family, in the order they were added.
pub uninterp spec fn batch_ops(batch: regolith::WriteBatch) -> Seq<(Seq<u8>, Option<Seq<u8>>)>;

/// `WriteBatch::new` makes a batch that holds no operation.
pub assume_specification[ regolith::WriteBatch::new ]() -> (writes: regolith::WriteBatch)
    ensures
        batch_ops(writes) == Seq::<Op>::empty(),
;

/// `WriteBatch::put` adds one set behind the operations already there,
/// with a copy of the key and of the value.
pub assume_specification[ regolith::WriteBatch::put ](
    writes: &mut regolith::WriteBatch,
    key: &[u8],
    value: &[u8],
)
    ensures
        batch_ops(*final(writes)) == batch_ops(*old(writes)).push((key@, Some(value@))),
;

/// `WriteBatch::delete` adds one delete behind the operations already
/// there, with a copy of the key.
pub assume_specification[ regolith::WriteBatch::delete ](
    writes: &mut regolith::WriteBatch,
    key: &[u8],
)
    ensures
        batch_ops(*final(writes)) == batch_ops(*old(writes)).push((key@, None::<Seq<u8>>)),
;

/// `regolith::DbSlice`, of which only [`slice_bytes`] is known.
#[verifier::external_type_specification]
#[verifier::external_body]
pub struct ExDbSlice(regolith::DbSlice);

/// The bytes that a [`regolith::DbSlice`] lends. They do not change while
/// the slice is held.
pub uninterp spec fn slice_bytes(slice: regolith::DbSlice) -> Seq<u8>;

/// `DbSlice::as_slice` gives the bytes.
pub assume_specification[ regolith::DbSlice::as_slice ](slice: &regolith::DbSlice) -> (bytes: &[u8])
    ensures
        bytes@ == slice_bytes(*slice),
;

/// `DbSlice::len` gives how many bytes there are.
pub assume_specification[ regolith::DbSlice::len ](slice: &regolith::DbSlice) -> (len: usize)
    ensures
        len == slice_bytes(*slice).len(),
;

/// `DbSlice::is_empty` tells whether there are none.
pub assume_specification[ regolith::DbSlice::is_empty ](slice: &regolith::DbSlice) -> (empty: bool)
    ensures
        empty == (slice_bytes(*slice).len() == 0),
;

/// `DbSlice::clone` lends the same bytes once more.
pub assume_specification[ <regolith::DbSlice as Clone>::clone ](slice: &regolith::DbSlice) -> (copy:
    regolith::DbSlice)
    ensures
        slice_bytes(copy) == slice_bytes(*slice),
;

/// The bytes of a value that may be absent.
pub open spec fn value_bytes(value: Option<regolith::DbSlice>) -> Option<Seq<u8>> {
    match value {
        Some(slice) => Some(slice_bytes(slice)),
        None => None,
    }
}

/// A value that is there is its bytes, whole, and one that is not is none.
pub proof fn law_a_value_is_its_bytes(slice: regolith::DbSlice)
    ensures
        value_bytes(Some(slice)) == Some(slice_bytes(slice)),
        value_bytes(None) is None,
{
}

} // verus!
