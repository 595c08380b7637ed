//! Admission control of the bulk byte-streaming response.
//!
//! The response serves one slot per requested entry: nil when no stored
//! thumbnail fits the requested bounds, else the raw blob. A running
//! byte counter guards the stream; once it crosses the fixed ceiling
//! the stream aborts with a payload-too-large failure. The total is not
//! known up front, so this is admission control, not a pre-check.

use vstd::prelude::*;

use crate::err::Error;

verus! {

/// One requested entry: an id and the maximum width and height the
/// returned thumbnail may have.
pub struct BulkImageRequestEntry(pub u128, pub u32, pub u32);

/// What the stream does for one entry.
pub enum BulkSlotPlan {
    /// Emit a nil slot; the counter does not move.
    EmitNil,
    /// Emit the blob of this many bytes and advance the counter.
    EmitBlob(u64),
    /// The ceiling was crossed before this entry: abort the stream.
    Abort(Error),
}

/// Decides one slot of the stream and returns the new counter value.
///
/// An entry with no matching stored thumbnail yields a nil slot and
/// leaves the counter untouched; an entry whose file has `size` bytes
/// advances the counter by `size`; a counter already past the ceiling
/// aborts with `PayloadTooLarge` carrying the counter.
pub fn bulk_slot_step(counter: u64, ceiling: u64, found_size: Option<u64>) -> (r: (
    BulkSlotPlan,
    u64,
))
    requires
        found_size is Some ==> counter + found_size->0 <= u64::MAX,
    ensures
        counter > ceiling ==> r.0 is Abort && r.0->Abort_0 is PayloadTooLarge
            && r.0->Abort_0->PayloadTooLarge_0 == counter && r.1 == counter,
        counter <= ceiling && found_size is None ==> r.0 is EmitNil && r.1 == counter,
        counter <= ceiling && found_size is Some ==> r.0 is EmitBlob && r.0->EmitBlob_0
            == found_size->0 && r.1 == counter + found_size->0,
{
    if counter > ceiling {
        (BulkSlotPlan::Abort(Error::PayloadTooLarge(counter)), counter)
    } else {
        match found_size {
            None => (BulkSlotPlan::EmitNil, counter),
            Some(size) => (BulkSlotPlan::EmitBlob(size), counter + size),
        }
    }
}

} // verus!
