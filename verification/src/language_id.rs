//! The identity of a loaded language, which the instances of it in individual
//! stores share.

use std::sync::atomic::{AtomicU32, Ordering};
use std::sync::Arc;

use vstd::prelude::*;

use crate::engine::LanguageWasmInstance;
use crate::records::is_instance_of;

verus! {

/// The shared identity of a loaded language. It counts how often the language
/// was deleted, which is once, when the last reference to it is released.
pub struct LanguageId {
    pub is_deleted: AtomicU32,
}

/// The value that a counter was made with.
pub uninterp spec fn first_count(counter: AtomicU32) -> u32;

/// Whether reading a counter can give `value`.
pub uninterp spec fn can_read(counter: AtomicU32, value: u32) -> bool;

/// Whether counting a counter down can find it at `previous`.
pub uninterp spec fn can_count_down(counter: AtomicU32, previous: u32) -> bool;

/// Whether counting a counter up can find it at `previous`.
pub uninterp spec fn can_count_up(counter: AtomicU32, previous: u32) -> bool;

/// `AtomicU32::new`: a counter that starts at `value`. It is a new one: it is not
/// that of any language that has a record by then.
#[verifier::external_body]
pub(crate) fn new_counter(value: u32, _records: &[LanguageWasmInstance]) -> (counter: AtomicU32)
    ensures
        first_count(counter) == value,
        forall|i: int|
            0 <= i < _records@.len() ==> (#[trigger] _records@[i]).language_id.is_deleted
                != counter,
{
    AtomicU32::new(value)
}

/// `AtomicU32::load`: the value that the counter has at that moment. Other
/// threads may change it before and after.
#[verifier::external_body]
fn read_counter(counter: &AtomicU32) -> (value: u32)
    ensures
        can_read(*counter, value),
{
    counter.load(Ordering::Relaxed)
}

/// `AtomicU32::fetch_sub` of one: the value that the counter has until that
/// moment. Other threads may change it before and after.
#[verifier::external_body]
pub(crate) fn count_down(counter: &AtomicU32) -> (previous: u32)
    ensures
        can_count_down(*counter, previous),
{
    counter.fetch_sub(1, Ordering::SeqCst)
}

/// `AtomicU32::fetch_add` of one: the value that the counter has until that
/// moment. Other threads may change it before and after.
#[verifier::external_body]
pub(crate) fn count_up(counter: &AtomicU32) -> (previous: u32)
    ensures
        can_count_up(*counter, previous),
{
    counter.fetch_add(1, Ordering::SeqCst)
}

/// Whether a counter was counted up.
pub open spec fn counted_up(counter: AtomicU32) -> bool {
    exists|previous: u32| #[trigger] can_count_up(counter, previous)
}

/// Whether a language can be found deleted, or not deleted.
pub open spec fn found_deleted(id: LanguageId, deleted: bool) -> bool {
    exists|count: u32| #[trigger] can_read(id.is_deleted, count) && deleted == (count != 0)
}

/// Whether a language with that count is deleted.
pub fn counts_as_deleted(count: u32) -> (deleted: bool)
    ensures
        deleted == (count != 0),
{
    count != 0
}

/// Whether a count that stood at `previous` goes to nothing when one reference
/// is released.
pub fn was_last_reference(previous: u32) -> (last: bool)
    ensures
        last == (previous == 1),
{
    previous == 1
}

impl LanguageId {
    /// A new identity, which is not deleted: its count starts at zero. None of
    /// the given records has it.
    pub fn new(records: &[LanguageWasmInstance]) -> (id: Arc<LanguageId>)
        ensures
            first_count(id.is_deleted) == 0,
            is_instance_of(records@, id, None),
    {
        Arc::new(LanguageId { is_deleted: new_counter(0, records) })
    }

    /// Whether the language is deleted by now. Another thread may delete it at
    /// any time.
    pub fn is_deleted(&self) -> (deleted: bool)
        ensures
            found_deleted(*self, deleted),
    {
        counts_as_deleted(read_counter(&self.is_deleted))
    }

    /// Marks the language as deleted, for every store that has a record of it:
    /// counts up what the records share.
    pub fn delete(&self)
        ensures
            counted_up(self.is_deleted),
    {
        let _ = count_up(&self.is_deleted);
    }
}

/// `Arc::ptr_eq`: whether two handles share one identity. An identity is where
/// its counter is, not what the counter says, so handles are equal exactly
/// where they share.
#[verifier::external_body]
pub(crate) fn same_language(a: &Arc<LanguageId>, b: &Arc<LanguageId>) -> (same: bool)
    ensures
        same == (a == b),
{
    Arc::ptr_eq(a, b)
}

/// `Arc::clone`: another handle to the same identity.
#[verifier::external_body]
pub(crate) fn share(id: &Arc<LanguageId>) -> (shared: Arc<LanguageId>)
    ensures
        shared == *id,
{
    Arc::clone(id)
}

} // verus!
