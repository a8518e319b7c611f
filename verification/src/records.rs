//! The records of the languages that are instantiated in a store.

use std::sync::Arc;

use vstd::prelude::*;

use crate::copy_out::InstanceAddresses;
use crate::engine::{invalid_entry_message, one_record_each, LanguageWasmInstance, StoreInner};
use crate::error::{WasmResult, INSTANTIATE};
use crate::language_id::{found_deleted, same_language, LanguageId};

verus! {

/// The items that are not marked, in their order.
pub open spec fn retained<T>(items: Seq<T>, marked: Seq<bool>) -> Seq<T>
    decreases items.len(),
{
    if items.len() == 0 {
        Seq::empty()
    } else {
        let rest = retained(items.drop_last(), marked.drop_last());
        if marked.last() {
            rest
        } else {
            rest.push(items.last())
        }
    }
}

/// How many items are not marked.
pub open spec fn unmarked(marked: Seq<bool>) -> nat
    decreases marked.len(),
{
    if marked.len() == 0 {
        0
    } else {
        unmarked(marked.drop_last()) + if marked.last() {
            0nat
        } else {
            1nat
        }
    }
}

/// Whether the item at `index` stays, behind as many as stay before it.
pub open spec fn stays<T>(items: Seq<T>, marked: Seq<bool>, index: int) -> bool {
    let place = unmarked(marked.take(index));
    place < unmarked(marked) && retained(items, marked)[place as int] == items[index]
}

/// An item that is not marked stays, behind as many as stay before it, and
/// nothing else stays.
pub proof fn retained_are_the_unmarked<T>(items: Seq<T>, marked: Seq<bool>)
    requires
        items.len() == marked.len(),
    ensures
        retained(items, marked).len() == unmarked(marked),
        forall|i: int| 0 <= i < items.len() && !marked[i] ==> #[trigger] stays(items, marked, i),
    decreases items.len(),
{
    if items.len() > 0 {
        let fewer = items.drop_last();
        let fewer_marked = marked.drop_last();
        retained_are_the_unmarked(fewer, fewer_marked);
        assert forall|i: int| 0 <= i < items.len() && !marked[i] implies #[trigger] stays(
            items,
            marked,
            i,
        ) by {
            if i < fewer.len() {
                assert(marked.take(i) =~= fewer_marked.take(i));
                assert(stays(fewer, fewer_marked, i));
            } else {
                assert(marked.take(i) =~= fewer_marked);
            }
        }
    }
}

/// No more are unmarked than there are.
pub proof fn unmarked_are_not_more(marked: Seq<bool>)
    ensures
        unmarked(marked) <= marked.len(),
    decreases marked.len(),
{
    if marked.len() > 0 {
        unmarked_are_not_more(marked.drop_last());
    }
}

/// What stays was not marked.
pub proof fn what_stays_was_there<T>(items: Seq<T>, marked: Seq<bool>, place: int) -> (index: int)
    requires
        items.len() == marked.len(),
        0 <= place < retained(items, marked).len(),
    ensures
        0 <= index < items.len(),
        !marked[index],
        retained(items, marked)[place] == items[index],
    decreases items.len(),
{
    let rest = retained(items.drop_last(), marked.drop_last());
    if place < rest.len() {
        what_stays_was_there(items.drop_last(), marked.drop_last(), place)
    } else {
        items.len() - 1
    }
}

/// Where nothing is marked, everything stays.
pub proof fn unmarked_items_all_stay<T>(items: Seq<T>, marked: Seq<bool>)
    requires
        items.len() == marked.len(),
        forall|i: int| 0 <= i < marked.len() ==> !#[trigger] marked[i],
    ensures
        retained(items, marked) == items,
        unmarked(marked) == items.len(),
    decreases items.len(),
{
    if items.len() > 0 {
        unmarked_items_all_stay(items.drop_last(), marked.drop_last());
        assert(items =~= items.drop_last().push(items.last()));
    }
}

/// Removes the marked items.
pub fn retain_unmarked(items: &mut Vec<LanguageWasmInstance>, marked: &[bool])
    requires
        old(items)@.len() == marked@.len(),
    ensures
        final(items)@ == retained(old(items)@, marked@),
{
    let ghost all = items@;
    let mut kept: usize = 0;
    let mut seen: usize = 0;
    assert(retained(all.take(0), marked@.take(0)) + all.skip(0) =~= all);
    while seen < marked.len()
        invariant
            seen <= marked@.len(),
            all.len() == marked@.len(),
            kept <= seen,
            kept == retained(all.take(seen as int), marked@.take(seen as int)).len(),
            items@ == retained(all.take(seen as int), marked@.take(seen as int)) + all.skip(
                seen as int,
            ),
        decreases marked@.len() - seen,
    {
        let ghost before = items@;
        proof {
            assert(all.take(seen + 1).drop_last() =~= all.take(seen as int));
            assert(marked@.take(seen + 1).drop_last() =~= marked@.take(seen as int));
        }
        if marked[seen] {
            items.remove(kept);
        } else {
            kept += 1;
        }
        assert(items@ =~= retained(all.take(seen + 1), marked@.take(seen + 1)) + all.skip(
            seen + 1,
        ));
        seen += 1;
    }
    assert(all.take(seen as int) =~= all);
    assert(marked@.take(seen as int) =~= marked@);
    assert(items@ =~= retained(all, marked@));
}

/// Whether `deleted` says of each instance whether its language was found
/// deleted.
pub open spec fn are_findings(instances: Seq<LanguageWasmInstance>, deleted: Seq<bool>) -> bool {
    &&& deleted.len() == instances.len()
    &&& forall|i: int|
        0 <= i < deleted.len() ==> found_deleted(
            *instances[i].language_id,
            #[trigger] deleted[i],
        )
}

/// Where an item goes when the marked ones are removed: behind as many as stay
/// before it, or nowhere where it is marked itself.
pub open spec fn place_of(index: Option<usize>, marked: Seq<bool>) -> Option<usize> {
    match index {
        Some(index) if index < marked.len() && !marked[index as int] => Some(
            unmarked(marked.take(index as int)) as usize,
        ),
        _ => None,
    }
}

/// Finds where an item goes when the marked ones are removed.
pub fn find_place(index: Option<usize>, marked: &[bool]) -> (place: Option<usize>)
    ensures
        place == place_of(index, marked@),
{
    match index {
        Some(index) => if index < marked.len() && !marked[index] {
            let before = vstd::slice::slice_subrange(marked, 0, index);
            assert(before@ =~= marked@.take(index as int));
            Some(count_unmarked(before))
        } else {
            None
        },
        None => None,
    }
}

/// Whether the instances that were found to be of deleted languages were
/// removed from `instances`, and the current one moved with its record.
pub open spec fn cleared(
    before: StoreInner,
    deleted: Seq<bool>,
    instances: Seq<LanguageWasmInstance>,
    current: Option<usize>,
) -> bool {
    &&& are_findings(before.instances@, deleted)
    &&& instances == retained(before.instances@, deleted)
    &&& current == place_of(before.current_instance, deleted)
}

/// Whether just the instances of languages that were found deleted were
/// removed.
pub open spec fn collected(before: StoreInner, after: StoreInner) -> bool {
    &&& after == (StoreInner {
        instances: after.instances,
        current_instance: after.current_instance,
        ..before
    })
    &&& exists|deleted: Seq<bool>|
        #[trigger] cleared(before, deleted, after.instances@, after.current_instance)
}

/// Which instances are of languages that are deleted by now.
fn deleted_instances(inner: &StoreInner) -> (deleted: Vec<bool>)
    ensures
        are_findings(inner.instances@, deleted@),
{
    let mut deleted: Vec<bool> = Vec::new();
    while deleted.len() < inner.instances.len()
        invariant
            deleted@.len() <= inner.instances@.len(),
            forall|i: int|
                0 <= i < deleted@.len() ==> found_deleted(
                    *inner.instances@[i].language_id,
                    #[trigger] deleted@[i],
                ),
        decreases inner.instances@.len() - deleted@.len(),
    {
        deleted.push(inner.instances[deleted.len()].language_id.is_deleted());
    }
    deleted
}

/// Clears out the instances of languages that have been deleted. The language
/// that is being parsed with stays the current one, unless it is deleted itself.
pub fn gc_deleted_instances(inner: &mut StoreInner)
    requires
        old(inner).wf(),
    ensures
        final(inner).wf(),
        collected(*old(inner), *final(inner)),
{
    let deleted = deleted_instances(inner);
    retain_unmarked(&mut inner.instances, deleted.as_slice());
    inner.current_instance = find_place(inner.current_instance, deleted.as_slice());
    proof {
        retained_are_the_unmarked(old(inner).instances@, deleted@);
        if let Some(index) = old(inner).current_instance {
            if !deleted@[index as int] {
                assert(stays(old(inner).instances@, deleted@, index as int));
            }
        }
        assert(cleared(
            *old(inner),
            deleted@,
            inner.instances@,
            inner.current_instance,
        ));
        retained_belong(old(inner).instances@, deleted@, *old(inner));
        retained_have_one_record_each(old(inner).instances@, deleted@);
    }
}

/// What stays belongs to the store as before.
proof fn retained_belong(
    instances: Seq<LanguageWasmInstance>,
    deleted: Seq<bool>,
    inner: StoreInner,
)
    requires
        instances.len() == deleted.len(),
        forall|i: int|
            0 <= i < instances.len() ==> (#[trigger] instances[i]).belongs_to(inner.held()),
    ensures
        forall|i: int|
            0 <= i < retained(instances, deleted).len() ==> (#[trigger] retained(
                instances,
                deleted,
            )[i]).belongs_to(inner.held()),
    decreases instances.len(),
{
    if instances.len() > 0 {
        let fewer = instances.drop_last();
        assert forall|i: int| 0 <= i < fewer.len() implies (#[trigger] fewer[i]).belongs_to(
            inner.held(),
        ) by {
            assert(fewer[i] == instances[i]);
        }
        retained_belong(fewer, deleted.drop_last(), inner);
        let rest = retained(fewer, deleted.drop_last());
        let all = retained(instances, deleted);
        assert forall|i: int| 0 <= i < all.len() implies (#[trigger] all[i]).belongs_to(
            inner.held(),
        ) by {
            if i < rest.len() {
                assert(all[i] == rest[i]);
            } else {
                assert(all[i] == instances[instances.len() - 1]);
            }
        }
    }
}

/// Where no language had two records, none has two among what stays.
pub proof fn retained_have_one_record_each(
    instances: Seq<LanguageWasmInstance>,
    deleted: Seq<bool>,
)
    requires
        instances.len() == deleted.len(),
        one_record_each(instances),
    ensures
        one_record_each(retained(instances, deleted)),
    decreases instances.len(),
{
    if instances.len() > 0 {
        let fewer = instances.drop_last();
        let fewer_deleted = deleted.drop_last();
        retained_have_one_record_each(fewer, fewer_deleted);
        let rest = retained(fewer, fewer_deleted);
        let all = retained(instances, deleted);
        assert forall|i: int, j: int| 0 <= i < j < all.len() implies (
        #[trigger] all[i]).language_id != (#[trigger] all[j]).language_id by {
            assert(all[i] == rest[i]);
            if j < rest.len() {
                assert(all[j] == rest[j]);
            } else {
                let index = what_stays_was_there(fewer, fewer_deleted, i);
                assert(all[j] == instances[instances.len() - 1]);
                assert(rest[i] == instances[index]);
            }
        }
    }
}

/// How many of the marks are not set.
pub fn count_unmarked(marked: &[bool]) -> (count: usize)
    ensures
        count == unmarked(marked@),
{
    let mut count: usize = 0;
    let mut i: usize = 0;
    while i < marked.len()
        invariant
            i <= marked@.len(),
            count <= i,
            count == unmarked(marked@.take(i as int)),
        decreases marked@.len() - i,
    {
        assert(marked@.take(i + 1).drop_last() =~= marked@.take(i as int));
        if !marked[i] {
            count += 1;
        }
        i += 1;
    }
    assert(marked@.take(i as int) =~= marked@);
    count
}

/// Whether so many instances are of languages that were not found deleted.
pub open spec fn languages_counted(instances: Seq<LanguageWasmInstance>, count: usize) -> bool {
    exists|deleted: Seq<bool>|
        are_findings(instances, deleted) && count == #[trigger] unmarked(deleted)
}

/// How many instances there are of languages that are not found deleted.
pub fn count_languages(inner: &StoreInner) -> (count: usize)
    ensures
        exists|deleted: Seq<bool>|
            are_findings(inner.instances@, deleted) && count == #[trigger] unmarked(deleted),
        languages_counted(inner.instances@, count),
{
    let deleted = deleted_instances(inner);
    count_unmarked(deleted.as_slice())
}

/// Whether `index` is that of the first instance of a language, or nothing
/// where there is none.
pub open spec fn is_instance_of(
    instances: Seq<LanguageWasmInstance>,
    id: Arc<LanguageId>,
    index: Option<usize>,
) -> bool {
    match index {
        Some(index) => {
            &&& index < instances.len()
            &&& instances[index as int].language_id == id
            &&& forall|i: int| 0 <= i < index ==> (#[trigger] instances[i]).language_id != id
        },
        None => forall|i: int|
            0 <= i < instances.len() ==> (#[trigger] instances[i]).language_id != id,
    }
}

/// Finds the instance of a language.
pub fn find_instance(instances: &[LanguageWasmInstance], id: &Arc<LanguageId>) -> (index: Option<
    usize,
>)
    ensures
        is_instance_of(instances@, *id, index),
{
    let mut i: usize = 0;
    while i < instances.len()
        invariant
            i <= instances@.len(),
            forall|k: int| 0 <= k < i ==> (#[trigger] instances@[k]).language_id != *id,
        decreases instances@.len() - i,
    {
        if same_language(&instances[i].language_id, id) {
            return Some(i);
        }
        i += 1;
    }
    None
}

/// The function table entry at `index`, of which there must be one.
pub open spec fn entry_at(entries: Seq<Option<wasmtime::Func>>, index: i32) -> Option<
    wasmtime::Func,
> {
    entries[index as int]
}

/// Whether there is a function table entry at `index`.
pub open spec fn has_entry(entries: Seq<Option<wasmtime::Func>>, index: i32) -> bool {
    0 <= index < entries.len()
}

/// The first index, in the order of looking them up, without a function table
/// entry.
pub open spec fn missing_entry(
    entries: Seq<Option<wasmtime::Func>>,
    addresses: InstanceAddresses,
) -> Option<i32> {
    if !has_entry(entries, addresses.lex_fn) {
        Some(addresses.lex_fn)
    } else if !has_entry(entries, addresses.keyword_lex_fn) {
        Some(addresses.keyword_lex_fn)
    } else if !has_entry(entries, addresses.scanner_create) {
        Some(addresses.scanner_create)
    } else if !has_entry(entries, addresses.scanner_destroy) {
        Some(addresses.scanner_destroy)
    } else if !has_entry(entries, addresses.scanner_serialize) {
        Some(addresses.scanner_serialize)
    } else if !has_entry(entries, addresses.scanner_deserialize) {
        Some(addresses.scanner_deserialize)
    } else if !has_entry(entries, addresses.scanner_scan) {
        Some(addresses.scanner_scan)
    } else {
        None
    }
}

/// The record of an instance, whose functions are among `entries`.
pub open spec fn instance_record(
    entries: Seq<Option<wasmtime::Func>>,
    instance: wasmtime::Instance,
    language_id: Arc<LanguageId>,
    addresses: InstanceAddresses,
) -> LanguageWasmInstance {
    LanguageWasmInstance {
        language_id,
        instance,
        external_states_address: addresses.external_states_address,
        lex_main_fn: entry_at(entries, addresses.lex_fn),
        lex_keyword_fn: entry_at(entries, addresses.keyword_lex_fn),
        scanner_create_fn: entry_at(entries, addresses.scanner_create),
        scanner_destroy_fn: entry_at(entries, addresses.scanner_destroy),
        scanner_serialize_fn: entry_at(entries, addresses.scanner_serialize),
        scanner_deserialize_fn: entry_at(entries, addresses.scanner_deserialize),
        scanner_scan_fn: entry_at(entries, addresses.scanner_scan),
    }
}

/// Whether there is no record of an instance for want of a function table
/// entry, the first that is missing.
pub open spec fn record_refused(
    entries: Seq<Option<wasmtime::Func>>,
    addresses: InstanceAddresses,
    kind: u32,
    message: Seq<char>,
) -> bool {
    &&& missing_entry(entries, addresses) matches Some(index) && message == invalid_entry_message(
        index,
    )
    &&& kind == INSTANTIATE
}

/// Makes the record of an instance: takes its seven functions from the shared
/// function table.
pub fn make_record(
    inner: &mut StoreInner,
    instance: wasmtime::Instance,
    language_id: Arc<LanguageId>,
    addresses: &InstanceAddresses,
) -> (result: WasmResult<LanguageWasmInstance>)
    requires
        old(inner).wf(),
        old(inner).held().instances.contains_key(instance),
    ensures
        final(inner).wf(),
        final(inner).held() == old(inner).held(),
        *final(inner) == (StoreInner { store: final(inner).store, ..*old(inner) }),
        match result {
            Ok(record) => {
                &&& missing_entry(old(inner).entries(), *addresses) is None
                &&& record == instance_record(
                    old(inner).entries(),
                    instance,
                    language_id,
                    *addresses,
                )
                &&& record.belongs_to(final(inner).held())
            },
            Err((kind, message)) => record_refused(
                old(inner).entries(),
                *addresses,
                kind,
                message@,
            ),
        },
{
    let lex_main_fn = match inner.get_function(addresses.lex_fn) {
        Ok(func) => func,
        Err(failure) => {
            return Err(failure);
        },
    };
    let lex_keyword_fn = match inner.get_function(addresses.keyword_lex_fn) {
        Ok(func) => func,
        Err(failure) => {
            return Err(failure);
        },
    };
    let scanner_create_fn = match inner.get_function(addresses.scanner_create) {
        Ok(func) => func,
        Err(failure) => {
            return Err(failure);
        },
    };
    let scanner_destroy_fn = match inner.get_function(addresses.scanner_destroy) {
        Ok(func) => func,
        Err(failure) => {
            return Err(failure);
        },
    };
    let scanner_serialize_fn = match inner.get_function(addresses.scanner_serialize) {
        Ok(func) => func,
        Err(failure) => {
            return Err(failure);
        },
    };
    let scanner_deserialize_fn = match inner.get_function(addresses.scanner_deserialize) {
        Ok(func) => func,
        Err(failure) => {
            return Err(failure);
        },
    };
    let scanner_scan_fn = match inner.get_function(addresses.scanner_scan) {
        Ok(func) => func,
        Err(failure) => {
            return Err(failure);
        },
    };
    Ok(
        LanguageWasmInstance {
            language_id,
            instance,
            external_states_address: addresses.external_states_address,
            lex_main_fn,
            lex_keyword_fn,
            scanner_create_fn,
            scanner_destroy_fn,
            scanner_serialize_fn,
            scanner_deserialize_fn,
            scanner_scan_fn,
        },
    )
}

/// Records an instance of a language that has none, behind those that there
/// are.
pub fn cache_instance(
    inner: &mut StoreInner,
    instance: wasmtime::Instance,
    language_id: Arc<LanguageId>,
    addresses: &InstanceAddresses,
) -> (result: WasmResult<()>)
    requires
        old(inner).wf(),
        old(inner).held().instances.contains_key(instance),
        is_instance_of(old(inner).instances@, language_id, None),
    ensures
        final(inner).wf(),
        final(inner).held() == old(inner).held(),
        *final(inner) == (StoreInner {
            store: final(inner).store,
            instances: final(inner).instances,
            ..*old(inner)
        }),
        match result {
            Ok(_) => {
                &&& missing_entry(old(inner).entries(), *addresses) is None
                &&& final(inner).instances@ == old(inner).instances@.push(
                    instance_record(old(inner).entries(), instance, language_id, *addresses),
                )
            },
            Err((kind, message)) => {
                &&& record_refused(old(inner).entries(), *addresses, kind, message@)
                &&& final(inner).instances == old(inner).instances
            },
        },
{
    match make_record(inner, instance, language_id, addresses) {
        Ok(record) => {
            inner.instances.push(record);
            Ok(())
        },
        Err(failure) => Err(failure),
    }
}

} // verus!
