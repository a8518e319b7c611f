//! What becomes of the records of a store: which stay, how they are counted, and
//! how a language is found among them.

use std::sync::Arc;

use vstd::prelude::*;

use crate::callback_laws::{reads_as, signed_decimals_read_as_the_number};
use crate::copy_out::{instance_addresses, InstanceAddresses};
use crate::dylink::DylinkInfo;
use crate::engine::{invalid_entry_message, LanguageWasmInstance, StoreInner};
use crate::language_id::{can_read, found_deleted, LanguageId};
use crate::laws::loaded_behind_what_stays;
use crate::layout::{language_at, LANGUAGE_SIZE};
use crate::load::{language_added, language_loaded, language_used, WasmLanguage};
use crate::memory::in_memory;
use crate::module::{module_instantiated, module_linked, module_refused};
use crate::reading::{pointer, reads_what_stands};
use crate::records::{
    are_findings, cleared, collected, has_entry, instance_record, languages_counted, missing_entry,
    record_refused, retained, retained_are_the_unmarked, stays, unmarked, unmarked_are_not_more,
};
use crate::runtime::StoreContents;
use crate::text::signed_decimal;

verus! {

/// Whether a language was found deleted or not: it counts as deleted just where
/// its counter was read as more than nothing.
pub open spec fn was_found(id: LanguageId, deleted: bool) -> bool {
    exists|count: u32| #[trigger] can_read(id.is_deleted, count) && (deleted <==> count > 0)
}

/// A language is found deleted just where its counter is more than nothing.
pub proof fn deleted_languages_have_a_count(id: LanguageId, deleted: bool)
    requires
        found_deleted(id, deleted),
    ensures
        was_found(id, deleted),
{
    let count = choose|count: u32|
        #[trigger] can_read(id.is_deleted, count) && deleted == (count != 0);
    assert(can_read(id.is_deleted, count));
}

/// Whether `kept` are the records at `places`, which are all those of languages
/// that were not found deleted, in their order.
pub open spec fn are_kept(
    records: Seq<LanguageWasmInstance>,
    deleted: Seq<bool>,
    places: Seq<int>,
    kept: Seq<LanguageWasmInstance>,
) -> bool {
    &&& deleted.len() == records.len()
    &&& forall|i: int|
        0 <= i < records.len() ==> was_found(*records[i].language_id, #[trigger] deleted[i])
    &&& places.len() == kept.len()
    &&& forall|k: int|
        0 <= k < places.len() ==> {
            &&& 0 <= #[trigger] places[k] < records.len()
            &&& !deleted[places[k]]
            &&& kept[k] == records[places[k]]
        }
    &&& forall|k: int, l: int|
        0 <= k < l < places.len() ==> #[trigger] places[k] < #[trigger] places[l]
    &&& forall|i: int| 0 <= i < records.len() && !#[trigger] deleted[i] ==> places.contains(i)
}

/// Whether the current record is the one that it was, at its new place. There is
/// none where it went, or where there was none.
pub open spec fn is_still_current(
    before: Option<usize>,
    deleted: Seq<bool>,
    places: Seq<int>,
    after: Option<usize>,
) -> bool {
    match after {
        Some(place) => {
            &&& place < places.len()
            &&& before matches Some(index) && places[place as int] == index
        },
        None => before matches Some(index) ==> index >= deleted.len() || deleted[index as int],
    }
}

/// The numbers up to `count`.
spec fn numbers(count: nat) -> Seq<int> {
    Seq::new(count, |i: int| i)
}

/// Where the items that stay stood: in their order, and not marked.
proof fn places_of_what_stays<T>(items: Seq<T>, marked: Seq<bool>)
    requires
        items.len() == marked.len(),
    ensures
        ({
            let places = retained(numbers(items.len()), marked);
            &&& places.len() == retained(items, marked).len()
            &&& forall|k: int|
                0 <= k < places.len() ==> {
                    &&& 0 <= #[trigger] places[k] < items.len()
                    &&& !marked[places[k]]
                    &&& retained(items, marked)[k] == items[places[k]]
                }
            &&& forall|k: int, l: int|
                0 <= k < l < places.len() ==> #[trigger] places[k] < #[trigger] places[l]
        }),
    decreases items.len(),
{
    if items.len() > 0 {
        let last = items.len() - 1;
        let fewer = items.drop_last();
        let fewer_marked = marked.drop_last();
        assert(numbers(items.len()).drop_last() =~= numbers(fewer.len()));
        assert(numbers(items.len()).last() == last);
        places_of_what_stays(fewer, fewer_marked);
        let fewer_places = retained(numbers(fewer.len()), fewer_marked);
        let places = retained(numbers(items.len()), marked);
        let kept = retained(items, marked);
        assert forall|k: int| 0 <= k < places.len() implies {
            &&& 0 <= #[trigger] places[k] < items.len()
            &&& !marked[places[k]]
            &&& kept[k] == items[places[k]]
        } by {
            if k < fewer_places.len() {
                assert(places[k] == fewer_places[k]);
                assert(fewer[places[k]] == items[places[k]]);
                assert(fewer_marked[places[k]] == marked[places[k]]);
            }
        }
        assert forall|k: int, l: int| 0 <= k < l < places.len() implies #[trigger] places[k]
            < #[trigger] places[l] by {
            assert(places[k] == fewer_places[k]);
            if l < fewer_places.len() {
                assert(places[l] == fewer_places[l]);
            }
        }
    }
}

/// Clearing keeps the records of the languages that were not found deleted, in
/// their order, and the current one is still current.
proof fn cleared_records_are_kept_in_order(
    before: StoreInner,
    deleted: Seq<bool>,
    kept: Seq<LanguageWasmInstance>,
    current: Option<usize>,
) -> (places: Seq<int>)
    requires
        cleared(before, deleted, kept, current),
    ensures
        are_kept(before.instances@, deleted, places, kept),
        is_still_current(before.current_instance, deleted, places, current),
{
    let records = before.instances@;
    let all = numbers(records.len());
    let places = retained(all, deleted);
    places_of_what_stays(records, deleted);
    retained_are_the_unmarked(all, deleted);
    assert forall|i: int| 0 <= i < records.len() implies was_found(
        *records[i].language_id,
        #[trigger] deleted[i],
    ) by {
        deleted_languages_have_a_count(*records[i].language_id, deleted[i]);
    }
    assert forall|i: int| 0 <= i < records.len() && !#[trigger] deleted[i] implies places.contains(
        i,
    ) by {
        assert(stays(all, deleted, i));
        assert(places[unmarked(deleted.take(i)) as int] == i);
    }
    if let Some(index) = before.current_instance {
        if index < deleted.len() && !deleted[index as int] {
            assert(stays(all, deleted, index as int));
            unmarked_are_not_more(deleted.take(index as int));
        }
    }
    places
}

/// Clearing out removes the records of the languages that are found deleted, and
/// no others. The rest stay in their order, the one that is being parsed with is
/// still current, and nothing else in the store changes.
pub proof fn clearing_removes_just_the_deleted(before: StoreInner, after: StoreInner)
    requires
        collected(before, after),
    ensures
        after == (StoreInner {
            instances: after.instances,
            current_instance: after.current_instance,
            ..before
        }),
        exists|deleted: Seq<bool>, places: Seq<int>|
            {
                &&& #[trigger] are_kept(before.instances@, deleted, places, after.instances@)
                &&& is_still_current(
                    before.current_instance,
                    deleted,
                    places,
                    after.current_instance,
                )
            },
{
    let deleted = choose|deleted: Seq<bool>|
        #[trigger] cleared(before, deleted, after.instances@, after.current_instance);
    let places = cleared_records_are_kept_in_order(
        before,
        deleted,
        after.instances@,
        after.current_instance,
    );
    assert(are_kept(before.instances@, deleted, places, after.instances@));
}

/// Loading a language removes the records of the languages that are found
/// deleted, and no others. The rest stay in their order, and the one that is
/// being parsed with is still current. The new record is the last.
pub proof fn loading_removes_just_the_deleted(
    before: StoreInner,
    language_name: Seq<char>,
    wasm: Seq<u8>,
    after: StoreInner,
    language: WasmLanguage,
)
    requires
        language_loaded(before, language_name, wasm, after, language),
    ensures
        after.instances@.len() > 0,
        after.instances@.last().language_id == language.language_id,
        exists|deleted: Seq<bool>, places: Seq<int>|
            {
                &&& #[trigger] are_kept(
                    before.instances@,
                    deleted,
                    places,
                    after.instances@.drop_last(),
                )
                &&& is_still_current(
                    before.current_instance,
                    deleted,
                    places,
                    after.current_instance,
                )
            },
{
    let (deleted, kept) = loaded_behind_what_stays(
        before,
        language_name,
        wasm,
        after,
        language,
    );
    let places = cleared_records_are_kept_in_order(before, deleted, kept, after.current_instance);
    assert(are_kept(before.instances@, deleted, places, after.instances@.drop_last()));
}

/// Whether so many records are of languages that were not found deleted.
pub open spec fn is_count(
    records: Seq<LanguageWasmInstance>,
    deleted: Seq<bool>,
    count: int,
) -> bool {
    &&& deleted.len() == records.len()
    &&& forall|i: int|
        0 <= i < records.len() ==> was_found(*records[i].language_id, #[trigger] deleted[i])
    &&& deleted.filter(|gone: bool| !gone).len() == count
}

/// As many are not marked as are left without the marked ones.
proof fn unmarked_are_what_is_left(marked: Seq<bool>)
    ensures
        unmarked(marked) == marked.filter(|gone: bool| !gone).len(),
    decreases marked.len(),
{
    reveal(Seq::filter);
    if marked.len() > 0 {
        unmarked_are_what_is_left(marked.drop_last());
    }
}

/// The languages of a store are counted by its records, without those that are
/// found deleted.
pub proof fn deleted_languages_are_not_counted(
    records: Seq<LanguageWasmInstance>,
    count: usize,
)
    requires
        languages_counted(records, count),
    ensures
        exists|deleted: Seq<bool>| #[trigger] is_count(records, deleted, count as int),
{
    let deleted = choose|deleted: Seq<bool>|
        are_findings(records, deleted) && count == #[trigger] unmarked(deleted);
    unmarked_are_what_is_left(deleted);
    assert forall|i: int| 0 <= i < records.len() implies was_found(
        *records[i].language_id,
        #[trigger] deleted[i],
    ) by {
        deleted_languages_have_a_count(*records[i].language_id, deleted[i]);
    }
    assert(is_count(records, deleted, count as int));
}

/// Whether some record is that of a language.
pub open spec fn has_record(records: Seq<LanguageWasmInstance>, id: Arc<LanguageId>) -> bool {
    exists|i: int| 0 <= i < records.len() && (#[trigger] records[i]).language_id == id
}

/// A language that has a record is used by the first one it has, and nothing
/// changes. One that has none gets a record behind the others, and the next
/// module is placed behind what its module asks for. Where it cannot get one, the
/// records and the offsets stay what they are.
pub proof fn used_languages_are_found_or_added(
    before: StoreInner,
    language: WasmLanguage,
    after: StoreInner,
    index: Option<usize>,
)
    requires
        before.wf(),
        language_used(before, language, after, index),
    ensures
        has_record(before.instances@, language.language_id) ==> {
            &&& after == before
            &&& index matches Some(index) && is_first_record(
                before.instances@,
                language.language_id,
                index as int,
            )
        },
        !has_record(before.instances@, language.language_id) ==> match index {
            Some(index) => {
                &&& index == before.instances@.len()
                &&& after.instances@.len() == before.instances@.len() + 1
                &&& after.instances@[index as int].language_id == language.language_id
                &&& after.current_memory_offset == before.current_memory_offset
                    + language.dylink_info.memory_size
                &&& after.current_function_table_offset == before.current_function_table_offset
                    + language.dylink_info.table_size
            },
            None => {
                &&& after.instances == before.instances
                &&& after.current_memory_offset == before.current_memory_offset
                &&& after.current_function_table_offset == before.current_function_table_offset
            },
        },
        after == (StoreInner {
            store: after.store,
            instances: after.instances,
            current_memory_offset: after.current_memory_offset,
            current_function_table_offset: after.current_function_table_offset,
            ..before
        }),
{
    if has_record(before.instances@, language.language_id) {
        let i = choose|i: int|
            0 <= i < before.instances@.len() && (#[trigger] before.instances@[i]).language_id
                == language.language_id;
        assert(before.instances@[i].language_id == language.language_id);
    } else if let Some(index) = index {
        if index < before.instances@.len() {
            assert(before.instances@[index as int].language_id == language.language_id);
        }
        added_modules_move_the_offsets(before, language, after);
    }
}

/// A language that has no record gets none only where it cannot: its module is
/// refused, or it is instantiated and its language object, at the address that it
/// returned, does not lie in the memory or names a function that there is not.
pub proof fn languages_are_added_where_they_can_be(
    before: StoreInner,
    language: WasmLanguage,
    after: StoreInner,
)
    requires
        language_used(before, language, after, None),
    ensures
        (exists|kind: u32, message: Seq<char>|
            #[trigger] module_refused(
                before,
                language.module,
                language.name@,
                language.dylink_info,
                after.held(),
                kind,
                message,
            )) || (exists|instance: wasmtime::Instance, address: i32|
            {
                &&& #[trigger] module_instantiated(
                    before,
                    language.module,
                    language.name@,
                    language.dylink_info,
                    after.held(),
                    instance,
                    address,
                )
                &&& {
                    ||| address < 0
                    ||| address + 168 > after.bytes().len()
                    ||| exists|index: int|
                        #[trigger] is_first_without_entry(
                            after.bytes(),
                            address as int,
                            after.entries().len() as int,
                            index,
                        )
                }
            }),
{
    if !(exists|kind: u32, message: Seq<char>|
        #[trigger] module_refused(
            before,
            language.module,
            language.name@,
            language.dylink_info,
            after.held(),
            kind,
            message,
        )) {
        let bytes = after.bytes();
        let (instance, address) = choose|instance: wasmtime::Instance, address: i32|
            {
                &&& #[trigger] module_instantiated(
                    before,
                    language.module,
                    language.name@,
                    language.dylink_info,
                    after.held(),
                    instance,
                    address,
                )
                &&& in_memory(bytes, address as int, LANGUAGE_SIZE as int) ==> missing_entry(
                    after.entries(),
                    instance_addresses(language_at(bytes, address as int)),
                ) is Some
            };
        let addresses = instance_addresses(language_at(bytes, address as int));
        if in_memory(bytes, address as int, LANGUAGE_SIZE as int) {
            numbers_of_functions_are_read(bytes, address as int);
            the_first_missing_entry_is_found(bytes, address as int, after.entries(), addresses);
        }
        assert(module_instantiated(
            before,
            language.module,
            language.name@,
            language.dylink_info,
            after.held(),
            instance,
            address,
        ));
    }
}

/// Whether the record at `index` is the first one of a language.
pub open spec fn is_first_record(
    records: Seq<LanguageWasmInstance>,
    id: Arc<LanguageId>,
    index: int,
) -> bool {
    &&& 0 <= index < records.len()
    &&& records[index].language_id == id
    &&& forall|i: int| 0 <= i < index ==> (#[trigger] records[i]).language_id != id
}

/// A language that is added moves the offsets on by what its module asks for.
proof fn added_modules_move_the_offsets(
    before: StoreInner,
    language: WasmLanguage,
    after: StoreInner,
)
    requires
        language_added(before, language, after),
    ensures
        after.current_memory_offset == before.current_memory_offset
            + language.dylink_info.memory_size,
        after.current_function_table_offset == before.current_function_table_offset
            + language.dylink_info.table_size,
        after.instances@.len() == before.instances@.len() + 1,
        after.instances@.last().language_id == language.language_id,
{
    let info = language.dylink_info;
    let (instance, address) = choose|instance: wasmtime::Instance, address: i32|
        {
            let addresses = instance_addresses(language_at(after.bytes(), address as int));
            &&& #[trigger] module_instantiated(
                before,
                language.module,
                language.name@,
                info,
                after.held(),
                instance,
                address,
            )
            &&& after.instances@ == before.instances@.push(
                instance_record(
                    after.entries(),
                    instance,
                    language.language_id,
                    addresses,
                ),
            )
        };
    let instantiated = choose|instantiated: StoreContents|
        #[trigger] module_linked(before, language.module, info, instantiated, instance);
    linked_modules_fit(before, language.module, info, instantiated, instance);
}

/// A module that was linked fits behind the offsets.
proof fn linked_modules_fit(
    before: StoreInner,
    module: wasmtime::Module,
    info: DylinkInfo,
    after: StoreContents,
    instance: wasmtime::Instance,
)
    requires
        module_linked(before, module, info, after, instance),
    ensures
        before.current_memory_offset + info.memory_size + 1024 <= u32::MAX,
        before.current_function_table_offset + info.table_size <= u32::MAX,
{
}

/// Where the numbers of the seven functions stand in a language object, in the
/// order in which they are looked up: the two lex functions, then those of the
/// external scanner, of which that which scans is the last.
pub open spec fn function_places() -> Seq<int> {
    seq![92, 96, 112, 116, 124, 128, 120]
}

/// The number of a function of a language object, in the order in which they are
/// looked up.
pub open spec fn function_number(bytes: Seq<u8>, address: int, k: int) -> int {
    pointer(bytes, address + function_places()[k])
}

/// Whether a number is the first one among those of the functions of a language
/// object that a table of so many entries has no entry for.
pub open spec fn is_first_without_entry(
    bytes: Seq<u8>,
    address: int,
    entries: int,
    index: int,
) -> bool {
    &&& !(0 <= index < entries)
    &&& exists|k: int|
        {
            &&& 0 <= k < 7
            &&& index == #[trigger] function_number(bytes, address, k)
            &&& forall|j: int|
                0 <= j < k ==> 0 <= #[trigger] function_number(bytes, address, j) < entries
        }
}

/// Whether a text names a number, with a minus before its digits where it is
/// negative.
pub open spec fn names_number(text: Seq<char>, number: int) -> bool {
    if number < 0 {
        &&& text.len() > 0
        &&& text[0] == '-'
        &&& reads_as(text.skip(1), -number)
    } else {
        reads_as(text, number)
    }
}

/// The numbers of the functions are those that a language object is read to have.
proof fn numbers_of_functions_are_read(bytes: Seq<u8>, address: int)
    ensures
        are_numbers(bytes, address, instance_addresses(language_at(bytes, address))),
{
    reads_what_stands(bytes, address + 92);
    reads_what_stands(bytes, address + 96);
    reads_what_stands(bytes, address + 112);
    reads_what_stands(bytes, address + 116);
    reads_what_stands(bytes, address + 120);
    reads_what_stands(bytes, address + 124);
    reads_what_stands(bytes, address + 128);
    let places = function_places();
    assert(places[0] == 92 && places[1] == 96 && places[2] == 112 && places[3] == 116);
    assert(places[4] == 124 && places[5] == 128 && places[6] == 120);
}

/// Whether addresses are the numbers of the functions of a language object.
spec fn are_numbers(bytes: Seq<u8>, address: int, addresses: InstanceAddresses) -> bool {
    &&& function_number(bytes, address, 0) == addresses.lex_fn
    &&& function_number(bytes, address, 1) == addresses.keyword_lex_fn
    &&& function_number(bytes, address, 2) == addresses.scanner_create
    &&& function_number(bytes, address, 3) == addresses.scanner_destroy
    &&& function_number(bytes, address, 4) == addresses.scanner_serialize
    &&& function_number(bytes, address, 5) == addresses.scanner_deserialize
    &&& function_number(bytes, address, 6) == addresses.scanner_scan
}

/// The first number without an entry is found.
proof fn the_first_missing_entry_is_found(
    bytes: Seq<u8>,
    address: int,
    entries: Seq<Option<wasmtime::Func>>,
    addresses: InstanceAddresses,
)
    requires
        are_numbers(bytes, address, addresses),
        missing_entry(entries, addresses) is Some,
    ensures
        is_first_without_entry(
            bytes,
            address,
            entries.len() as int,
            missing_entry(entries, addresses)->0 as int,
        ),
{
    let k: int = if !has_entry(entries, addresses.lex_fn) {
        0
    } else if !has_entry(entries, addresses.keyword_lex_fn) {
        1
    } else if !has_entry(entries, addresses.scanner_create) {
        2
    } else if !has_entry(entries, addresses.scanner_destroy) {
        3
    } else if !has_entry(entries, addresses.scanner_serialize) {
        4
    } else if !has_entry(entries, addresses.scanner_deserialize) {
        5
    } else {
        6
    };
    assert(missing_entry(entries, addresses)->0 == function_number(bytes, address, k));
    assert forall|j: int| 0 <= j < k implies 0 <= #[trigger] function_number(bytes, address, j)
        < entries.len() by {
        assert(j == 0 || j == 1 || j == 2 || j == 3 || j == 4 || j == 5);
    }
}

/// An instance has no record where its language object names a function that the
/// table has no entry for; the failure is one of instantiating, and names the first.
pub proof fn refused_records_name_an_entry(
    bytes: Seq<u8>,
    entries: Seq<Option<wasmtime::Func>>,
    address: i32,
    kind: u32,
    message: Seq<char>,
)
    requires
        record_refused(
            entries,
            instance_addresses(language_at(bytes, address as int)),
            kind,
            message,
        ),
    ensures
        kind == 3,
        exists|index: i32, text: Seq<char>|
            {
                &&& is_first_without_entry(
                    bytes,
                    address as int,
                    entries.len() as int,
                    index as int,
                )
                &&& message == "invalid function table entry "@ + text
                &&& #[trigger] names_number(text, index as int)
            },
{
    let addresses = instance_addresses(language_at(bytes, address as int));
    let index = missing_entry(entries, addresses)->0;
    numbers_of_functions_are_read(bytes, address as int);
    the_first_missing_entry_is_found(bytes, address as int, entries, addresses);
    let text = signed_decimal(index as int);
    signed_decimals_read_as_the_number(index as int);
    assert(message == invalid_entry_message(index));
    assert(names_number(text, index as int));
}

} // verus!
