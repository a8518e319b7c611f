//! What holds of the library as a whole: of copied languages, of the layout of
//! the memory, and of sequences of calls.

use vstd::prelude::*;

use crate::api::start_ended;
use crate::bytes::le_u16;
use crate::callbacks::state_kept;
use crate::calls::{
    heap_start, integer_call, lexer_call, prefix_copied, prefix_shared, serialize_call,
    CopyDirection,
};
use crate::copy_out::CopyOutput;
use crate::engine::{one_record_each, LanguageWasmInstance, StoreInner};
use crate::language::{
    greatest_slice_end_is_greatest, greatest_u16_is_greatest, slice_end, CLanguage, LexFn,
};
use crate::language_id::{
    can_count_down, can_count_up, counted_up, first_count, found_deleted, LanguageId,
};
use crate::layout::{LanguageInWasmMemory, LEXER_SIZE};
use crate::lexer::{lexer_data_at, lexer_data_round_trip, CLexer};
use crate::load::{
    language_loaded, language_recorded, language_used, load_refused, WasmLanguage,
};
use crate::memory::SERIALIZATION_BUFFER_SIZE;
use crate::records::{
    are_findings, cleared, collected, instance_record, is_instance_of, retained,
    retained_are_the_unmarked, retained_have_one_record_each, stays, unmarked,
    unmarked_are_not_more, unmarked_items_all_stay, what_stays_was_there,
};
use crate::runtime::overwritten;
use crate::statics::contents;

verus! {

/// The number of bytes of an array; a missing one has none.
pub open spec fn size_of(array: Option<Vec<u8>>) -> int {
    match contents(array) {
        Some(bytes) => bytes.len() as int,
        None => 0,
    }
}

/// The bytes of an array; a missing one has none.
pub open spec fn bytes_of(array: Option<Vec<u8>>) -> Seq<u8> {
    match contents(array) {
        Some(bytes) => bytes,
        None => Seq::empty(),
    }
}

/// The arrays of a copied language are as long as its counts say: a parse table
/// row per large state, a name, metadata and a public symbol per symbol, and a
/// lex mode per state.
pub proof fn copied_tables_fit_the_counts(
    language: CLanguage,
    memory: Seq<u8>,
    origin: LanguageInWasmMemory,
    sentinels: Seq<i32>,
)
    requires
        origin.copy_ok(memory, sentinels),
        language.is_copy(memory, origin, sentinels),
    ensures
        size_of(language.parse_table) == language.large_state_count * language.symbol_count * 2,
        language.symbol_names matches Some(names) && names.array@.len() == language.symbol_count
            + language.alias_count,
        size_of(language.symbol_metadata) == (language.symbol_count + language.alias_count) * 3,
        size_of(language.public_symbol_map) == (language.symbol_count + language.alias_count) * 2,
        size_of(language.lex_modes) == language.state_count * 6,
        language.external_token_count > 0 ==> size_of(language.external_scanner.symbol_map)
            == language.external_token_count * 2,
        language.field_count > 0 && language.production_id_count > 0 ==> {
            &&& size_of(language.field_map_slices) == language.production_id_count * 4
            &&& language.field_names matches Some(names) && names.array@.len()
                == language.field_count + 1
        },
{
    let rows = origin.large_state_count * origin.symbol_count;
    assert(rows * 2 == origin.large_state_count * origin.symbol_count * 2);
    assert(rows >= 0) by (nonlinear_arith)
        requires
            rows == origin.large_state_count * origin.symbol_count,
            origin.large_state_count >= 0,
            origin.symbol_count >= 0,
    ;
}

/// Every field map slice of a copied language lies inside the copied entries.
pub proof fn copied_field_slices_lie_inside(
    language: CLanguage,
    memory: Seq<u8>,
    origin: LanguageInWasmMemory,
    sentinels: Seq<i32>,
    production: int,
)
    requires
        origin.copy_ok(memory, sentinels),
        language.is_copy(memory, origin, sentinels),
        language.field_count > 0,
        0 <= production < language.production_id_count,
    ensures
        slice_end(bytes_of(language.field_map_slices), 4 * production) * 4 <= size_of(
            language.field_map_entries,
        ),
{
    let at = origin.field_map_slices as int;
    let slices = bytes_of(language.field_map_slices);
    greatest_slice_end_is_greatest(memory, at, origin.production_id_count as int);
    assert(slices == memory.subrange(at, at + origin.production_id_count * 4));
    assert(slice_end(slices, 4 * production) == slice_end(memory, at + 4 * production));
}

/// Every supertype of a copied language has a slice among the copied ones.
pub proof fn copied_supertypes_have_slices(
    language: CLanguage,
    memory: Seq<u8>,
    origin: LanguageInWasmMemory,
    sentinels: Seq<i32>,
    index: int,
)
    requires
        origin.copy_ok(memory, sentinels),
        language.is_copy(memory, origin, sentinels),
        origin.has_supertypes(),
        0 <= index < language.supertype_count,
    ensures
        (le_u16(bytes_of(language.supertype_symbols), 2 * index) + 1) * 4 <= size_of(
            language.supertype_map_slices,
        ),
{
    let at = origin.supertype_symbols as int;
    let symbols = bytes_of(language.supertype_symbols);
    greatest_u16_is_greatest(memory, at, 2, origin.supertype_count as int);
    assert(symbols == memory.subrange(at, at + origin.supertype_count * 2));
    assert(le_u16(symbols, 2 * index) == le_u16(memory, at + 2 * index));
}

/// Every reserved word set that a lex mode of a copied language names lies
/// inside the copied words, where the language has any.
pub proof fn copied_reserved_words_lie_inside(
    language: CLanguage,
    memory: Seq<u8>,
    origin: LanguageInWasmMemory,
    sentinels: Seq<i32>,
    state: int,
)
    requires
        origin.copy_ok(memory, sentinels),
        language.is_copy(memory, origin, sentinels),
        origin.has_reserved_words(memory),
        0 <= state < language.state_count,
    ensures
        (le_u16(bytes_of(language.lex_modes), 6 * state + 4) + 1)
            * language.max_reserved_word_set_size * 2 <= size_of(language.reserved_words),
{
    let at = origin.lex_modes as int;
    let modes = bytes_of(language.lex_modes);
    let size = origin.max_reserved_word_set_size as int;
    greatest_u16_is_greatest(memory, at + 4, 6, origin.state_count as int);
    assert(modes == memory.subrange(at, at + origin.state_count * 6));
    let set = le_u16(modes, 6 * state + 4) as int;
    assert(set == le_u16(memory, at + 4 + 6 * state));
    let greatest = origin.max_reserved_word_set_id(memory);
    assert((set + 1) * size <= (greatest + 1) * size) by (nonlinear_arith)
        requires
            set <= greatest,
            size >= 0,
    ;
    assert((greatest + 1) * size > 0) by (nonlinear_arith)
        requires
            greatest > 0,
            size > 0,
    ;
}

/// A loaded language counts as backed by a Wasm module.
pub proof fn loaded_languages_are_wasm(
    before: StoreInner,
    language_name: Seq<char>,
    wasm: Seq<u8>,
    after: StoreInner,
    language: WasmLanguage,
)
    requires
        language_loaded(before, language_name, wasm, after, language),
    ensures
        language.language.lex_fn == Some(LexFn::Sentinel),
        language.language.keyword_lex_fn is None,
{
}

/// A store that a language was loaded in has an instance of it.
pub proof fn loaded_languages_are_instantiated(
    before: StoreInner,
    language_name: Seq<char>,
    wasm: Seq<u8>,
    after: StoreInner,
    language: WasmLanguage,
)
    requires
        language_loaded(before, language_name, wasm, after, language),
    ensures
        after.instances@.len() > 0,
        after.instances@.last().language_id == language.language_id,
        !is_instance_of(after.instances@, language.language_id, None),
{
    let (_, kept) = loaded_behind_what_stays(before, language_name, wasm, after, language);
    assert(after.instances@[kept.len() as int] == after.instances@.last());
}

/// Two languages that are loaded one after the other differ, though they may come
/// from the same bytes.
pub proof fn languages_loaded_in_turn_differ(
    before: StoreInner,
    first_name: Seq<char>,
    first_wasm: Seq<u8>,
    first: WasmLanguage,
    between: StoreInner,
    second_name: Seq<char>,
    second_wasm: Seq<u8>,
    second: WasmLanguage,
    after: StoreInner,
)
    requires
        language_loaded(before, first_name, first_wasm, between, first),
        language_loaded(between, second_name, second_wasm, after, second),
    ensures
        first.language_id != second.language_id,
{
    loaded_languages_are_instantiated(before, first_name, first_wasm, between, first);
}

/// Whether it does not change any more which languages are found deleted: just
/// those of which `dead` holds.
pub open spec fn settled(dead: spec_fn(LanguageId) -> bool) -> bool {
    forall|id: LanguageId, deleted: bool| #[trigger]
        found_deleted(id, deleted) ==> deleted == dead(id)
}

/// Once it is settled which languages are deleted, what stays is of others.
proof fn what_stays_is_alive(
    dead: spec_fn(LanguageId) -> bool,
    instances: Seq<LanguageWasmInstance>,
    deleted: Seq<bool>,
)
    requires
        settled(dead),
        are_findings(instances, deleted),
    ensures
        forall|i: int|
            0 <= i < retained(instances, deleted).len() ==> !dead(
                *(#[trigger] retained(instances, deleted)[i]).language_id,
            ),
{
    let kept = retained(instances, deleted);
    assert forall|i: int| 0 <= i < kept.len() implies !dead(
        *(#[trigger] kept[i]).language_id,
    ) by {
        let index = what_stays_was_there(instances, deleted, i);
        assert(found_deleted(*instances[index].language_id, deleted[index]));
    }
}

/// What stays of the records that had one each, once it is settled which
/// languages are deleted: they still have one each, and are of others.
proof fn clearing_leaves_the_living(
    dead: spec_fn(LanguageId) -> bool,
    before: StoreInner,
    clean: StoreInner,
)
    requires
        settled(dead),
        before.wf(),
        collected(before, clean),
    ensures
        one_record_each(clean.instances@),
        clean.current_instance is Some ==> clean.is_active(),
        forall|i: int|
            0 <= i < clean.instances@.len() ==> !dead(
                *(#[trigger] clean.instances@[i]).language_id,
            ),
{
    let deleted = choose|deleted: Seq<bool>|
        #[trigger] cleared(before, deleted, clean.instances@, clean.current_instance);
    what_stays_is_alive(dead, before.instances@, deleted);
    retained_have_one_record_each(before.instances@, deleted);
    retained_are_the_unmarked(before.instances@, deleted);
    if let Some(index) = before.current_instance {
        if !deleted[index as int] {
            assert(stays(before.instances@, deleted, index as int));
        }
    }
}

/// Once it is settled which languages are deleted, and there are records of
/// others only, clearing changes nothing.
proof fn clearing_the_living_changes_nothing(
    dead: spec_fn(LanguageId) -> bool,
    before: StoreInner,
    clean: StoreInner,
)
    requires
        settled(dead),
        before.current_instance is Some ==> before.is_active(),
        forall|i: int|
            0 <= i < before.instances@.len() ==> !dead(
                *(#[trigger] before.instances@[i]).language_id,
            ),
        collected(before, clean),
    ensures
        clean == (StoreInner { instances: clean.instances, ..before }),
        clean.instances@ == before.instances@,
{
    let deleted = choose|deleted: Seq<bool>|
        #[trigger] cleared(before, deleted, clean.instances@, clean.current_instance);
    assert forall|i: int| 0 <= i < deleted.len() implies !#[trigger] deleted[i] by {
        assert(found_deleted(*before.instances@[i].language_id, deleted[i]));
    }
    unmarked_items_all_stay(before.instances@, deleted);
    if let Some(index) = before.current_instance {
        unmarked_items_all_stay(
            before.instances@.take(index as int),
            deleted.take(index as int),
        );
    }
}

/// A language that is used has a record at its index, behind those that there
/// were; where it had one, nothing changes.
pub proof fn used_languages_have_a_record(
    before: StoreInner,
    language: WasmLanguage,
    after: StoreInner,
    index: usize,
)
    requires
        language_used(before, language, after, Some(index)),
    ensures
        index < after.instances@.len(),
        after.instances@[index as int].language_id == language.language_id,
        after.current_instance == before.current_instance,
        before.instances@.len() <= after.instances@.len() <= index + 1 || after == before,
        forall|i: int|
            0 <= i < before.instances@.len() ==> (#[trigger] after.instances@[i])
                == before.instances@[i],
        before.instances@.len() < after.instances@.len() ==> is_instance_of(
            before.instances@,
            language.language_id,
            None,
        ) && after.instances@.len() == before.instances@.len() + 1,
{
}

/// A language that has a record is found at it, and nothing changes.
proof fn recorded_languages_are_found(
    before: StoreInner,
    language: WasmLanguage,
    after: StoreInner,
    index: usize,
    found: Option<usize>,
)
    requires
        one_record_each(before.instances@),
        index < before.instances@.len(),
        before.instances@[index as int].language_id == language.language_id,
        language_used(before, language, after, found),
    ensures
        found == Some(index),
        after == before,
{
    match found {
        Some(found) => {
            assert(found < before.instances@.len());
            assert(before.instances@[found as int].language_id == language.language_id);
        },
        None => {},
    }
}

/// Once it is settled which languages are deleted, using one of the others a
/// second time gives the same instance and changes nothing. The instance is the
/// only one of that language, and none is of a deleted language.
pub proof fn using_a_language_again_finds_it(
    dead: spec_fn(LanguageId) -> bool,
    before: StoreInner,
    language: WasmLanguage,
    clean: StoreInner,
    used: StoreInner,
    index: usize,
    clean_again: StoreInner,
    used_again: StoreInner,
    index_again: Option<usize>,
)
    requires
        settled(dead),
        !dead(*language.language_id),
        before.wf(),
        collected(before, clean),
        language_used(clean, language, used, Some(index)),
        collected(used, clean_again),
        language_used(clean_again, language, used_again, index_again),
    ensures
        index_again == Some(index),
        used_again == (StoreInner { instances: used_again.instances, ..used }),
        used_again.instances@ == used.instances@,
        index < used.instances@.len(),
        forall|i: int|
            0 <= i < used.instances@.len() ==> {
                &&& (#[trigger] used.instances@[i]).language_id == language.language_id <==> i
                    == index
                &&& !dead(*used.instances@[i].language_id)
            },
{
    clearing_leaves_the_living(dead, before, clean);
    used_languages_have_a_record(clean, language, used, index);
    assert forall|i: int| 0 <= i < used.instances@.len() implies !dead(
        *(#[trigger] used.instances@[i]).language_id,
    ) by {
        if i < clean.instances@.len() {
            assert(used.instances@[i] == clean.instances@[i]);
        } else {
            assert(i == index);
        }
    }
    assert forall|i: int, j: int| 0 <= i < j < used.instances@.len() implies (
    #[trigger] used.instances@[i]).language_id != (#[trigger] used.instances@[j]).language_id by {
        assert(used.instances@[i] == clean.instances@[i]);
        if j < clean.instances@.len() {
            assert(used.instances@[j] == clean.instances@[j]);
        }
    }
    clearing_the_living_changes_nothing(dead, used, clean_again);
    recorded_languages_are_found(clean_again, language, used_again, index, index_again);
}

/// Clearing out the records of deleted languages leaves the language that is
/// being parsed with the current one, unless it was found deleted itself; then
/// there is none.
pub proof fn clearing_keeps_the_current_language(before: StoreInner, after: StoreInner)
    requires
        before.wf(),
        collected(before, after),
        before.is_active(),
    ensures
        match after.current_instance {
            Some(_) => after.is_active() && after.active() == before.active(),
            None => found_deleted(*before.active().language_id, true),
        },
{
    let deleted = choose|deleted: Seq<bool>|
        #[trigger] cleared(before, deleted, after.instances@, after.current_instance);
    current_moves_with_its_record(before, deleted, after.instances@, after.current_instance);
}

/// The current index moves with its record.
proof fn current_moves_with_its_record(
    before: StoreInner,
    deleted: Seq<bool>,
    kept: Seq<LanguageWasmInstance>,
    current: Option<usize>,
)
    requires
        before.wf(),
        before.is_active(),
        cleared(before, deleted, kept, current),
    ensures
        match current {
            Some(index) => index < kept.len() && kept[index as int] == before.active(),
            None => found_deleted(*before.active().language_id, true),
        },
{
    let index = before.current_instance->0 as int;
    retained_are_the_unmarked(before.instances@, deleted);
    unmarked_are_not_more(deleted.take(index));
    if !deleted[index] {
        assert(stays(before.instances@, deleted, index));
    } else {
        assert(found_deleted(*before.instances@[index].language_id, deleted[index]));
    }
}

/// Loading a language leaves the one that is being parsed with the current one,
/// unless that was found deleted; then there is none.
pub proof fn loading_keeps_the_current_language(
    before: StoreInner,
    language_name: Seq<char>,
    wasm: Seq<u8>,
    after: StoreInner,
    language: WasmLanguage,
)
    requires
        before.wf(),
        before.is_active(),
        language_loaded(before, language_name, wasm, after, language),
    ensures
        match after.current_instance {
            Some(_) => after.is_active() && after.active() == before.active(),
            None => found_deleted(*before.active().language_id, true),
        },
{
    let (deleted, kept) = loaded_behind_what_stays(before, language_name, wasm, after, language);
    current_moves_with_its_record(before, deleted, kept, after.current_instance);
}

/// A loaded language has the last record, behind what stays.
pub proof fn loaded_behind_what_stays(
    before: StoreInner,
    language_name: Seq<char>,
    wasm: Seq<u8>,
    after: StoreInner,
    language: WasmLanguage,
) -> (cleared_to: (Seq<bool>, Seq<LanguageWasmInstance>))
    requires
        language_loaded(before, language_name, wasm, after, language),
    ensures
        cleared(before, cleared_to.0, cleared_to.1, after.current_instance),
        after.instances@.len() == cleared_to.1.len() + 1,
        after.instances@.drop_last() == cleared_to.1,
        after.instances@.last().language_id == language.language_id,
{
    let (instance, address, output) = choose|
        instance: wasmtime::Instance,
        address: i32,
        output: CopyOutput,
    |
        #[trigger] language_recorded(before, language, after, instance, address, output);
    let record = instance_record(
        after.entries(),
        instance,
        language.language_id,
        output.addresses,
    );
    let (deleted, kept) = choose|deleted: Seq<bool>, kept: Seq<LanguageWasmInstance>|
        #[trigger] cleared(before, deleted, kept, after.current_instance) && after.instances@
            == kept.push(record);
    assert(after.instances@.drop_last() =~= kept);
    (deleted, kept)
}

/// Once it is settled which languages are deleted, loading one more counts one
/// more language.
pub proof fn a_loaded_language_counts(
    dead: spec_fn(LanguageId) -> bool,
    before: StoreInner,
    language_name: Seq<char>,
    wasm: Seq<u8>,
    after: StoreInner,
    language: WasmLanguage,
    deleted_before: Seq<bool>,
    deleted_after: Seq<bool>,
)
    requires
        settled(dead),
        !dead(*language.language_id),
        language_loaded(before, language_name, wasm, after, language),
        are_findings(before.instances@, deleted_before),
        are_findings(after.instances@, deleted_after),
    ensures
        unmarked(deleted_after) == unmarked(deleted_before) + 1,
{
    let (deleted, kept) = loaded_behind_what_stays(before, language_name, wasm, after, language);
    findings_are_settled(dead, before.instances@, deleted, deleted_before);
    what_stays_is_alive(dead, before.instances@, deleted);
    retained_are_the_unmarked(before.instances@, deleted);
    assert forall|i: int| 0 <= i < deleted_after.len() implies !#[trigger] deleted_after[i] by {
        assert(found_deleted(*after.instances@[i].language_id, deleted_after[i]));
        if i < kept.len() {
            assert(after.instances@[i] == kept[i]);
        } else {
            assert(after.instances@[i] == after.instances@.last());
        }
    }
    unmarked_items_all_stay(after.instances@, deleted_after);
}

/// Once a language that was loaded is deleted, and no other was meanwhile, there
/// are as many languages as before it was loaded, though it may still have its
/// record.
pub proof fn a_deleted_language_does_not_count(
    before: StoreInner,
    language_name: Seq<char>,
    wasm: Seq<u8>,
    after: StoreInner,
    language: WasmLanguage,
    deleted_before: Seq<bool>,
    deleted_after: Seq<bool>,
)
    requires
        language_loaded(before, language_name, wasm, after, language),
        are_findings(before.instances@, deleted_before),
        after.instances@.drop_last() == retained(before.instances@, deleted_before),
        are_findings(after.instances@, deleted_after),
        forall|i: int|
            0 <= i < deleted_after.len() ==> (#[trigger] deleted_after[i] <==> i
                == after.instances@.len() - 1),
    ensures
        after.instances@.last().language_id == language.language_id,
        unmarked(deleted_after) == unmarked(deleted_before),
{
    loaded_languages_are_instantiated(before, language_name, wasm, after, language);
    retained_are_the_unmarked(before.instances@, deleted_before);
    unmarked_items_all_stay(after.instances@.drop_last(), deleted_after.drop_last());
}

/// Once it is settled which languages are deleted, a language that cannot be
/// loaded leaves the number of languages as it was.
pub proof fn a_refused_language_does_not_count(
    dead: spec_fn(LanguageId) -> bool,
    before: StoreInner,
    language_name: Seq<char>,
    wasm: Seq<u8>,
    after: StoreInner,
    failure: (u32, String),
    deleted_before: Seq<bool>,
    deleted_after: Seq<bool>,
)
    requires
        settled(dead),
        after == (StoreInner { store: after.store, ..before }),
        load_refused(before, language_name, wasm, after.held(), failure),
        are_findings(before.instances@, deleted_before),
        are_findings(after.instances@, deleted_after),
    ensures
        unmarked(deleted_after) == unmarked(deleted_before),
{
    findings_are_settled(dead, before.instances@, deleted_before, deleted_after);
}

/// Once it is settled which languages are deleted, looking twice finds the same.
proof fn findings_are_settled(
    dead: spec_fn(LanguageId) -> bool,
    instances: Seq<LanguageWasmInstance>,
    deleted: Seq<bool>,
    deleted_again: Seq<bool>,
)
    requires
        settled(dead),
        are_findings(instances, deleted),
        are_findings(instances, deleted_again),
    ensures
        deleted == deleted_again,
{
    assert forall|i: int| 0 <= i < deleted.len() implies deleted[i] == deleted_again[i] by {
        assert(found_deleted(*instances[i].language_id, deleted[i]));
        assert(found_deleted(*instances[i].language_id, deleted_again[i]));
    }
    assert(deleted =~= deleted_again);
}

/// A reference to a language that is counted or released, with the count that
/// was found.
pub enum Counting {
    Retain(u32),
    Release(u32),
}

impl Counting {
    /// The count that was found.
    pub open spec fn found(self) -> int {
        match self {
            Counting::Retain(count) => count as int,
            Counting::Release(count) => count as int,
        }
    }

    /// The count that is left.
    pub open spec fn left(self) -> int {
        match self {
            Counting::Retain(count) => count + 1,
            Counting::Release(count) => count - 1,
        }
    }

    /// Whether the language is to be dropped.
    pub open spec fn drops(self) -> bool {
        self matches Counting::Release(count) && count == 1
    }

    /// Whether a language can be retained or released like this.
    pub open spec fn counts(self, language: WasmLanguage) -> bool {
        match self {
            Counting::Retain(count) => can_count_up(language.ref_count, count),
            Counting::Release(count) => can_count_down(language.ref_count, count),
        }
    }
}

/// Whether a loaded language is retained and released one after the other: each
/// finds the count that the one before has left, and the first one the count that
/// the language was loaded with. None comes after the last reference is gone.
pub open spec fn counted_in_turn(language: WasmLanguage, history: Seq<Counting>) -> bool {
    forall|i: int|
        0 <= i < history.len() ==> {
            &&& (#[trigger] history[i]).counts(language)
            &&& history[i].found() > 0
            &&& history[i].found() == count_before(language, history, i)
        }
}

/// The count in front of one retain or release.
pub open spec fn count_before(
    language: WasmLanguage,
    history: Seq<Counting>,
    index: int,
) -> int {
    if index <= 0 {
        first_count(language.ref_count) as int
    } else {
        history[index - 1].left()
    }
}

/// How many references there are more, once a language was retained and released
/// like this.
pub open spec fn balance(history: Seq<Counting>) -> int
    decreases history.len(),
{
    if history.len() == 0 {
        0
    } else {
        balance(history.drop_last()) + match history.last() {
            Counting::Retain(_) => 1int,
            Counting::Release(_) => -1int,
        }
    }
}

/// A loaded language is dropped just when it was released once more often than
/// it was retained, and so only once: nothing comes after.
pub proof fn languages_are_dropped_with_the_last_reference(
    before: StoreInner,
    language_name: Seq<char>,
    wasm: Seq<u8>,
    after: StoreInner,
    language: WasmLanguage,
    history: Seq<Counting>,
)
    requires
        language_loaded(before, language_name, wasm, after, language),
        counted_in_turn(language, history),
    ensures
        count_before(language, history, history.len() as int) == 1 + balance(history),
        forall|i: int|
            0 <= i < history.len() ==> {
                &&& (#[trigger] history[i]).drops() <==> 1 + balance(history.take(i + 1)) == 0
                &&& history[i].drops() ==> i == history.len() - 1
            },
{
    assert forall|i: int| 0 <= i < history.len() implies {
        &&& (#[trigger] history[i]).drops() <==> 1 + balance(history.take(i + 1)) == 0
        &&& history[i].drops() ==> i == history.len() - 1
    } by {
        counts_follow_the_balance(language, history, i + 1);
        if i < history.len() - 1 {
            assert(history[i + 1].found() > 0);
        }
    }
    counts_follow_the_balance(language, history, history.len() as int);
    assert(history.take(history.len() as int) =~= history);
}

/// The count is that of the references.
proof fn counts_follow_the_balance(language: WasmLanguage, history: Seq<Counting>, index: int)
    requires
        first_count(language.ref_count) == 1,
        counted_in_turn(language, history),
        0 <= index <= history.len(),
    ensures
        count_before(language, history, index) == 1 + balance(history.take(index)),
    decreases index,
{
    if index > 0 {
        counts_follow_the_balance(language, history, index - 1);
        assert(history.take(index).drop_last() =~= history.take(index - 1));
        assert(history[index - 1].found() == count_before(language, history, index - 1));
    }
}

/// A loaded language that is retained some times and then released is dropped by
/// the release after as many; each release before leaves one reference less.
pub proof fn each_retain_takes_a_release(
    before: StoreInner,
    language_name: Seq<char>,
    wasm: Seq<u8>,
    after: StoreInner,
    language: WasmLanguage,
    history: Seq<Counting>,
    retains: int,
)
    requires
        language_loaded(before, language_name, wasm, after, language),
        counted_in_turn(language, history),
        0 <= retains,
        history.len() == 2 * retains + 1,
        forall|i: int|
            0 <= i < history.len() ==> ((#[trigger] history[i]) is Retain <==> i < retains),
    ensures
        forall|i: int|
            retains <= i < history.len() ==> {
                &&& (#[trigger] history[i]).left() == 2 * retains - i
                &&& history[i].drops() <==> i == 2 * retains
            },
{
    assert forall|i: int| retains <= i < history.len() implies {
        &&& (#[trigger] history[i]).left() == 2 * retains - i
        &&& history[i].drops() <==> i == 2 * retains
    } by {
        count_after_retains(language, history, retains, i);
    }
}

/// The count goes up with each retain, then down with each release.
proof fn count_after_retains(
    language: WasmLanguage,
    history: Seq<Counting>,
    retains: int,
    index: int,
)
    requires
        first_count(language.ref_count) == 1,
        counted_in_turn(language, history),
        0 <= retains,
        0 <= index < history.len(),
        forall|i: int|
            0 <= i < history.len() ==> ((#[trigger] history[i]) is Retain <==> i < retains),
    ensures
        history[index].left() == if index < retains {
            index + 2
        } else {
            2 * retains - index
        },
    decreases index,
{
    assert(history[index].found() == count_before(language, history, index));
    if index > 0 {
        count_after_retains(language, history, retains, index - 1);
    }
}

/// Deleting a language deletes it for every store that has a record of it: the
/// record has the same counter as the language.
pub proof fn deletion_reaches_every_record(
    language: WasmLanguage,
    instances: Seq<LanguageWasmInstance>,
    index: usize,
    deleted: bool,
)
    requires
        is_instance_of(instances, language.language_id, Some(index)),
    ensures
        counted_up(language.language_id.is_deleted) ==> counted_up(
            instances[index as int].language_id.is_deleted,
        ),
        found_deleted(*instances[index as int].language_id, deleted) == found_deleted(
            *language.language_id,
            deleted,
        ),
{
}

/// The data of a loaded module lies behind the lexer, and in front of the data
/// of the next module, the serialization buffer and the scanner heap; its table
/// entries likewise lie in front of those of the next module.
pub proof fn modules_are_placed_one_behind_the_other(
    before: StoreInner,
    language_name: Seq<char>,
    wasm: Seq<u8>,
    after: StoreInner,
    language: WasmLanguage,
)
    requires
        before.wf(),
        after.wf(),
        language_loaded(before, language_name, wasm, after, language),
    ensures
        before.lexer_address + LEXER_SIZE <= before.current_memory_offset,
        after.current_memory_offset == before.current_memory_offset
            + language.dylink_info.memory_size,
        heap_start(after) == after.current_memory_offset + SERIALIZATION_BUFFER_SIZE,
        heap_start(after) <= after.bytes().len(),
        after.current_function_table_offset == before.current_function_table_offset
            + language.dylink_info.table_size,
        after.current_function_table_offset <= after.entries().len(),
{
}

/// Once a call came to nothing, lexing and scanning find nothing, creating and
/// serializing yield nothing, and the error stays.
pub proof fn errors_stay(
    before: StoreInner,
    func: wasmtime::Func,
    args: Seq<i32>,
    after: StoreInner,
    found: bool,
    result: Option<i32>,
    buffer_before: Seq<u8>,
    buffer: Seq<u8>,
    length: u32,
)
    requires
        before.has_error,
    ensures
        lexer_call(before, func, args, after, found) ==> after.has_error && !found,
        integer_call(before, func, args, after, result) ==> after.has_error && result is None,
        serialize_call(before, func, args, buffer_before, after, buffer, length)
            ==> after.has_error && length == 0 && buffer == buffer_before,
{
}

/// Once parsing with a language has started, the language is the current one,
/// and there is a lexer.
pub proof fn a_started_language_is_current(
    before: StoreInner,
    lexer: CLexer,
    language: WasmLanguage,
    after: StoreInner,
)
    requires
        start_ended(before, lexer, language, after, true),
    ensures
        after.is_active(),
        after.active().language_id == language.language_id,
        after.held().state.current_lexer is Some,
{
}

/// Lexing and scanning leave a lexer where there was one and, unless there was an
/// error, with the data prefix that stands in memory by then.
pub proof fn lexing_shares_the_prefix(
    before: StoreInner,
    func: wasmtime::Func,
    args: Seq<i32>,
    after: StoreInner,
    found: bool,
)
    requires
        before.wf(),
        lexer_call(before, func, args, after, found),
    ensures
        state_kept(before.held().state, after.held().state),
        !after.has_error ==> prefix_shared(after),
{
}

/// Where parsing with a language cannot start, the store is left as it was, but
/// for what ran in it and for instances of deleted languages.
pub proof fn a_language_that_is_not_started_leaves_the_store(
    before: StoreInner,
    lexer: CLexer,
    language: WasmLanguage,
    after: StoreInner,
)
    requires
        start_ended(before, lexer, language, after, false),
    ensures
        after == (StoreInner {
            store: after.store,
            instances: after.instances,
            current_instance: after.current_instance,
            ..before
        }),
        exists|deleted: Seq<bool>|
            #[trigger] cleared(before, deleted, after.instances@, after.current_instance),
{
    let (clean, added, index) = choose|
        clean: StoreInner,
        added: StoreInner,
        index: Option<usize>,
    |
        {
            &&& collected(before, clean)
            &&& #[trigger] language_used(clean, language, added, index)
            &&& index is None
            &&& after == added
        };
    let deleted = choose|deleted: Seq<bool>|
        #[trigger] cleared(before, deleted, clean.instances@, clean.current_instance);
    unused_languages_leave_the_store(clean, language, added);
    assert(cleared(before, deleted, after.instances@, after.current_instance));
}

/// A language that cannot be used leaves the store as it was, but for what ran
/// in it.
proof fn unused_languages_leave_the_store(
    before: StoreInner,
    language: WasmLanguage,
    after: StoreInner,
)
    requires
        language_used(before, language, after, None),
    ensures
        after == (StoreInner { store: after.store, ..before }),
{
}

/// A data prefix that was copied into memory and is left alone there comes back
/// as it was.
pub proof fn an_untouched_prefix_comes_back(before: StoreInner, ready: StoreInner)
    requires
        before.wf(),
        ready == (StoreInner { store: ready.store, ..before }),
        ready.held() == prefix_copied(before, CopyDirection::IntoWasm),
    ensures
        prefix_copied(ready, CopyDirection::OutOfWasm) == ready.held(),
{
    match before.held().state.current_lexer {
        Some(lexer) => {
            let at = before.lexer_address as int;
            let bytes = before.bytes();
            let image = lexer.data.image();
            lexer_data_round_trip(
                lexer.data,
                bytes.subrange(0, at),
                bytes.subrange(at + 8, bytes.len() as int),
            );
            assert(ready.bytes() == overwritten(bytes, at, image));
            assert(lexer_data_at(ready.bytes(), at) == lexer.data);
        },
        None => {},
    }
}

} // verus!
