//! What an accepted module holds is what its sections hold.
//!
//! These laws relate what [`crate::parse`] returns to what the readers of the
//! sections return for the same input. What these are, in turn, the laws in
//! [`crate::round_trip`] say.

use crate::grammar;
use crate::grammar::Outcome;
use crate::module;
use crate::module::{Draft, ModuleView};
use crate::module_laws;
use crate::types::CodeView;
use vstd::prelude::*;

verus! {

/// The functions of the module have these types, in this order.
pub open spec fn has_type_indices(module: ModuleView, type_indices: Seq<u32>) -> bool {
    &&& module.funcs.len() == type_indices.len()
    &&& forall|i: int|
        0 <= i < type_indices.len() ==> (#[trigger] module.funcs[i]).type_index == type_indices[i]
}

/// The functions of the module have these locals and instructions, in this order.
pub open spec fn has_codes(module: ModuleView, codes: Seq<CodeView>) -> bool {
    &&& module.funcs.len() == codes.len()
    &&& forall|i: int|
        0 <= i < codes.len() ==> (#[trigger] module.funcs[i]).locals == codes[i].locals
            && module.funcs[i].body == codes[i].body
}

/// What was read of the sections up to rank `stage` stays as it is until the end.
proof fn lemma_read_sections_stay(bytes: Seq<u8>, pos: int, stage: int, draft: Draft)
    requires
        0 <= pos <= bytes.len(),
        module::sections_at(bytes, pos, stage, draft) is Read,
    ensures
        ({
            let module = module::sections_at(bytes, pos, stage, draft)->value;
            &&& stage >= 1 ==> module.types == draft.types
            &&& stage >= 2 ==> module.imports == draft.imports
            &&& stage >= 3 ==> has_type_indices(module, draft.type_indices)
            &&& stage >= 7 ==> module.exports == draft.exports
            &&& stage >= 8 ==> module.start == draft.start
            &&& stage >= 11 ==> has_codes(module, draft.codes)
        }),
    decreases bytes.len() - pos,
{
    if let Some(id) = module::next_section(bytes, pos, stage, draft) {
        module::lemma_section_into_bounds(bytes, pos, id, draft);
        if let Outcome::Read { value, end } = module::section_into(bytes, pos, id, draft) {
            lemma_read_sections_stay(bytes, end, module::stage_after(stage, id), value);
        }
    }
}

/// What the module holds of the section at `at` is what is read there.
pub open spec fn holds_section_at(module: ModuleView, bytes: Seq<u8>, at: int) -> bool {
    let id = bytes[at];
    let types = module.types.len();
    &&& id == 1 ==> (grammar::type_section_at(bytes, at) matches Outcome::Read { value, .. }
        && value == module.types)
    &&& id == 2 ==> (grammar::import_section_at(bytes, at, types) matches Outcome::Read {
        value,
        ..
    } && value == module.imports)
    &&& id == 3 ==> (grammar::function_section_at(bytes, at, types) matches Outcome::Read {
        value,
        ..
    } && has_type_indices(module, value))
    &&& id == 7 ==> (grammar::export_section_at(bytes, at) matches Outcome::Read { value, .. }
        && value == module.exports)
    &&& id == 8 ==> (grammar::start_section_at(bytes, at) matches Outcome::Read { value, .. }
        && module.start == Some(value))
    &&& id == 10 ==> (grammar::code_section_at(
        bytes,
        at,
        module.funcs.len(),
    ) matches Outcome::Read { value, .. } && has_codes(module, value))
}

/// What the sections complete holds what is read of the one that comes first.
proof fn lemma_first_section_is_held(bytes: Seq<u8>, pos: int, stage: int, draft: Draft)
    requires
        0 <= pos < bytes.len(),
        0 <= stage,
        module::sections_at(bytes, pos, stage, draft) is Read,
    ensures
        holds_section_at(module::sections_at(bytes, pos, stage, draft)->value, bytes, pos),
{
    let id = bytes[pos];
    module::lemma_section_into_bounds(bytes, pos, id, draft);
    if let Outcome::Read { value, end } = module::section_into(bytes, pos, id, draft) {
        lemma_read_sections_stay(bytes, end, module::stage_after(stage, id), value);
    }
}

/// What the sections complete holds what is read of each of them.
proof fn lemma_every_section_is_held(
    bytes: Seq<u8>,
    pos: int,
    stage: int,
    draft: Draft,
    at: int,
)
    requires
        0 <= pos <= at < bytes.len(),
        0 <= stage,
        module_laws::is_boundary(bytes, pos, at),
        module::sections_at(bytes, pos, stage, draft) is Read,
    ensures
        holds_section_at(module::sections_at(bytes, pos, stage, draft)->value, bytes, at),
    decreases bytes.len() - pos,
{
    if pos == at {
        lemma_first_section_is_held(bytes, pos, stage, draft);
    } else {
        let id = bytes[pos];
        module_laws::lemma_section_into_extent(bytes, pos, id, draft);
        if let Outcome::Read { value, end } = module::section_into(bytes, pos, id, draft) {
            module_laws::lemma_boundary_in_reach(bytes, end, at);
            lemma_every_section_is_held(bytes, end, module::stage_after(stage, id), value, at);
        }
    }
}

/// An accepted module holds exactly what its sections hold: all types, imports and
/// exports of the section that lists them, in order, the index that the start
/// section gives, and for every function the type index that stands in its place in
/// the function section and the locals and instructions that stand in its place in
/// the code section.
pub proof fn law_module_holds_its_sections(bytes: Seq<u8>, at: int)
    requires
        module::module_of(bytes) is Read,
        module_laws::is_boundary(bytes, 8, at),
        at < bytes.len(),
    ensures
        holds_section_at(module::module_of(bytes)->value, bytes, at),
{
    module_laws::lemma_boundary_in_reach(bytes, 8, at);
    lemma_every_section_is_held(bytes, 8, 0, Draft::empty(), at);
}

/// What no section changes stays as it is until the end.
proof fn lemma_absent_sections_change_nothing(bytes: Seq<u8>, pos: int, stage: int, draft: Draft)
    requires
        0 <= pos <= bytes.len(),
        0 <= stage,
        module::sections_at(bytes, pos, stage, draft) is Read,
    ensures
        ({
            let module = module::sections_at(bytes, pos, stage, draft)->value;
            let ids = module_laws::section_ids(bytes, pos);
            &&& !ids.contains(1) ==> module.types == draft.types
            &&& !ids.contains(2) ==> module.imports == draft.imports
            &&& !ids.contains(3) ==> module.funcs.len() == draft.type_indices.len()
            &&& !ids.contains(7) ==> module.exports == draft.exports
            &&& !ids.contains(8) ==> module.start == draft.start
        }),
    decreases bytes.len() - pos,
{
    if let Some(id) = module::next_section(bytes, pos, stage, draft) {
        module_laws::lemma_section_into_extent(bytes, pos, id, draft);
        if let Outcome::Read { value, end } = module::section_into(bytes, pos, id, draft) {
            let ids = module_laws::section_ids(bytes, pos);
            let rest = module_laws::section_ids(bytes, end);
            assert(ids[0] == id);
            assert forall|other: u8| #[trigger] rest.contains(other) implies ids.contains(
                other,
            ) by {
                let i = choose|i: int| 0 <= i < rest.len() && rest[i] == other;
                assert(ids[i + 1] == other);
            }
            lemma_absent_sections_change_nothing(
                bytes,
                end,
                module::stage_after(stage, id),
                value,
            );
        }
    }
}

/// An accepted module holds nothing that no section gives it.
pub proof fn law_absent_sections_give_nothing(bytes: Seq<u8>)
    requires
        module::module_of(bytes) is Read,
    ensures
        ({
            let module = module::module_of(bytes)->value;
            let ids = module_laws::section_ids(bytes, 8);
            &&& !ids.contains(1) ==> module.types.len() == 0
            &&& !ids.contains(2) ==> module.imports.len() == 0
            &&& !ids.contains(3) ==> module.funcs.len() == 0
            &&& !ids.contains(7) ==> module.exports.len() == 0
            &&& !ids.contains(8) ==> module.start is None
        }),
{
    lemma_absent_sections_change_nothing(bytes, 8, 0, Draft::empty());
}

/// The order in which the format wants its sections, by their ids: type, import,
/// function, table, memory, global, export, start, element, data-count, code, data.
pub open spec fn format_order() -> Seq<u8> {
    seq![1u8, 2u8, 3u8, 4u8, 5u8, 6u8, 7u8, 8u8, 9u8, 12u8, 10u8, 11u8]
}

/// A section with the id `later` may come, at some distance, after one with the id
/// `earlier`: it stands later in the order, or it is one more of a kind that is
/// skipped.
pub open spec fn may_come_after(earlier: u8, later: u8) -> bool {
    exists|i: int, j: int|
        0 <= i <= j < 12 && #[trigger] format_order()[i] == earlier && #[trigger] format_order()[j]
            == later && (i == j ==> is_skippable(earlier))
}

/// Sections that are skipped: table, memory, global, element, data-count and data.
pub open spec fn is_skippable(id: u8) -> bool {
    id == 4 || id == 5 || id == 6 || id == 9 || id == 12 || id == 11
}

/// Ranks are places in the order.
pub(crate) proof fn lemma_order_is_rank(earlier: u8, later: u8)
    ensures
        may_come_after(earlier, later) <==> module::rank(earlier) > 0 && module::may_follow(
            module::rank(earlier),
            later,
        ),
        is_skippable(earlier) == module::is_skipped(earlier),
{
    let order = format_order();
    assert(order[0] == 1 && order[1] == 2 && order[2] == 3 && order[3] == 4 && order[4] == 5
        && order[5] == 6 && order[6] == 7 && order[7] == 8 && order[8] == 9 && order[9] == 12
        && order[10] == 10 && order[11] == 11);
    assert forall|i: int| 0 <= i < 12 implies module::rank(#[trigger] order[i]) == i + 1 by {}
    let i = module::rank(earlier) - 1;
    let j = module::rank(later) - 1;
    if module::rank(earlier) > 0 && module::may_follow(module::rank(earlier), later) {
        assert(order[i] == earlier && order[j] == later);
    }
}

/// In an accepted module every two sections, other than custom ones, are in the
/// format's order, and none but a skipped one comes twice.
pub proof fn law_every_two_sections_are_in_order(bytes: Seq<u8>, i: int, j: int)
    requires
        module::module_of(bytes) is Read,
        0 <= i < j < module_laws::section_ids(bytes, 8).len(),
        module_laws::section_ids(bytes, 8)[i] != 0,
        module_laws::section_ids(bytes, 8)[j] != 0,
    ensures
        may_come_after(
            module_laws::section_ids(bytes, 8)[i],
            module_laws::section_ids(bytes, 8)[j],
        ),
{
    let ids = module_laws::section_ids(bytes, 8);
    module_laws::law_sections_are_in_order(bytes);
    lemma_order_is_rank(ids[i], ids[j]);
}

} // verus!
