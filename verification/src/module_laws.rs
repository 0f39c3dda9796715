//! What holds of every module that [`crate::parse`] accepts.

use crate::extent;
use crate::grammar;
use crate::grammar::{
    Outcome, SECTION_ID_CODE, SECTION_ID_CUSTOM, SECTION_ID_DATA, SECTION_ID_FUNCTION,
    SECTION_ID_IMPORT,
};
use crate::laws;
use crate::locality;
use crate::module;
use crate::module::{Draft, ModuleView};
use crate::types::{ExportDesc, ExternKind};
use vstd::prelude::*;

verus! {

/// The ids of the sections from `pos` on, by their headers alone.
pub open spec fn section_ids(bytes: Seq<u8>, pos: int) -> Seq<u8>
    decreases bytes.len() - pos,
{
    if !(0 <= pos < bytes.len()) {
        seq![]
    } else {
        proof {
            module::lemma_section_into_bounds(bytes, pos, SECTION_ID_DATA, Draft::empty());
        }
        match grammar::any_section_at(bytes, pos) {
            Outcome::Read { value: id, end } => seq![id] + section_ids(bytes, end),
            Outcome::Failed { .. } => seq![],
        }
    }
}

/// A section starts at `at`, or the input ends there, when the input is cut into
/// sections from `pos` on, by their headers alone.
pub open spec fn is_boundary(bytes: Seq<u8>, pos: int, at: int) -> bool
    decreases bytes.len() - pos,
{
    if pos == at {
        true
    } else if !(0 <= pos < bytes.len()) {
        false
    } else {
        proof {
            module::lemma_section_into_bounds(bytes, pos, SECTION_ID_DATA, Draft::empty());
        }
        match grammar::any_section_at(bytes, pos) {
            Outcome::Read { end, .. } => is_boundary(bytes, end, at),
            Outcome::Failed { .. } => false,
        }
    }
}

/// The names of the custom sections that start at `pos` or after it and before
/// `limit`, in order.
pub open spec fn custom_names(bytes: Seq<u8>, pos: int, limit: int) -> Seq<Seq<char>>
    decreases bytes.len() - pos,
{
    if !(0 <= pos < bytes.len()) || pos >= limit {
        seq![]
    } else {
        proof {
            module::lemma_section_into_bounds(bytes, pos, SECTION_ID_DATA, Draft::empty());
        }
        match grammar::any_section_at(bytes, pos) {
            Outcome::Read { end, .. } => match grammar::custom_section_at(bytes, pos) {
                Outcome::Read { value: name, .. } => seq![name] + custom_names(bytes, end, limit),
                Outcome::Failed { .. } => custom_names(bytes, end, limit),
            },
            Outcome::Failed { .. } => seq![],
        }
    }
}

/// Every id is that of a section that this crate knows, and the sections other
/// than custom ones are in order: each stands later in it than those before,
/// except that a section that is skipped may come more than once in a row.
pub open spec fn in_order(ids: Seq<u8>) -> bool {
    &&& forall|i: int|
        0 <= i < ids.len() && #[trigger] ids[i] != SECTION_ID_CUSTOM ==> module::rank(ids[i]) > 0
    &&& forall|i: int, j: int|
        0 <= i < j < ids.len() && #[trigger] ids[i] != SECTION_ID_CUSTOM && #[trigger] ids[j]
            != SECTION_ID_CUSTOM ==> module::may_follow(module::rank(ids[i]), ids[j])
}

/// A section that is taken into the draft is the one that its header announces.
pub(crate) proof fn lemma_section_into_extent(bytes: Seq<u8>, pos: int, id: u8, draft: Draft)
    requires
        0 <= pos < bytes.len(),
        bytes[pos] == id,
        id == SECTION_ID_CUSTOM || module::rank(id) > 0,
    ensures
        module::section_into(bytes, pos, id, draft) matches Outcome::Read { end, .. } ==> pos < end
            <= bytes.len() && grammar::any_section_at(bytes, pos) == (Outcome::Read {
            value: id,
            end,
        }),
{
    module::lemma_section_into_bounds(bytes, pos, id, draft);
    laws::law_sections_end_at_their_declared_size(
        bytes,
        pos,
        draft.types.len(),
        draft.type_indices.len(),
    );
}

/// The sections of an accepted module, from `pos` on, cut the input up exactly,
/// and may all follow a section of rank `stage`.
proof fn lemma_sections_in_order(bytes: Seq<u8>, pos: int, stage: int, draft: Draft)
    requires
        0 <= pos <= bytes.len(),
        0 <= stage,
        module::sections_at(bytes, pos, stage, draft) is Read,
    ensures
        is_boundary(bytes, pos, bytes.len() as int),
        in_order(section_ids(bytes, pos)),
        forall|i: int|
            0 <= i < section_ids(bytes, pos).len() && #[trigger] section_ids(bytes, pos)[i]
                != SECTION_ID_CUSTOM ==> module::may_follow(stage, section_ids(bytes, pos)[i]),
    decreases bytes.len() - pos,
{
    if let Some(id) = module::next_section(bytes, pos, stage, draft) {
        lemma_section_into_extent(bytes, pos, id, draft);
        if let Outcome::Read { value, end } = module::section_into(bytes, pos, id, draft) {
            let next = module::stage_after(stage, id);
            lemma_sections_in_order(bytes, end, next, value);
            let ids = section_ids(bytes, pos);
            let rest = section_ids(bytes, end);
            assert(ids == seq![id] + rest);
            assert forall|i: int|
                0 <= i < ids.len() && #[trigger] ids[i]
                    != SECTION_ID_CUSTOM implies module::may_follow(stage, ids[i])
                && module::rank(ids[i]) > 0 by {
                if i > 0 {
                    assert(rest[i - 1] == ids[i]);
                }
            }
            assert forall|i: int, j: int|
                0 <= i < j < ids.len() && #[trigger] ids[i] != SECTION_ID_CUSTOM
                    && #[trigger] ids[j] != SECTION_ID_CUSTOM implies module::may_follow(
                module::rank(ids[i]),
                ids[j],
            ) by {
                assert(rest[j - 1] == ids[j]);
                if i > 0 {
                    assert(rest[i - 1] == ids[i]);
                }
            }
        }
    }
}

/// The sections of an accepted module follow the header without gaps, up to the
/// end of the input, and - custom sections aside - in the format's order.
pub proof fn law_sections_are_in_order(bytes: Seq<u8>)
    requires
        module::module_of(bytes) is Read,
    ensures
        is_boundary(bytes, 8, bytes.len() as int),
        in_order(section_ids(bytes, 8)),
{
    lemma_sections_in_order(bytes, 8, 0, Draft::empty());
}

/// Nothing is kept of nothing.
proof fn lemma_filter_none(keep: spec_fn(u8) -> bool)
    ensures
        Seq::<u8>::empty().filter(keep) == Seq::<u8>::empty(),
{
    reveal(Seq::filter);
}

/// One id is kept or not.
proof fn lemma_filter_one(id: u8, keep: spec_fn(u8) -> bool)
    ensures
        seq![id].filter(keep) == (if keep(id) {
            seq![id]
        } else {
            seq![]
        }),
{
    reveal(Seq::filter);
    lemma_filter_none(keep);
    assert(seq![id].drop_last() =~= Seq::<u8>::empty());
    assert(Seq::<u8>::empty().push(id) =~= seq![id]);
}

/// How the lists of an accepted module come about, from `pos` on.
proof fn lemma_sections_recorded(bytes: Seq<u8>, pos: int, stage: int, draft: Draft)
    requires
        0 <= pos <= bytes.len(),
        0 <= stage,
        module::sections_at(bytes, pos, stage, draft) is Read,
    ensures
        ({
            let value = module::sections_at(bytes, pos, stage, draft)->value;
            &&& value.custom_sections == draft.custom_sections + custom_names(
                bytes,
                pos,
                bytes.len() as int,
            )
            &&& value.skipped_sections == draft.skipped_sections + section_ids(bytes, pos).filter(
                |id: u8| module::is_skipped(id),
            )
        }),
    decreases bytes.len() - pos,
{
    let skipped = |id: u8| module::is_skipped(id);
    let limit = bytes.len() as int;
    if let Some(id) = module::next_section(bytes, pos, stage, draft) {
        lemma_section_into_extent(bytes, pos, id, draft);
        if let Outcome::Read { value, end } = module::section_into(bytes, pos, id, draft) {
            lemma_sections_recorded(bytes, end, module::stage_after(stage, id), value);
            let rest = section_ids(bytes, end);
            Seq::filter_distributes_over_add(seq![id], rest, skipped);
            lemma_filter_one(id, skipped);
            let tail = custom_names(bytes, end, limit);
            assert(draft.skipped_sections.push(id) + rest.filter(skipped)
                =~= draft.skipped_sections + (seq![id] + rest.filter(skipped)));
            assert(draft.skipped_sections + (Seq::<u8>::empty() + rest.filter(skipped))
                =~= draft.skipped_sections + rest.filter(skipped));
            if id == SECTION_ID_CUSTOM {
                let name = grammar::custom_section_at(bytes, pos)->value;
                assert(draft.custom_sections.push(name) + tail =~= draft.custom_sections + (
                seq![name] + tail));
            }
        }
    } else {
        assert(draft.custom_sections + Seq::<Seq<char>>::empty() =~= draft.custom_sections);
        lemma_filter_none(skipped);
        assert(draft.skipped_sections + Seq::<u8>::empty() =~= draft.skipped_sections);
    }
}

/// An accepted module lists the names of all its custom sections, and the ids of
/// all its skipped sections, in the order in which they appear in the input.
pub proof fn law_custom_and_skipped_sections_are_listed(bytes: Seq<u8>)
    requires
        module::module_of(bytes) is Read,
    ensures
        module::module_of(bytes)->value.custom_sections == custom_names(
            bytes,
            8,
            bytes.len() as int,
        ),
        module::module_of(bytes)->value.skipped_sections == section_ids(bytes, 8).filter(
            |id: u8| module::is_skipped(id),
        ),
{
    lemma_sections_recorded(bytes, 8, 0, Draft::empty());
    assert(Seq::<Seq<char>>::empty() + custom_names(bytes, 8, bytes.len() as int) =~= custom_names(
        bytes,
        8,
        bytes.len() as int,
    ));
    let ids = section_ids(bytes, 8).filter(|id: u8| module::is_skipped(id));
    assert(Seq::<u8>::empty() + ids =~= ids);
}

/// The draft refers to no type that it does not have, and holds nothing of
/// sections that come after rank `stage`.
spec fn draft_well_formed(draft: Draft, stage: int) -> bool {
    &&& stage < module::rank(SECTION_ID_IMPORT) ==> draft.imports.len() == 0
    &&& stage < module::rank(SECTION_ID_FUNCTION) ==> draft.type_indices.len() == 0
    &&& forall|i: int|
        0 <= i < draft.imports.len() ==> (#[trigger] draft.imports[i]).desc.well_formed(
            draft.types.len(),
        )
    &&& forall|i: int|
        0 <= i < draft.type_indices.len() ==> (#[trigger] draft.type_indices[i])
            < draft.types.len()
}

/// The module refers to no type that it does not have.
pub open spec fn module_well_formed(module: ModuleView) -> bool {
    &&& forall|i: int|
        0 <= i < module.imports.len() ==> (#[trigger] module.imports[i]).desc.well_formed(
            module.types.len(),
        )
    &&& forall|i: int|
        0 <= i < module.funcs.len() ==> (#[trigger] module.funcs[i]).type_index
            < module.types.len()
}

/// From a draft that refers only to its own types, the sections complete a module
/// that does.
proof fn lemma_sections_well_formed(bytes: Seq<u8>, pos: int, stage: int, draft: Draft)
    requires
        0 <= pos <= bytes.len(),
        0 <= stage,
        draft_well_formed(draft, stage),
        module::sections_at(bytes, pos, stage, draft) is Read,
    ensures
        module_well_formed(module::sections_at(bytes, pos, stage, draft)->value),
    decreases bytes.len() - pos,
{
    if let Some(id) = module::next_section(bytes, pos, stage, draft) {
        lemma_section_into_extent(bytes, pos, id, draft);
        if let Outcome::Read { value, end } = module::section_into(bytes, pos, id, draft) {
            laws::law_imports_are_well_formed(bytes, pos, draft.types.len());
            laws::law_function_types_are_in_range(bytes, pos, draft.types.len());
            lemma_sections_well_formed(bytes, end, module::stage_after(stage, id), value);
        }
    }
}

/// In an accepted module every func import and every function has a type of the
/// module, and no maximum of an imported table or memory is below its minimum.
pub proof fn law_module_types_are_in_range(bytes: Seq<u8>)
    requires
        module::module_of(bytes) is Read,
    ensures
        module_well_formed(module::module_of(bytes)->value),
{
    lemma_sections_well_formed(bytes, 8, 0, Draft::empty());
}

/// Sections complete only modules whose exports are in range.
proof fn lemma_sections_export_in_range(bytes: Seq<u8>, pos: int, stage: int, draft: Draft)
    requires
        0 <= pos <= bytes.len(),
        module::sections_at(bytes, pos, stage, draft) is Read,
    ensures
        module::sections_at(bytes, pos, stage, draft)->value.exports_in_range(),
    decreases bytes.len() - pos,
{
    if let Some(id) = module::next_section(bytes, pos, stage, draft) {
        module::lemma_section_into_bounds(bytes, pos, id, draft);
        if let Outcome::Read { value, end } = module::section_into(bytes, pos, id, draft) {
            lemma_sections_export_in_range(bytes, end, module::stage_after(stage, id), value);
        }
    }
}

/// Every func export of an accepted module names a function that the module
/// imports or defines. A table, memory or global export names one that it imports,
/// unless a section that may define more was skipped.
pub proof fn law_exports_are_in_range(bytes: Seq<u8>)
    requires
        module::module_of(bytes) is Read,
    ensures
        module::module_of(bytes)->value.exports_in_range(),
        ({
            let module = module::module_of(bytes)->value;
            forall|i: int|
                0 <= i < module.exports.len() ==> ((#[trigger] module.exports[i]).desc matches
                    ExportDesc::Func(index) ==> index < module::imports_of_kind(
                    module.imports,
                    ExternKind::Func,
                ) + module.funcs.len())
        }),
{
    lemma_sections_export_in_range(bytes, 8, 0, Draft::empty());
}

/// Sections that complete a module with functions, from a draft without code, have
/// a code section among them.
proof fn lemma_sections_have_code(bytes: Seq<u8>, pos: int, stage: int, draft: Draft)
    requires
        0 <= pos <= bytes.len(),
        0 <= stage,
        draft.codes.len() == 0,
        module::sections_at(bytes, pos, stage, draft) is Read,
        module::sections_at(bytes, pos, stage, draft)->value.funcs.len() > 0,
    ensures
        section_ids(bytes, pos).contains(SECTION_ID_CODE),
    decreases bytes.len() - pos,
{
    if let Some(id) = module::next_section(bytes, pos, stage, draft) {
        lemma_section_into_extent(bytes, pos, id, draft);
        if let Outcome::Read { value, end } = module::section_into(bytes, pos, id, draft) {
            let rest = section_ids(bytes, end);
            let ids = section_ids(bytes, pos);
            if id == SECTION_ID_CODE {
                assert(ids[0] == SECTION_ID_CODE);
            } else {
                lemma_sections_have_code(bytes, end, module::stage_after(stage, id), value);
                let i = choose|i: int| 0 <= i < rest.len() && rest[i] == SECTION_ID_CODE;
                assert(ids[i + 1] == SECTION_ID_CODE);
            }
        }
    }
}

/// An accepted module that declares functions has a code section.
pub proof fn law_functions_need_code(bytes: Seq<u8>)
    requires
        module::module_of(bytes) is Read,
        module::module_of(bytes)->value.funcs.len() > 0,
    ensures
        section_ids(bytes, 8).contains(SECTION_ID_CODE),
{
    lemma_sections_have_code(bytes, 8, 0, Draft::empty());
}

/// The sections from `pos` on end, or fail, inside the input.
proof fn lemma_sections_error_in_bounds(bytes: Seq<u8>, pos: int, stage: int, draft: Draft)
    requires
        0 <= pos <= bytes.len(),
    ensures
        extent::in_bounds(module::sections_at(bytes, pos, stage, draft), pos, bytes.len()),
    decreases bytes.len() - pos,
{
    if let Some(id) = module::next_section(bytes, pos, stage, draft) {
        module::lemma_section_into_bounds(bytes, pos, id, draft);
        if let Outcome::Read { value, end } = module::section_into(bytes, pos, id, draft) {
            lemma_sections_error_in_bounds(bytes, end, module::stage_after(stage, id), value);
        }
    }
}

/// An accepted module takes up the whole input; the error for a rejected one
/// names an offset in the input, or its end.
pub proof fn law_errors_lie_in_the_input(bytes: Seq<u8>)
    ensures
        match module::module_of(bytes) {
            Outcome::Read { end, .. } => end == bytes.len(),
            Outcome::Failed { offset, .. } => 0 <= offset <= bytes.len(),
        },
{
    if grammar::header_of(bytes) is Read {
        lemma_sections_error_in_bounds(bytes, 8, 0, Draft::empty());
        lemma_sections_reach_the_end(bytes, 8, 0, Draft::empty());
    }
}

/// Sections that complete a module go on to the end of the input.
proof fn lemma_sections_reach_the_end(bytes: Seq<u8>, pos: int, stage: int, draft: Draft)
    requires
        0 <= pos <= bytes.len(),
    ensures
        module::sections_at(bytes, pos, stage, draft) matches Outcome::Read { end, .. } ==> end
            == bytes.len(),
    decreases bytes.len() - pos,
{
    if let Some(id) = module::next_section(bytes, pos, stage, draft) {
        module::lemma_section_into_bounds(bytes, pos, id, draft);
        if let Outcome::Read { value, end } = module::section_into(bytes, pos, id, draft) {
            lemma_sections_reach_the_end(bytes, end, module::stage_after(stage, id), value);
        }
    }
}

/// A section that is taken into a draft in one input is taken into it wherever
/// its bytes stand.
proof fn lemma_section_into_moves(
    old_bytes: Seq<u8>,
    new_bytes: Seq<u8>,
    shift: int,
    pos: int,
    id: u8,
    draft: Draft,
)
    requires
        0 <= pos <= old_bytes.len(),
        locality::taken(
            module::section_into(old_bytes, pos, id, draft),
            old_bytes,
            new_bytes,
            shift,
            pos,
        ),
    ensures
        module::section_into(new_bytes, pos + shift, id, draft) == locality::shifted(
            module::section_into(old_bytes, pos, id, draft),
            shift,
        ),
{
    if id == SECTION_ID_CUSTOM {
        locality::lemma_custom_section_moves(old_bytes, new_bytes, shift, pos);
    } else if id == grammar::SECTION_ID_TYPE {
        locality::lemma_type_section_moves(old_bytes, new_bytes, shift, pos);
    } else if id == SECTION_ID_IMPORT {
        locality::lemma_import_section_moves(old_bytes, new_bytes, shift, pos, draft.types.len());
    } else if id == SECTION_ID_FUNCTION {
        locality::lemma_function_section_moves(
            old_bytes,
            new_bytes,
            shift,
            pos,
            draft.types.len(),
        );
    } else if id == grammar::SECTION_ID_EXPORT {
        locality::lemma_export_section_moves(old_bytes, new_bytes, shift, pos);
    } else if id == grammar::SECTION_ID_START {
        locality::lemma_start_section_moves(old_bytes, new_bytes, shift, pos);
    } else if id == SECTION_ID_CODE {
        locality::lemma_code_section_moves(
            old_bytes,
            new_bytes,
            shift,
            pos,
            draft.type_indices.len(),
        );
    } else {
        locality::lemma_any_section_moves(old_bytes, new_bytes, shift, pos);
    }
}

/// The same sections at the end of another input complete the same module.
proof fn lemma_sections_move(
    old_bytes: Seq<u8>,
    new_bytes: Seq<u8>,
    shift: int,
    pos: int,
    stage: int,
    draft: Draft,
)
    requires
        0 <= pos <= old_bytes.len(),
        new_bytes.len() == old_bytes.len() + shift,
        locality::same_bytes(old_bytes, new_bytes, shift, pos, old_bytes.len() as int),
        module::sections_at(old_bytes, pos, stage, draft) is Read,
    ensures
        module::sections_at(new_bytes, pos + shift, stage, draft) == locality::shifted(
            module::sections_at(old_bytes, pos, stage, draft),
            shift,
        ),
    decreases old_bytes.len() - pos,
{
    if pos < old_bytes.len() {
        assert(old_bytes[pos] == new_bytes[pos + shift]);
    }
    if let Some(id) = module::next_section(old_bytes, pos, stage, draft) {
        module::lemma_section_into_bounds(old_bytes, pos, id, draft);
        if let Outcome::Read { value, end } = module::section_into(old_bytes, pos, id, draft) {
            lemma_section_into_moves(old_bytes, new_bytes, shift, pos, id, draft);
            lemma_sections_move(
                old_bytes,
                new_bytes,
                shift,
                end,
                module::stage_after(stage, id),
                value,
            );
        }
    }
}

/// The names of custom sections read earlier make no difference to the sections
/// that follow.
proof fn lemma_earlier_names_do_not_matter(
    bytes: Seq<u8>,
    pos: int,
    stage: int,
    draft: Draft,
    names: Seq<Seq<char>>,
)
    requires
        0 <= pos <= bytes.len(),
        0 <= stage,
        module::sections_at(bytes, pos, stage, draft) is Read,
    ensures
        module::sections_at(bytes, pos, stage, Draft { custom_sections: names, ..draft }) == (
        Outcome::Read {
            value: ModuleView {
                custom_sections: names + custom_names(bytes, pos, bytes.len() as int),
                ..module::sections_at(bytes, pos, stage, draft)->value
            },
            end: module::sections_at(bytes, pos, stage, draft)->end,
        }),
    decreases bytes.len() - pos,
{
    let other = Draft { custom_sections: names, ..draft };
    let limit = bytes.len() as int;
    if let Some(id) = module::next_section(bytes, pos, stage, draft) {
        lemma_section_into_extent(bytes, pos, id, draft);
        if let Outcome::Read { value, end } = module::section_into(bytes, pos, id, draft) {
            let next = module::stage_after(stage, id);
            if id == SECTION_ID_CUSTOM {
                let name = grammar::custom_section_at(bytes, pos)->value;
                lemma_earlier_names_do_not_matter(bytes, end, next, value, names.push(name));
                assert(names.push(name) + custom_names(bytes, end, limit) =~= names + (seq![name]
                    + custom_names(bytes, end, limit)));
            } else {
                lemma_earlier_names_do_not_matter(bytes, end, next, value, names);
            }
        }
    } else {
        assert(other.module().funcs =~= draft.module().funcs);
        assert(names + Seq::<Seq<char>>::empty() =~= names);
    }
}

/// The input with `inserted` put in at `at`.
pub open spec fn with_insertion(bytes: Seq<u8>, at: int, inserted: Seq<u8>) -> Seq<u8> {
    bytes.take(at) + inserted + bytes.skip(at)
}

/// `custom` is one custom section called `name`, and nothing else.
pub open spec fn is_custom_section(custom: Seq<u8>, name: Seq<char>) -> bool {
    grammar::custom_section_at(custom, 0) == (Outcome::Read {
        value: name,
        end: custom.len() as int,
    })
}

/// Section boundaries before the insertion stay where they are, and what comes
/// after it is moved.
proof fn lemma_insertion_keeps_bytes(bytes: Seq<u8>, at: int, custom: Seq<u8>, name: Seq<char>)
    requires
        0 <= at <= bytes.len(),
        is_custom_section(custom, name),
    ensures
        ({
            let longer = with_insertion(bytes, at, custom);
            let shift = custom.len() as int;
            &&& longer.len() == bytes.len() + shift
            &&& locality::same_bytes(bytes, longer, 0, 0, at)
            &&& locality::same_bytes(longer, bytes, 0, 0, at)
            &&& locality::same_bytes(bytes, longer, shift, at, bytes.len() as int)
            &&& locality::same_bytes(longer, bytes, -shift, at + shift, longer.len() as int)
            &&& 0 < shift
            &&& longer[at] == SECTION_ID_CUSTOM
            &&& grammar::custom_section_at(longer, at) == (Outcome::Read {
                value: name,
                end: at + shift,
            })
        }),
{
    let longer = with_insertion(bytes, at, custom);
    extent::lemma_custom_section_bounds(custom, 0);
    assert(locality::same_bytes(custom, longer, at, 0, custom.len() as int));
    locality::lemma_custom_section_moves(custom, longer, at, 0);
    assert(custom[0] == longer[at]);
}

/// With a custom section put in right where they start, the same sections
/// complete the same module but for the name of that section.
proof fn lemma_insertion_here(
    bytes: Seq<u8>,
    at: int,
    custom: Seq<u8>,
    name: Seq<char>,
    stage: int,
    draft: Draft,
)
    requires
        0 <= at <= bytes.len(),
        0 <= stage,
        is_custom_section(custom, name),
        module::remaining(bytes, at, stage, draft) is Read,
    ensures
        module::remaining(with_insertion(bytes, at, custom), at, stage, draft) == (
        Outcome::Read {
            value: ModuleView {
                custom_sections: draft.custom_sections.push(name) + custom_names(
                    bytes,
                    at,
                    bytes.len() as int,
                ),
                ..module::remaining(bytes, at, stage, draft)->value
            },
            end: (bytes.len() + custom.len()) as int,
        }),
{
    reveal(module::remaining);
    let longer = with_insertion(bytes, at, custom);
    let names = draft.custom_sections.push(name);
    let next = Draft { custom_sections: names, ..draft };
    lemma_insertion_keeps_bytes(bytes, at, custom, name);
    lemma_earlier_names_do_not_matter(bytes, at, stage, draft, names);
    lemma_sections_reach_the_end(bytes, at, stage, draft);
    lemma_sections_move(bytes, longer, custom.len() as int, at, stage, next);
}

/// Before the insertion, a step reads the same section with it and without it.
proof fn lemma_insertion_step(
    bytes: Seq<u8>,
    at: int,
    custom: Seq<u8>,
    name: Seq<char>,
    pos: int,
    stage: int,
    draft: Draft,
)
    requires
        0 <= pos < at <= bytes.len(),
        is_custom_section(custom, name),
        is_boundary(bytes, pos, at),
        module::next_section(bytes, pos, stage, draft) == Some(bytes[pos]),
        module::section_into(bytes, pos, bytes[pos], draft) is Read,
        0 <= stage,
    ensures
        ({
            let longer = with_insertion(bytes, at, custom);
            let value = module::section_into(bytes, pos, bytes[pos], draft)->value;
            let end = module::section_into(bytes, pos, bytes[pos], draft)->end;
            let next = module::stage_after(stage, bytes[pos]);
            &&& pos < end <= at
            &&& 0 <= next
            &&& is_boundary(bytes, end, at)
            &&& module::remaining(bytes, pos, stage, draft) == module::remaining(
                bytes,
                end,
                next,
                value,
            )
            &&& module::remaining(longer, pos, stage, draft) == module::remaining(
                longer,
                end,
                next,
                value,
            )
        }),
{
    let longer = with_insertion(bytes, at, custom);
    let id = bytes[pos];
    let end = module::section_into(bytes, pos, id, draft)->end;
    lemma_insertion_keeps_bytes(bytes, at, custom, name);
    assert(bytes[pos] == longer[pos]);
    assert(pos < end <= at && is_boundary(bytes, end, at)) by {
        lemma_section_into_extent(bytes, pos, id, draft);
        lemma_boundary_in_reach(bytes, grammar::any_section_at(bytes, pos)->end, at);
    }
    lemma_section_into_moves(bytes, longer, 0, pos, id, draft);
    lemma_step(bytes, pos, stage, draft);
    lemma_step(longer, pos, stage, draft);
}

/// Where sections complete a module and the input goes on, there is a section to
/// read.
proof fn lemma_section_comes_next(bytes: Seq<u8>, pos: int, stage: int, draft: Draft)
    requires
        0 <= pos < bytes.len(),
        module::remaining(bytes, pos, stage, draft) is Read,
        0 <= stage,
    ensures
        module::next_section(bytes, pos, stage, draft) == Some(bytes[pos]),
        module::section_into(bytes, pos, bytes[pos], draft) is Read,
        bytes[pos] == SECTION_ID_CUSTOM || module::rank(bytes[pos]) > 0,
{
    reveal(module::remaining);
}

/// With a custom section put in at a boundary, the sections from `pos` on still
/// complete a module, the same one but for the name of that section.
proof fn lemma_insertion_accepted(
    bytes: Seq<u8>,
    at: int,
    custom: Seq<u8>,
    name: Seq<char>,
    pos: int,
    stage: int,
    draft: Draft,
)
    requires
        0 <= pos <= at <= bytes.len(),
        0 <= stage,
        is_custom_section(custom, name),
        is_boundary(bytes, pos, at),
        module::remaining(bytes, pos, stage, draft) is Read,
    ensures
        module::remaining(with_insertion(bytes, at, custom), pos, stage, draft) == (Outcome::Read {
            value: ModuleView {
                custom_sections: draft.custom_sections + (custom_names(bytes, pos, at) + seq![name]
                    + custom_names(bytes, at, bytes.len() as int)),
                ..module::remaining(bytes, pos, stage, draft)->value
            },
            end: (bytes.len() + custom.len()) as int,
        }),
    decreases bytes.len() - pos,
{
    let after = custom_names(bytes, at, bytes.len() as int);
    if pos == at {
        lemma_insertion_here(bytes, at, custom, name, stage, draft);
        assert(custom_names(bytes, pos, at) =~= seq![]);
        assert(draft.custom_sections.push(name) + after =~= draft.custom_sections + (custom_names(
            bytes,
            pos,
            at,
        ) + seq![name] + after));
    } else {
        lemma_section_comes_next(bytes, pos, stage, draft);
        lemma_insertion_step(bytes, at, custom, name, pos, stage, draft);
        lemma_section_into_names(bytes, pos, bytes[pos], draft, at);
        let value = module::section_into(bytes, pos, bytes[pos], draft)->value;
        let end = module::section_into(bytes, pos, bytes[pos], draft)->end;
        lemma_insertion_accepted(
            bytes,
            at,
            custom,
            name,
            end,
            module::stage_after(stage, bytes[pos]),
            value,
        );
        let own = custom_names(bytes, pos, pos + 1);
        let before = custom_names(bytes, end, at);
        assert((draft.custom_sections + own) + (before + seq![name] + after)
            =~= draft.custom_sections + ((own + before) + seq![name] + after));
    }
}

/// What a section adds to the names: its own name if it is a custom section.
proof fn lemma_section_into_names(bytes: Seq<u8>, pos: int, id: u8, draft: Draft, limit: int)
    requires
        0 <= pos < bytes.len(),
        pos < limit,
        bytes[pos] == id,
        id == SECTION_ID_CUSTOM || module::rank(id) > 0,
    ensures
        module::section_into(bytes, pos, id, draft) matches Outcome::Read { value, end } ==> {
            &&& value.custom_sections == draft.custom_sections + custom_names(bytes, pos, pos + 1)
            &&& custom_names(bytes, pos, limit) == custom_names(bytes, pos, pos + 1)
                + custom_names(bytes, end, limit)
        },
{
    lemma_section_into_extent(bytes, pos, id, draft);
    if let Outcome::Read { end, .. } = module::section_into(bytes, pos, id, draft) {
        assert(custom_names(bytes, end, pos + 1) =~= seq![]);
        let tail = custom_names(bytes, end, limit);
        assert(Seq::<Seq<char>>::empty() + tail =~= tail);
        assert(draft.custom_sections + Seq::<Seq<char>>::empty() =~= draft.custom_sections);
        if id == SECTION_ID_CUSTOM {
            let name = grammar::custom_section_at(bytes, pos)->value;
            assert(custom_names(bytes, pos, pos + 1) =~= seq![name]);
            assert(draft.custom_sections.push(name) =~= draft.custom_sections + seq![name]);
        }
    }
}

/// A boundary lies at or after the position from which the input is cut up.
pub(crate) proof fn lemma_boundary_in_reach(bytes: Seq<u8>, pos: int, at: int)
    requires
        0 <= pos <= bytes.len(),
        is_boundary(bytes, pos, at),
    ensures
        pos <= at <= bytes.len(),
    decreases bytes.len() - pos,
{
    if pos != at {
        extent::lemma_any_section_bounds(bytes, pos);
        if let Outcome::Read { end, .. } = grammar::any_section_at(bytes, pos) {
            lemma_boundary_in_reach(bytes, end, at);
        }
    }
}

/// One step: the section at `pos` is read, and the sections after it go on.
pub(crate) proof fn lemma_step(bytes: Seq<u8>, pos: int, stage: int, draft: Draft)
    requires
        0 <= pos < bytes.len(),
        module::next_section(bytes, pos, stage, draft) == Some(bytes[pos]),
        module::section_into(bytes, pos, bytes[pos], draft) is Read,
    ensures
        module::remaining(bytes, pos, stage, draft) == module::remaining(
            bytes,
            module::section_into(bytes, pos, bytes[pos], draft)->end,
            module::stage_after(stage, bytes[pos]),
            module::section_into(bytes, pos, bytes[pos], draft)->value,
        ),
{
    reveal(module::remaining);
}

/// A step before the insertion, read with it, is read without it too.
proof fn lemma_insertion_step_undone(
    bytes: Seq<u8>,
    at: int,
    custom: Seq<u8>,
    name: Seq<char>,
    pos: int,
    stage: int,
    draft: Draft,
)
    requires
        0 <= pos < at <= bytes.len(),
        is_custom_section(custom, name),
        is_boundary(bytes, pos, at),
        bytes[pos] == SECTION_ID_CUSTOM || module::rank(bytes[pos]) > 0,
        module::section_into(with_insertion(bytes, at, custom), pos, bytes[pos], draft) is Read,
    ensures
        module::section_into(bytes, pos, bytes[pos], draft) == module::section_into(
            with_insertion(bytes, at, custom),
            pos,
            bytes[pos],
            draft,
        ),
{
    let longer = with_insertion(bytes, at, custom);
    let id = bytes[pos];
    lemma_insertion_keeps_bytes(bytes, at, custom, name);
    assert(bytes[pos] == longer[pos]);
    let end = module::section_into(longer, pos, id, draft)->end;
    assert(pos < end <= at) by {
        lemma_section_into_extent(longer, pos, id, draft);
        extent::lemma_any_section_bounds(bytes, pos);
        lemma_boundary_in_reach(bytes, grammar::any_section_at(bytes, pos)->end, at);
        locality::lemma_any_section_moves(bytes, longer, 0, pos);
    }
    lemma_section_into_moves(longer, bytes, 0, pos, id, draft);
}

/// Without the custom section that was put in right where they start, the
/// sections still complete a module.
proof fn lemma_insertion_here_undone(
    bytes: Seq<u8>,
    at: int,
    custom: Seq<u8>,
    name: Seq<char>,
    stage: int,
    draft: Draft,
)
    requires
        0 <= at <= bytes.len(),
        0 <= stage,
        is_custom_section(custom, name),
        module::remaining(with_insertion(bytes, at, custom), at, stage, draft) is Read,
    ensures
        module::remaining(bytes, at, stage, draft) is Read,
{
    reveal(module::remaining);
    let longer = with_insertion(bytes, at, custom);
    let shift = custom.len() as int;
    let next = Draft { custom_sections: draft.custom_sections.push(name), ..draft };
    lemma_insertion_keeps_bytes(bytes, at, custom, name);
    lemma_sections_move(longer, bytes, -shift, at + shift, stage, next);
    lemma_earlier_names_do_not_matter(bytes, at, stage, next, draft.custom_sections);
    assert(Draft { custom_sections: draft.custom_sections, ..next } == draft);
}

/// Without the custom section that was put in at a boundary, the sections from
/// `pos` on still complete a module.
proof fn lemma_insertion_undone(
    bytes: Seq<u8>,
    at: int,
    custom: Seq<u8>,
    name: Seq<char>,
    pos: int,
    stage: int,
    draft: Draft,
)
    requires
        0 <= pos <= at <= bytes.len(),
        0 <= stage,
        is_custom_section(custom, name),
        is_boundary(bytes, pos, at),
        module::remaining(with_insertion(bytes, at, custom), pos, stage, draft) is Read,
    ensures
        module::remaining(bytes, pos, stage, draft) is Read,
    decreases bytes.len() - pos,
{
    let longer = with_insertion(bytes, at, custom);
    if pos == at {
        lemma_insertion_here_undone(bytes, at, custom, name, stage, draft);
    } else {
        assert(longer.len() == bytes.len() + custom.len());
        assert(bytes[pos] == longer[pos]);
        lemma_section_comes_next(longer, pos, stage, draft);
        lemma_step(longer, pos, stage, draft);
        lemma_insertion_step_undone(bytes, at, custom, name, pos, stage, draft);
        lemma_step(bytes, pos, stage, draft);
        lemma_insertion_step(bytes, at, custom, name, pos, stage, draft);
        lemma_insertion_undone(
            bytes,
            at,
            custom,
            name,
            module::section_into(bytes, pos, bytes[pos], draft)->end,
            module::stage_after(stage, bytes[pos]),
            module::section_into(bytes, pos, bytes[pos], draft)->value,
        );
    }
}

/// A custom section may stand anywhere after the header, at any boundary between
/// sections: with one put in there, a module is accepted exactly when it was
/// accepted without it, and nothing in it changes except that the section's name
/// is listed, between the names of the custom sections before and after it.
pub proof fn law_custom_sections_may_stand_anywhere(
    bytes: Seq<u8>,
    at: int,
    custom: Seq<u8>,
    name: Seq<char>,
)
    requires
        grammar::header_of(bytes) is Read,
        is_boundary(bytes, 8, at),
        is_custom_section(custom, name),
    ensures
        module::module_of(with_insertion(bytes, at, custom)) is Read <==> module::module_of(
            bytes,
        ) is Read,
        module::module_of(bytes) is Read ==> {
            let module = module::module_of(bytes)->value;
            let longer = module::module_of(with_insertion(bytes, at, custom))->value;
            let before = custom_names(bytes, 8, at);
            let after = custom_names(bytes, at, bytes.len() as int);
            &&& module.custom_sections == before + after
            &&& longer == (ModuleView { custom_sections: before + seq![name] + after, ..module })
        },
{
    let longer = with_insertion(bytes, at, custom);
    let draft = Draft::empty();
    lemma_boundary_in_reach(bytes, 8, at);
    lemma_insertion_keeps_bytes(bytes, at, custom, name);
    assert(longer.take(4) =~= bytes.take(4));
    assert forall|i: int| 0 <= i < 8 implies #[trigger] bytes[i] == longer[i] by {}
    assert(grammar::header_of(longer) == grammar::header_of(bytes)) by {
        assert(bytes[4] == longer[4] && bytes[5] == longer[5] && bytes[6] == longer[6] && bytes[7]
            == longer[7]);
    }
    reveal(module::remaining);
    if module::module_of(bytes) is Read {
        let before = custom_names(bytes, 8, at);
        let after = custom_names(bytes, at, bytes.len() as int);
        lemma_insertion_accepted(bytes, at, custom, name, 8, 0, draft);
        law_custom_and_skipped_sections_are_listed(bytes);
        lemma_names_split(bytes, 8, at);
        assert(draft.custom_sections + (before + seq![name] + after) =~= before + seq![name]
            + after);
    }
    if module::module_of(longer) is Read {
        lemma_insertion_undone(bytes, at, custom, name, 8, 0, draft);
    }
}

/// The names of all custom sections are those before a boundary, then those from
/// it on.
proof fn lemma_names_split(bytes: Seq<u8>, pos: int, at: int)
    requires
        0 <= pos <= bytes.len(),
        is_boundary(bytes, pos, at),
    ensures
        custom_names(bytes, pos, bytes.len() as int) == custom_names(bytes, pos, at) + custom_names(
            bytes,
            at,
            bytes.len() as int,
        ),
    decreases bytes.len() - pos,
{
    let limit = bytes.len() as int;
    lemma_boundary_in_reach(bytes, pos, at);
    if pos == at {
        assert(custom_names(bytes, pos, at) =~= seq![]);
        assert(Seq::<Seq<char>>::empty() + custom_names(bytes, at, limit) =~= custom_names(
            bytes,
            at,
            limit,
        ));
    } else {
        extent::lemma_any_section_bounds(bytes, pos);
        if let Outcome::Read { end, .. } = grammar::any_section_at(bytes, pos) {
            lemma_names_split(bytes, end, at);
            if let Outcome::Read { value: name, .. } = grammar::custom_section_at(bytes, pos) {
                assert(seq![name] + (custom_names(bytes, end, at) + custom_names(bytes, at, limit))
                    =~= seq![name] + custom_names(bytes, end, at) + custom_names(
                    bytes,
                    at,
                    limit,
                ));
            }
        }
    }
}

/// The two inputs are equally long and differ at most from `lo` up to `hi`.
pub open spec fn differ_within(
    old_bytes: Seq<u8>,
    new_bytes: Seq<u8>,
    lo: int,
    hi: int,
) -> bool {
    &&& 0 <= lo <= hi <= old_bytes.len()
    &&& old_bytes.len() == new_bytes.len()
    &&& forall|i: int|
        0 <= i < old_bytes.len() && !(lo <= i < hi) ==> #[trigger] old_bytes[i] == new_bytes[i]
}

/// What is read of a section stays the same, into whatever draft.
#[verifier::opaque]
spec fn reads_the_same(old_bytes: Seq<u8>, new_bytes: Seq<u8>, pos: int) -> bool {
    forall|draft: Draft|
        #![trigger module::section_into(old_bytes, pos, old_bytes[pos], draft)]
        module::section_into(old_bytes, pos, old_bytes[pos], draft) is Read
            ==> module::section_into(new_bytes, pos, old_bytes[pos], draft)
            == module::section_into(old_bytes, pos, old_bytes[pos], draft)
}

/// Where the same is read of one section in two inputs that go on alike, the same
/// module is completed.
proof fn lemma_change_here(
    old_bytes: Seq<u8>,
    new_bytes: Seq<u8>,
    pos: int,
    stage: int,
    draft: Draft,
)
    requires
        0 <= pos < old_bytes.len(),
        0 <= stage,
        old_bytes.len() == new_bytes.len(),
        old_bytes[pos] == new_bytes[pos],
        reads_the_same(old_bytes, new_bytes, pos),
        grammar::any_section_at(old_bytes, pos) matches Outcome::Read { end, .. }
            && locality::same_bytes(old_bytes, new_bytes, 0, end, old_bytes.len() as int),
        module::remaining(old_bytes, pos, stage, draft) is Read,
    ensures
        module::remaining(new_bytes, pos, stage, draft) == module::remaining(
            old_bytes,
            pos,
            stage,
            draft,
        ),
{
    reveal(reads_the_same);
    lemma_section_comes_next(old_bytes, pos, stage, draft);
    lemma_section_into_extent(old_bytes, pos, old_bytes[pos], draft);
    lemma_step(old_bytes, pos, stage, draft);
    lemma_step(new_bytes, pos, stage, draft);
    let value = module::section_into(old_bytes, pos, old_bytes[pos], draft)->value;
    let end = module::section_into(old_bytes, pos, old_bytes[pos], draft)->end;
    let next = module::stage_after(stage, old_bytes[pos]);
    assert(module::remaining(new_bytes, end, next, value) == module::remaining(
        old_bytes,
        end,
        next,
        value,
    )) by {
        reveal(module::remaining);
        lemma_sections_move(old_bytes, new_bytes, 0, end, next, value);
    }
}

/// A step before a change reads the same.
proof fn lemma_change_later(
    old_bytes: Seq<u8>,
    new_bytes: Seq<u8>,
    at: int,
    pos: int,
    stage: int,
    draft: Draft,
)
    requires
        0 <= pos < at <= old_bytes.len(),
        0 <= stage,
        locality::same_bytes(old_bytes, new_bytes, 0, 0, at),
        is_boundary(old_bytes, pos, at),
        module::next_section(old_bytes, pos, stage, draft) == Some(old_bytes[pos]),
        module::section_into(old_bytes, pos, old_bytes[pos], draft) is Read,
    ensures
        pos < module::section_into(old_bytes, pos, old_bytes[pos], draft)->end <= at,
        is_boundary(
            old_bytes,
            module::section_into(old_bytes, pos, old_bytes[pos], draft)->end,
            at,
        ),
        module::section_into(new_bytes, pos, old_bytes[pos], draft) == module::section_into(
            old_bytes,
            pos,
            old_bytes[pos],
            draft,
        ),
{
    lemma_section_into_extent(old_bytes, pos, old_bytes[pos], draft);
    lemma_boundary_in_reach(old_bytes, grammar::any_section_at(old_bytes, pos)->end, at);
    lemma_section_into_moves(old_bytes, new_bytes, 0, pos, old_bytes[pos], draft);
}

/// A change inside one section that does not change what is read of it changes
/// nothing about the module.
proof fn lemma_change_inside_section(
    old_bytes: Seq<u8>,
    new_bytes: Seq<u8>,
    at: int,
    lo: int,
    hi: int,
    pos: int,
    stage: int,
    draft: Draft,
)
    requires
        differ_within(old_bytes, new_bytes, lo, hi),
        0 <= pos <= at < lo,
        0 <= stage,
        is_boundary(old_bytes, pos, at),
        grammar::any_section_at(old_bytes, at) matches Outcome::Read { end, .. } && hi <= end
            <= old_bytes.len(),
        reads_the_same(old_bytes, new_bytes, at),
        module::remaining(old_bytes, pos, stage, draft) is Read,
    ensures
        module::remaining(new_bytes, pos, stage, draft) == module::remaining(
            old_bytes,
            pos,
            stage,
            draft,
        ),
    decreases old_bytes.len() - pos,
{
    assert(old_bytes[pos] == new_bytes[pos]);
    if pos == at {
        lemma_change_here(old_bytes, new_bytes, pos, stage, draft);
    } else {
        lemma_section_comes_next(old_bytes, pos, stage, draft);
        lemma_change_later(old_bytes, new_bytes, at, pos, stage, draft);
        lemma_step(old_bytes, pos, stage, draft);
        lemma_step(new_bytes, pos, stage, draft);
        lemma_change_inside_section(
            old_bytes,
            new_bytes,
            at,
            lo,
            hi,
            module::section_into(old_bytes, pos, old_bytes[pos], draft)->end,
            module::stage_after(stage, old_bytes[pos]),
            module::section_into(old_bytes, pos, old_bytes[pos], draft)->value,
        );
    }
}

/// A change in the contents of a skipped section is not read.
proof fn lemma_skipped_change_unread(old_bytes: Seq<u8>, new_bytes: Seq<u8>, at: int)
    requires
        0 <= at < old_bytes.len(),
        module::is_skipped(old_bytes[at]),
        grammar::any_section_at(old_bytes, at) is Read,
        differ_within(
            old_bytes,
            new_bytes,
            grammar::section_header_at(old_bytes, at)->end,
            grammar::any_section_at(old_bytes, at)->end,
        ),
    ensures
        at < grammar::section_header_at(old_bytes, at)->end,
        reads_the_same(old_bytes, new_bytes, at),
{
    extent::lemma_section_header_bounds(old_bytes, at);
    assert(grammar::any_section_at(new_bytes, at) == grammar::any_section_at(old_bytes, at)) by {
        locality::lemma_section_header_moves(old_bytes, new_bytes, 0, at);
    }
    reveal(reads_the_same);
}

/// The contents of a section that is skipped make no difference: with anything
/// else of the same size in their place, the same module is read.
pub proof fn law_skipped_contents_do_not_matter(
    old_bytes: Seq<u8>,
    new_bytes: Seq<u8>,
    at: int,
)
    requires
        module::module_of(old_bytes) is Read,
        is_boundary(old_bytes, 8, at),
        0 <= at < old_bytes.len(),
        module::is_skipped(old_bytes[at]),
        differ_within(
            old_bytes,
            new_bytes,
            grammar::section_header_at(old_bytes, at)->end,
            grammar::any_section_at(old_bytes, at)->end,
        ),
    ensures
        module::module_of(new_bytes) == module::module_of(old_bytes),
{
    lemma_boundary_in_reach(old_bytes, 8, at);
    lemma_boundary_has_section(old_bytes, 8, 0, Draft::empty(), at);
    lemma_skipped_change_unread(old_bytes, new_bytes, at);
    lemma_change_inside_module(
        old_bytes,
        new_bytes,
        at,
        grammar::section_header_at(old_bytes, at)->end,
        grammar::any_section_at(old_bytes, at)->end,
    );
}

/// A change in the contents of a custom section, after its name, is not read.
proof fn lemma_custom_change_unread(old_bytes: Seq<u8>, new_bytes: Seq<u8>, at: int)
    requires
        0 <= at < old_bytes.len(),
        old_bytes[at] == SECTION_ID_CUSTOM,
        grammar::custom_section_at(old_bytes, at) is Read,
        differ_within(
            old_bytes,
            new_bytes,
            grammar::name_at(old_bytes, grammar::section_header_at(old_bytes, at)->end)->end,
            grammar::any_section_at(old_bytes, at)->end,
        ),
    ensures
        at < grammar::name_at(old_bytes, grammar::section_header_at(old_bytes, at)->end)->end,
        reads_the_same(old_bytes, new_bytes, at),
{
    let start = grammar::section_header_at(old_bytes, at)->end;
    extent::lemma_section_header_bounds(old_bytes, at);
    extent::lemma_name_bounds(old_bytes, start);
    assert(grammar::custom_section_at(new_bytes, at) == grammar::custom_section_at(old_bytes, at))
        by {
        locality::lemma_section_header_moves(old_bytes, new_bytes, 0, at);
        locality::lemma_name_moves(old_bytes, new_bytes, 0, start);
    }
    reveal(reads_the_same);
}

/// What follows the name in a custom section makes no difference: with anything
/// else of the same size in its place, the same module is read.
pub proof fn law_custom_contents_do_not_matter(
    old_bytes: Seq<u8>,
    new_bytes: Seq<u8>,
    at: int,
)
    requires
        module::module_of(old_bytes) is Read,
        is_boundary(old_bytes, 8, at),
        0 <= at < old_bytes.len(),
        old_bytes[at] == SECTION_ID_CUSTOM,
        differ_within(
            old_bytes,
            new_bytes,
            grammar::name_at(old_bytes, grammar::section_header_at(old_bytes, at)->end)->end,
            grammar::any_section_at(old_bytes, at)->end,
        ),
    ensures
        module::module_of(new_bytes) == module::module_of(old_bytes),
{
    lemma_boundary_in_reach(old_bytes, 8, at);
    lemma_boundary_has_section(old_bytes, 8, 0, Draft::empty(), at);
    lemma_custom_change_unread(old_bytes, new_bytes, at);
    lemma_change_inside_module(
        old_bytes,
        new_bytes,
        at,
        grammar::name_at(old_bytes, grammar::section_header_at(old_bytes, at)->end)->end,
        grammar::any_section_at(old_bytes, at)->end,
    );
}

/// At every boundary of an accepted module stands a section, unless the input
/// ends there; a custom section has a name that is read.
proof fn lemma_boundary_has_section(
    bytes: Seq<u8>,
    pos: int,
    stage: int,
    draft: Draft,
    at: int,
)
    requires
        0 <= pos <= at < bytes.len(),
        0 <= stage,
        is_boundary(bytes, pos, at),
        module::sections_at(bytes, pos, stage, draft) is Read,
    ensures
        grammar::any_section_at(bytes, at) is Read,
        bytes[at] == SECTION_ID_CUSTOM ==> grammar::custom_section_at(bytes, at) is Read,
    decreases bytes.len() - pos,
{
    let id = bytes[pos];
    lemma_section_into_extent(bytes, pos, id, draft);
    if pos < at {
        let value = module::section_into(bytes, pos, id, draft)->value;
        let end = module::section_into(bytes, pos, id, draft)->end;
        lemma_boundary_in_reach(bytes, end, at);
        lemma_boundary_has_section(bytes, end, module::stage_after(stage, id), value, at);
    }
}

/// A change inside one section of an accepted module that does not change what is
/// read of it changes nothing about the module.
proof fn lemma_change_inside_module(
    old_bytes: Seq<u8>,
    new_bytes: Seq<u8>,
    at: int,
    lo: int,
    hi: int,
)
    requires
        module::module_of(old_bytes) is Read,
        is_boundary(old_bytes, 8, at),
        8 <= at < lo,
        differ_within(old_bytes, new_bytes, lo, hi),
        grammar::any_section_at(old_bytes, at) matches Outcome::Read { end, .. } && hi <= end,
        reads_the_same(old_bytes, new_bytes, at),
    ensures
        module::module_of(new_bytes) == module::module_of(old_bytes),
{
    assert(new_bytes.take(4) =~= old_bytes.take(4));
    assert(old_bytes[4] == new_bytes[4] && old_bytes[5] == new_bytes[5] && old_bytes[6]
        == new_bytes[6] && old_bytes[7] == new_bytes[7]);
    extent::lemma_any_section_bounds(old_bytes, at);
    reveal(module::remaining);
    lemma_change_inside_section(old_bytes, new_bytes, at, lo, hi, 8, 0, Draft::empty());
}

} // verus!
