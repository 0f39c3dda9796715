//! A module that is written, section by section, is parsed back.

use crate::encoding;
use crate::encoding::SectionView;
use crate::error::ParseErrorKind;
use crate::failure_laws;
use crate::grammar;
use crate::grammar::Outcome;
use crate::module;
use crate::module::{Draft, ModuleView};
use crate::module_contents;
use crate::module_laws;
use crate::progress;
use crate::round_trip;
use crate::types::{CodeView, ExportDesc, ExternKind, ImportView};
use vstd::prelude::*;

verus! {

/// One of the first `count` sections has this id.
pub open spec fn has_section(sections: Seq<SectionView>, count: int, id: u8) -> bool {
    exists|i: int| 0 <= i < count && (#[trigger] sections[i]).id() == id
}

/// The sections, other than custom ones, are in the format's order.
pub open spec fn is_ordered(sections: Seq<SectionView>) -> bool {
    &&& forall|i: int|
        0 <= i < sections.len() && (#[trigger] sections[i]) is Skipped
            ==> module_contents::is_skippable(sections[i].id())
    &&& forall|i: int, j: int|
        0 <= i < j < sections.len() && (#[trigger] sections[i]) !is Custom && (
        #[trigger] sections[j]) !is Custom ==> module_contents::may_come_after(
            sections[i].id(),
            sections[j].id(),
        )
}

/// The section gives the module what it has of that kind.
pub open spec fn gives(section: SectionView, module: ModuleView) -> bool {
    match section {
        SectionView::Type(values) => values == module.types,
        SectionView::Import(values) => values == module.imports,
        SectionView::Function(values) => module_contents::has_type_indices(module, values),
        SectionView::Export(values) => values == module.exports,
        SectionView::Start(index) => module.start == Some(index),
        SectionView::Code(values) => module_contents::has_codes(module, values),
        _ => true,
    }
}

/// The names of the custom sections, in order.
pub open spec fn names(sections: Seq<SectionView>) -> Seq<Seq<char>>
    decreases sections.len(),
{
    if sections.len() == 0 {
        seq![]
    } else {
        match sections.last() {
            SectionView::Custom { name, .. } => names(sections.drop_last()).push(name),
            _ => names(sections.drop_last()),
        }
    }
}

/// The ids of the skipped sections, in order.
pub open spec fn skipped(sections: Seq<SectionView>) -> Seq<u8>
    decreases sections.len(),
{
    if sections.len() == 0 {
        seq![]
    } else {
        match sections.last() {
            SectionView::Skipped { id, .. } => skipped(sections.drop_last()).push(id),
            _ => skipped(sections.drop_last()),
        }
    }
}

/// The sections make up the module: each gives what it has of that kind, what no
/// section gives it does not have, and the rest is listed in order.
pub open spec fn make_up(sections: Seq<SectionView>, module: ModuleView) -> bool {
    let count = sections.len() as int;
    &&& forall|i: int| 0 <= i < count ==> gives(#[trigger] sections[i], module)
    &&& !has_section(sections, count, 1) ==> module.types.len() == 0
    &&& !has_section(sections, count, 2) ==> module.imports.len() == 0
    &&& !has_section(sections, count, 3) ==> module.funcs.len() == 0
    &&& !has_section(sections, count, 7) ==> module.exports.len() == 0
    &&& !has_section(sections, count, 8) ==> module.start is None
    &&& !has_section(sections, count, 10) ==> module.funcs.len() == 0
    &&& module.custom_sections == names(sections)
    &&& module.skipped_sections == skipped(sections)
}

/// What the module refers to is there: the types of its imports and functions, and
/// what its exports name. How many tables, memories and globals there are is not
/// known where a section of their kind is skipped.
pub open spec fn refers_to_what_it_has(module: ModuleView) -> bool {
    &&& forall|i: int|
        0 <= i < module.imports.len() ==> round_trip::may_be_imported(
            (#[trigger] module.imports[i]).desc,
            module.types.len(),
        )
    &&& forall|i: int|
        0 <= i < module.funcs.len() ==> (#[trigger] module.funcs[i]).type_index
            < module.types.len()
    &&& forall|i: int| 0 <= i < module.exports.len() ==> names_a_thing(
        module,
        (#[trigger] module.exports[i]).desc,
    )
}

/// The export names a thing that the module has.
pub open spec fn names_a_thing(module: ModuleView, desc: ExportDesc) -> bool {
    match desc {
        ExportDesc::Func(index) => index < module.imports.filter(
            |import: ImportView| import.desc is Func,
        ).len() + module.funcs.len(),
        ExportDesc::Table(index) => module.skipped_sections.contains(4) || index
            < module.imports.filter(|import: ImportView| import.desc is Table).len(),
        ExportDesc::Memory(index) => module.skipped_sections.contains(5) || index
            < module.imports.filter(|import: ImportView| import.desc is Memory).len(),
        ExportDesc::Global(index) => module.skipped_sections.contains(6) || index
            < module.imports.filter(|import: ImportView| import.desc is Global).len(),
    }
}

/// That an export names a thing is what is checked of it.
proof fn lemma_names_a_thing(module: ModuleView, desc: ExportDesc)
    ensures
        names_a_thing(module, desc) == module.holds(desc),
{
    let funcs = |import: ImportView| import.desc is Func;
    let tables = |import: ImportView| import.desc is Table;
    let memories = |import: ImportView| import.desc is Memory;
    let globals = |import: ImportView| import.desc is Global;
    assert(funcs =~= |import: ImportView| import.desc.spec_kind() == ExternKind::Func);
    assert(tables =~= |import: ImportView| import.desc.spec_kind() == ExternKind::Table);
    assert(memories =~= |import: ImportView| import.desc.spec_kind() == ExternKind::Memory);
    assert(globals =~= |import: ImportView| import.desc.spec_kind() == ExternKind::Global);
    assert(module::imports_of_kind(module.imports, ExternKind::Func) == module.imports.filter(
        funcs,
    ).len());
    assert(module::imports_of_kind(module.imports, ExternKind::Table) == module.imports.filter(
        tables,
    ).len());
    assert(module::imports_of_kind(module.imports, ExternKind::Memory) == module.imports.filter(
        memories,
    ).len());
    assert(module::imports_of_kind(module.imports, ExternKind::Global) == module.imports.filter(
        globals,
    ).len());
}

/// In an accepted module, everything that an import, a function or an export refers
/// to is there.
pub proof fn law_module_refers_to_what_it_has(bytes: Seq<u8>)
    requires
        module::module_of(bytes) is Read,
    ensures
        refers_to_what_it_has(module::module_of(bytes)->value),
{
    let module = module::module_of(bytes)->value;
    module_laws::law_module_types_are_in_range(bytes);
    module_laws::law_exports_are_in_range(bytes);
    assert forall|i: int| 0 <= i < module.imports.len() implies round_trip::may_be_imported(
        (#[trigger] module.imports[i]).desc,
        module.types.len(),
    ) by {
        assert(module.imports[i].desc.well_formed(module.types.len()));
    }
    assert forall|i: int| 0 <= i < module.exports.len() implies names_a_thing(
        module,
        (#[trigger] module.exports[i]).desc,
    ) by {
        lemma_names_a_thing(module, module.exports[i].desc);
    }
}

/// The parts of which the module is made up.
spec fn parts_of(module: ModuleView) -> Draft {
    Draft {
        types: module.types,
        imports: module.imports,
        type_indices: Seq::new(module.funcs.len(), |i: int| module.funcs[i].type_index),
        exports: module.exports,
        start: module.start,
        codes: Seq::new(
            module.funcs.len(),
            |i: int| CodeView { locals: module.funcs[i].locals, body: module.funcs[i].body },
        ),
        custom_sections: module.custom_sections,
        skipped_sections: module.skipped_sections,
    }
}

/// The section gives what there is of that kind.
pub open spec fn gives_part(section: SectionView, parts: Draft) -> bool {
    match section {
        SectionView::Type(values) => values == parts.types,
        SectionView::Import(values) => values == parts.imports,
        SectionView::Function(values) => values == parts.type_indices,
        SectionView::Export(values) => values == parts.exports,
        SectionView::Start(index) => parts.start == Some(index),
        SectionView::Code(values) => values == parts.codes,
        _ => true,
    }
}

/// These are the parts that the sections give.
pub open spec fn amount_to(sections: Seq<SectionView>, parts: Draft) -> bool {
    let count = sections.len() as int;
    &&& forall|i: int| 0 <= i < count ==> gives_part(#[trigger] sections[i], parts)
    &&& !has_section(sections, count, 1) ==> parts.types.len() == 0
    &&& !has_section(sections, count, 2) ==> parts.imports.len() == 0
    &&& !has_section(sections, count, 3) ==> parts.type_indices.len() == 0
    &&& !has_section(sections, count, 7) ==> parts.exports.len() == 0
    &&& !has_section(sections, count, 8) ==> parts.start is None
    &&& !has_section(sections, count, 10) ==> parts.codes.len() == 0
    &&& parts.custom_sections == names(sections)
    &&& parts.skipped_sections == skipped(sections)
}

/// Imports and functions have types that are there, and where there is a code
/// section, or a data section after it, every function has its code.
pub open spec fn is_coherent(sections: Seq<SectionView>, parts: Draft) -> bool {
    let count = sections.len() as int;
    &&& forall|i: int|
        0 <= i < parts.imports.len() ==> round_trip::may_be_imported(
            (#[trigger] parts.imports[i]).desc,
            parts.types.len(),
        )
    &&& forall|i: int|
        0 <= i < parts.type_indices.len() ==> (#[trigger] parts.type_indices[i])
            < parts.types.len()
    &&& has_section(sections, count, 10) || has_section(sections, count, 11) ==> parts.codes.len()
        == parts.type_indices.len()
}

/// A module's parts are what its sections give.
proof fn lemma_parts_of(sections: Seq<SectionView>, module: ModuleView)
    requires
        make_up(sections, module),
        refers_to_what_it_has(module),
    ensures
        amount_to(sections, parts_of(module)),
        is_coherent(sections, parts_of(module)),
        parts_of(module).module() == module,
{
    let parts = parts_of(module);
    assert forall|i: int| 0 <= i < sections.len() implies gives_part(
        #[trigger] sections[i],
        parts,
    ) by {
        assert(gives(sections[i], module));
        match sections[i] {
            SectionView::Function(values) => {
                assert forall|k: int| 0 <= k < values.len() implies values[k]
                    == parts.type_indices[k] by {
                    assert(module.funcs[k].type_index == values[k]);
                }
                assert(values =~= parts.type_indices);
            },
            SectionView::Code(values) => {
                assert forall|k: int| 0 <= k < values.len() implies values[k] == parts.codes[k] by {
                    assert(module.funcs[k].locals == values[k].locals);
                }
                assert(values =~= parts.codes);
            },
            _ => {},
        }
    }
    assert(parts.module().funcs =~= module.funcs);
}

/// The draft with one more section taken into it.
spec fn with_section(draft: Draft, section: SectionView) -> Draft {
    match section {
        SectionView::Custom { name, .. } => Draft {
            custom_sections: draft.custom_sections.push(name),
            ..draft
        },
        SectionView::Type(values) => Draft { types: values, ..draft },
        SectionView::Import(values) => Draft { imports: values, ..draft },
        SectionView::Function(values) => Draft { type_indices: values, ..draft },
        SectionView::Export(values) => Draft { exports: values, ..draft },
        SectionView::Start(index) => Draft { start: Some(index), ..draft },
        SectionView::Code(values) => Draft { codes: values, ..draft },
        SectionView::Skipped { id, .. } => Draft {
            skipped_sections: draft.skipped_sections.push(id),
            ..draft
        },
    }
}

/// The draft after the first `count` sections.
spec fn draft_at(sections: Seq<SectionView>, count: int) -> Draft
    decreases count,
{
    if count <= 0 {
        Draft::empty()
    } else {
        with_section(draft_at(sections, count - 1), sections[count - 1])
    }
}

/// The rank that counts for the order after the first `count` sections.
spec fn stage_at(sections: Seq<SectionView>, count: int) -> int
    decreases count,
{
    if count <= 0 {
        0
    } else {
        module::stage_after(stage_at(sections, count - 1), sections[count - 1].id())
    }
}

/// Where the first `count` sections end.
spec fn offset_at(sections: Seq<SectionView>, count: int) -> int {
    8int + encoding::concat(sections.take(count), encoding::section_writer()).len()
}

/// What one more section adds.
proof fn lemma_next_section(sections: Seq<SectionView>, count: int, id: u8)
    requires
        0 <= count < sections.len(),
    ensures
        has_section(sections, count + 1, id) <==> has_section(sections, count, id)
            || sections[count].id() == id,
        sections.take(count + 1).drop_last() == sections.take(count),
        sections.take(count + 1).last() == sections[count],
        offset_at(sections, count + 1) == offset_at(sections, count) + encoding::section_writer()(
            sections[count],
        ).len(),
{
    assert(sections.take(count + 1).drop_last() =~= sections.take(count));
    if has_section(sections, count, id) {
        let i = choose|i: int| 0 <= i < count && (#[trigger] sections[i]).id() == id;
        assert(sections[i].id() == id);
    }
    if sections[count].id() == id {
        assert(has_section(sections, count + 1, id));
    }
}

/// The draft holds what the sections so far give.
proof fn lemma_draft(sections: Seq<SectionView>, parts: Draft, count: int)
    requires
        0 <= count <= sections.len(),
        is_ordered(sections),
        amount_to(sections, parts),
    ensures
        ({
            let draft = draft_at(sections, count);
            &&& draft.types == if has_section(sections, count, 1) {
                parts.types
            } else {
                seq![]
            }
            &&& draft.imports == if has_section(sections, count, 2) {
                parts.imports
            } else {
                seq![]
            }
            &&& draft.type_indices == if has_section(sections, count, 3) {
                parts.type_indices
            } else {
                seq![]
            }
            &&& draft.exports == if has_section(sections, count, 7) {
                parts.exports
            } else {
                seq![]
            }
            &&& draft.start == if has_section(sections, count, 8) {
                parts.start
            } else {
                None
            }
            &&& draft.codes == if has_section(sections, count, 10) {
                parts.codes
            } else {
                seq![]
            }
            &&& draft.custom_sections == names(sections.take(count))
            &&& draft.skipped_sections == skipped(sections.take(count))
        }),
    decreases count,
{
    if count > 0 {
        lemma_draft(sections, parts, count - 1);
        lemma_next_section(sections, count - 1, 1);
        lemma_next_section(sections, count - 1, 2);
        lemma_next_section(sections, count - 1, 3);
        lemma_next_section(sections, count - 1, 7);
        lemma_next_section(sections, count - 1, 8);
        lemma_next_section(sections, count - 1, 10);
        assert(gives_part(sections[count - 1], parts));
    }
}

/// With all sections taken, the draft is what they amount to.
proof fn lemma_draft_complete(sections: Seq<SectionView>, parts: Draft)
    requires
        is_ordered(sections),
        amount_to(sections, parts),
    ensures
        draft_at(sections, sections.len() as int) == parts,
{
    let total = sections.len() as int;
    let draft = draft_at(sections, total);
    assert(sections.take(total) =~= sections);
    lemma_draft(sections, parts, total);
    assert(draft.types =~= parts.types);
    assert(draft.imports =~= parts.imports);
    assert(draft.type_indices =~= parts.type_indices);
    assert(draft.exports =~= parts.exports);
    assert(draft.codes =~= parts.codes);
}

/// The rank after the first `count` sections is that of one of them, and the highest,
/// or there are none but custom ones and it is 0.
proof fn lemma_stage(sections: Seq<SectionView>, count: int)
    requires
        0 <= count <= sections.len(),
        is_ordered(sections),
    ensures
        stage_at(sections, count) == 0 || exists|i: int|
            0 <= i < count && (#[trigger] sections[i]) !is Custom && module::rank(sections[i].id())
                == stage_at(sections, count),
        forall|i: int|
            0 <= i < count && (#[trigger] sections[i]) !is Custom ==> 0 < module::rank(
                sections[i].id(),
            ) <= stage_at(sections, count),
    decreases count,
{
    if count > 0 {
        lemma_stage(sections, count - 1);
        let last = sections[count - 1];
        if last is Skipped {
            module_contents::lemma_order_is_rank(last.id(), last.id());
        }
        if !(last is Custom) {
            assert(sections[count - 1] !is Custom);
            assert forall|i: int|
                0 <= i < count - 1 && (#[trigger] sections[i]) !is Custom implies 0 < module::rank(
                sections[i].id(),
            ) <= module::rank(last.id()) by {
                assert(module_contents::may_come_after(sections[i].id(), sections[count - 1].id()));
                module_contents::lemma_order_is_rank(sections[i].id(), last.id());
            }
        }
    }
}

/// A section that must come earlier has come.
proof fn lemma_came_earlier(sections: Seq<SectionView>, count: int, id: u8)
    requires
        0 <= count < sections.len(),
        is_ordered(sections),
        sections[count] !is Custom,
        has_section(sections, sections.len() as int, id),
        0 < module::rank(id) < module::rank(sections[count].id()),
    ensures
        has_section(sections, count, id),
{
    let i = choose|i: int| 0 <= i < sections.len() && (#[trigger] sections[i]).id() == id;
    assert(sections[i] !is Custom);
    if i > count {
        assert(module_contents::may_come_after(sections[count].id(), sections[i].id()));
        module_contents::lemma_order_is_rank(sections[count].id(), id);
    }
}

/// Every section stands where the ones before it end.
proof fn lemma_section_stands(bytes: Seq<u8>, sections: Seq<SectionView>, count: int, upto: int)
    requires
        0 <= count < upto <= sections.len(),
        encoding::holds_at(
            bytes,
            8,
            encoding::concat(sections.take(upto), encoding::section_writer()),
        ),
    ensures
        encoding::holds_at(
            bytes,
            offset_at(sections, count),
            encoding::section(sections[count].id(), sections[count].contents()),
        ),
    decreases upto,
{
    let writer = encoding::section_writer();
    lemma_next_section(sections, upto - 1, 0);
    round_trip::lemma_parts(
        bytes,
        8,
        encoding::concat(sections.take(upto - 1), writer),
        writer(sections[upto - 1]),
    );
    if count < upto - 1 {
        lemma_section_stands(bytes, sections, count, upto - 1);
    }
}

/// The next section is read into the draft.
proof fn lemma_section_taken(
    bytes: Seq<u8>,
    sections: Seq<SectionView>,
    parts: Draft,
    count: int,
)
    requires
        0 <= count < sections.len(),
        is_ordered(sections),
        amount_to(sections, parts),
        is_coherent(sections, parts),
        sections[count].fits(),
        encoding::holds_at(
            bytes,
            offset_at(sections, count),
            encoding::section(sections[count].id(), sections[count].contents()),
        ),
    ensures
        module::section_into(
            bytes,
            offset_at(sections, count),
            sections[count].id(),
            draft_at(sections, count),
        ) == (Outcome::Read {
            value: draft_at(sections, count + 1),
            end: offset_at(sections, count + 1),
        }),
{
    let pos = offset_at(sections, count);
    let draft = draft_at(sections, count);
    let section = sections[count];
    let total = sections.len() as int;
    lemma_draft(sections, parts, count);
    lemma_next_section(sections, count, 0);
    assert(gives_part(section, parts));
    match section {
        SectionView::Custom { name, contents } => {
            round_trip::law_custom_section_reads_back(bytes, pos, name, contents);
        },
        SectionView::Type(values) => {
            round_trip::law_type_section_reads_back(bytes, pos, values);
        },
        SectionView::Import(values) => {
            if has_section(sections, total, 1) {
                lemma_came_earlier(sections, count, 1);
            }
            assert(draft.types =~= parts.types);
            round_trip::law_import_section_reads_back(bytes, pos, draft.types.len(), values);
        },
        SectionView::Function(values) => {
            if has_section(sections, total, 1) {
                lemma_came_earlier(sections, count, 1);
            }
            assert(draft.types =~= parts.types);
            round_trip::law_function_section_reads_back(bytes, pos, draft.types.len(), values);
        },
        SectionView::Export(values) => {
            round_trip::law_export_section_reads_back(bytes, pos, values);
        },
        SectionView::Start(index) => {
            round_trip::law_start_section_reads_back(bytes, pos, index);
        },
        SectionView::Code(values) => {
            if has_section(sections, total, 3) {
                lemma_came_earlier(sections, count, 3);
            }
            lemma_is_among(sections, count);
            assert(draft.type_indices =~= parts.type_indices);
            round_trip::law_code_section_reads_back(
                bytes,
                pos,
                draft.type_indices.len(),
                values,
            );
        },
        SectionView::Skipped { id, contents } => {
            round_trip::law_skipped_section_reads_back(bytes, pos, id, contents);
        },
    }
}

/// The next section may stand where it does.
proof fn lemma_section_allowed(
    bytes: Seq<u8>,
    sections: Seq<SectionView>,
    parts: Draft,
    count: int,
)
    requires
        0 <= count < sections.len(),
        is_ordered(sections),
        amount_to(sections, parts),
        is_coherent(sections, parts),
        encoding::holds_at(
            bytes,
            offset_at(sections, count),
            encoding::section(sections[count].id(), sections[count].contents()),
        ),
    ensures
        ({
            let pos = offset_at(sections, count);
            &&& 0 <= pos < bytes.len()
            &&& bytes[pos] == sections[count].id()
            &&& module::next_section(
                bytes,
                pos,
                stage_at(sections, count),
                draft_at(sections, count),
            ) == Some(bytes[pos])
        }),
{
    let pos = offset_at(sections, count);
    let section = sections[count];
    let piece = encoding::section(section.id(), section.contents());
    let total = sections.len() as int;
    let stage = stage_at(sections, count);
    assert(bytes[pos + 0] == piece[0]);
    if section !is Custom {
        lemma_stage(sections, count);
        lemma_draft(sections, parts, count);
        module_contents::lemma_order_is_rank(section.id(), section.id());
        assert(section is Skipped ==> module_contents::is_skippable(section.id()));
        if stage != 0 {
            let i = choose|i: int|
                0 <= i < count && (#[trigger] sections[i]) !is Custom && module::rank(
                    sections[i].id(),
                ) == stage;
            assert(module_contents::may_come_after(sections[i].id(), section.id()));
            module_contents::lemma_order_is_rank(sections[i].id(), section.id());
        }
        if module::rank(section.id()) > module::code_rank() {
            if has_section(sections, total, 3) {
                lemma_came_earlier(sections, count, 3);
            }
            if has_section(sections, total, 10) {
                lemma_came_earlier(sections, count, 10);
            }
            lemma_is_among(sections, count);
            assert(draft_at(sections, count).type_indices =~= parts.type_indices);
            assert(draft_at(sections, count).codes =~= parts.codes);
        }
    }
}

/// A section is among all sections.
proof fn lemma_is_among(sections: Seq<SectionView>, count: int)
    requires
        0 <= count < sections.len(),
    ensures
        has_section(sections, sections.len() as int, sections[count].id()),
{
}

/// The first `count` sections are read one after the other.
proof fn lemma_sections_taken(
    bytes: Seq<u8>,
    sections: Seq<SectionView>,
    parts: Draft,
    count: int,
)
    requires
        0 <= count <= sections.len(),
        is_ordered(sections),
        amount_to(sections, parts),
        is_coherent(sections, parts),
        forall|i: int| 0 <= i < sections.len() ==> (#[trigger] sections[i]).fits(),
        encoding::holds_at(bytes, 8, encoding::concat(sections, encoding::section_writer())),
    ensures
        module::remaining(bytes, 8, 0, Draft::empty()) == module::remaining(
            bytes,
            offset_at(sections, count),
            stage_at(sections, count),
            draft_at(sections, count),
        ),
    decreases count,
{
    if count > 0 {
        let last = count - 1;
        lemma_sections_taken(bytes, sections, parts, last);
        assert(sections.take(sections.len() as int) =~= sections);
        lemma_section_stands(bytes, sections, last, sections.len() as int);
        assert(sections[last].fits());
        lemma_section_taken(bytes, sections, parts, last);
        lemma_section_allowed(bytes, sections, parts, last);
        module_laws::lemma_step(
            bytes,
            offset_at(sections, last),
            stage_at(sections, last),
            draft_at(sections, last),
        );
    } else {
        assert(sections.take(0) =~= seq![]);
    }
}

/// A module that refers to what it has has its exports in range.
proof fn lemma_exports_in_range(module: ModuleView)
    requires
        refers_to_what_it_has(module),
    ensures
        module.exports_in_range(),
{
    assert forall|i: int| 0 <= i < module.exports.len() implies module.holds(
        (#[trigger] module.exports[i]).desc,
    ) by {
        assert(names_a_thing(module, module.exports[i].desc));
        lemma_names_a_thing(module, module.exports[i].desc);
    }
}

/// At the end of the input the draft is finished.
proof fn lemma_finished(bytes: Seq<u8>, stage: int, draft: Draft)
    requires
        !draft.lacks_code(),
        draft.module().exports_in_range(),
    ensures
        module::remaining(bytes, bytes.len() as int, stage, draft) == (Outcome::Read {
            value: draft.module(),
            end: bytes.len() as int,
        }),
{
    reveal(module::remaining);
}

/// A section with this id may come after these.
pub open spec fn may_come_next(sections: Seq<SectionView>, parts: Draft, id: u8) -> bool {
    ||| id == 0
    ||| {
        &&& module_contents::format_order().contains(id)
        &&& forall|i: int|
            0 <= i < sections.len() && (#[trigger] sections[i]) !is Custom
                ==> module_contents::may_come_after(sections[i].id(), id)
        &&& id == 11 ==> parts.codes.len() == parts.type_indices.len()
    }
}

/// Whether a section may come next is what is decided.
proof fn lemma_may_come_next(sections: Seq<SectionView>, parts: Draft, bytes: Seq<u8>, at: int)
    requires
        is_ordered(sections),
        0 <= at < bytes.len(),
    ensures
        module::next_section(bytes, at, stage_at(sections, sections.len() as int), parts) == (
        if may_come_next(sections, parts, bytes[at]) {
            Some(bytes[at])
        } else {
            None
        }),
{
    let total = sections.len() as int;
    let stage = stage_at(sections, total);
    let id = bytes[at];
    let order = module_contents::format_order();
    lemma_stage(sections, total);
    if id != 0 {
        module_contents::lemma_order_is_rank(id, id);
        assert(order.contains(id) <==> module::rank(id) > 0) by {
            assert(order[0] == 1 && order[1] == 2 && order[2] == 3 && order[3] == 4);
            assert(order[4] == 5 && order[5] == 6 && order[6] == 7 && order[7] == 8);
            assert(order[8] == 9 && order[9] == 12 && order[10] == 10 && order[11] == 11);
        }
        assert forall|i: int| 0 <= i < total && (#[trigger] sections[i]) !is Custom implies (
        module_contents::may_come_after(sections[i].id(), id) <==> module::may_follow(
            module::rank(sections[i].id()),
            id,
        )) by {
            module_contents::lemma_order_is_rank(sections[i].id(), id);
        }
    }
}

/// Written sections are read, whatever follows them.
proof fn lemma_sections_before(
    bytes: Seq<u8>,
    sections: Seq<SectionView>,
    parts: Draft,
    rest: Seq<u8>,
)
    requires
        bytes == encoding::module(sections) + rest,
        is_ordered(sections),
        amount_to(sections, parts),
        is_coherent(sections, parts),
        forall|i: int| 0 <= i < sections.len() ==> (#[trigger] sections[i]).fits(),
    ensures
        module::module_of(bytes) == module::remaining(
            bytes,
            encoding::module(sections).len() as int,
            stage_at(sections, sections.len() as int),
            parts,
        ),
        rest.len() > 0 ==> bytes[encoding::module(sections).len() as int] == rest[0],
{
    let total = sections.len() as int;
    let written = encoding::concat(sections, encoding::section_writer());
    assert(encoding::holds_at(bytes, 8, written)) by {
        assert forall|i: int| 0 <= i < written.len() implies bytes[8 + i]
            == #[trigger] written[i] by {}
    }
    assert(sections.take(total) =~= sections);
    lemma_sections_taken(bytes, sections, parts, total);
    lemma_draft_complete(sections, parts);
    assert(module::module_of(bytes) == module::remaining(bytes, 8, 0, Draft::empty())) by {
        assert(bytes.take(8) =~= encoding::header());
        round_trip::law_header_is_exact(bytes);
        progress::lemma_start(bytes);
    }
}

/// Sections in the format's order that make up a module are parsed back to it, where
/// everything that the module refers to is there: all types, imports and exports,
/// the start function, for every function its own type, locals and instructions,
/// the names of the custom sections and the ids of the skipped ones, in order.
pub proof fn law_modules_are_parsed_back(sections: Seq<SectionView>, module: ModuleView)
    requires
        is_ordered(sections),
        make_up(sections, module),
        refers_to_what_it_has(module),
        forall|i: int| 0 <= i < sections.len() ==> (#[trigger] sections[i]).fits(),
    ensures
        module::module_of(encoding::module(sections)) == (Outcome::Read {
            value: module,
            end: encoding::module(sections).len() as int,
        }),
{
    let bytes = encoding::module(sections);
    let parts = parts_of(module);
    lemma_parts_of(sections, module);
    lemma_exports_in_range(module);
    assert(bytes =~= bytes + Seq::<u8>::empty());
    lemma_sections_before(bytes, sections, parts, seq![]);
    lemma_finished(bytes, stage_at(sections, sections.len() as int), parts);
}

/// After sections that are all in order, a section that may not come next is
/// refused where it starts: for the code that is missing, if functions are declared
/// whose code has not come, and otherwise for its id.
pub proof fn law_sections_out_of_place_are_refused(
    sections: Seq<SectionView>,
    parts: Draft,
    rest: Seq<u8>,
)
    requires
        is_ordered(sections),
        amount_to(sections, parts),
        is_coherent(sections, parts),
        forall|i: int| 0 <= i < sections.len() ==> (#[trigger] sections[i]).fits(),
        rest.len() > 0,
        !may_come_next(sections, parts, rest[0]),
    ensures
        failure_laws::fails(
            module::module_of(encoding::module(sections) + rest),
            if parts.codes.len() != parts.type_indices.len() {
                ParseErrorKind::FunctionCodeMismatch
            } else {
                ParseErrorKind::UnknownSectionId
            },
            encoding::module(sections).len() as int,
            encoding::module(sections).len() as int,
        ),
{
    let bytes = encoding::module(sections) + rest;
    let at = encoding::module(sections).len() as int;
    lemma_sections_before(bytes, sections, parts, rest);
    lemma_may_come_next(sections, parts, bytes, at);
    reveal(module::remaining);
}

/// The section at `at` fails to be read, in the way that `failed` tells.
pub open spec fn section_fails(bytes: Seq<u8>, at: int, parts: Draft, failed: Outcome<()>) -> bool {
    let id = bytes[at];
    let types = parts.types.len();
    if id == 0 {
        failure_laws::fails_like(failed, grammar::custom_section_at(bytes, at))
    } else if id == 1 {
        failure_laws::fails_like(failed, grammar::type_section_at(bytes, at))
    } else if id == 2 {
        failure_laws::fails_like(failed, grammar::import_section_at(bytes, at, types))
    } else if id == 3 {
        failure_laws::fails_like(failed, grammar::function_section_at(bytes, at, types))
    } else if id == 7 {
        failure_laws::fails_like(failed, grammar::export_section_at(bytes, at))
    } else if id == 8 {
        failure_laws::fails_like(failed, grammar::start_section_at(bytes, at))
    } else if id == 10 {
        failure_laws::fails_like(
            failed,
            grammar::code_section_at(bytes, at, parts.type_indices.len()),
        )
    } else {
        failure_laws::fails_like(failed, grammar::any_section_at(bytes, at))
    }
}

/// After sections that are all in order, a section that may come next but does not
/// read makes the module fail just as it does, with what comes after it never looked
/// at.
pub proof fn law_parsing_fails_as_the_first_bad_section(
    sections: Seq<SectionView>,
    parts: Draft,
    rest: Seq<u8>,
    failed: Outcome<()>,
)
    requires
        is_ordered(sections),
        amount_to(sections, parts),
        is_coherent(sections, parts),
        forall|i: int| 0 <= i < sections.len() ==> (#[trigger] sections[i]).fits(),
        rest.len() > 0,
        may_come_next(sections, parts, rest[0]),
        section_fails(
            encoding::module(sections) + rest,
            encoding::module(sections).len() as int,
            parts,
            failed,
        ),
    ensures
        failure_laws::fails_like(module::module_of(encoding::module(sections) + rest), failed),
{
    let bytes = encoding::module(sections) + rest;
    let at = encoding::module(sections).len() as int;
    lemma_sections_before(bytes, sections, parts, rest);
    lemma_may_come_next(sections, parts, bytes, at);
    lemma_step_fails(bytes, at, stage_at(sections, sections.len() as int), parts, failed);
}

/// A section that does not read makes the rest fail as it does.
proof fn lemma_step_fails(
    bytes: Seq<u8>,
    at: int,
    stage: int,
    parts: Draft,
    failed: Outcome<()>,
)
    requires
        0 <= at < bytes.len(),
        module::next_section(bytes, at, stage, parts) == Some(bytes[at]),
        section_fails(bytes, at, parts, failed),
    ensures
        failure_laws::fails_like(module::remaining(bytes, at, stage, parts), failed),
{
    reveal(module::remaining);
}

/// Sections that are all in order, and end the input, make up no module where
/// functions lack their code, and then where an export names nothing. Both are
/// reported at the end.
pub proof fn law_incomplete_modules_are_refused(sections: Seq<SectionView>, parts: Draft)
    requires
        is_ordered(sections),
        amount_to(sections, parts),
        is_coherent(sections, parts),
        forall|i: int| 0 <= i < sections.len() ==> (#[trigger] sections[i]).fits(),
    ensures
        ({
            let bytes = encoding::module(sections);
            let end = bytes.len() as int;
            let module = parts.module();
            if parts.codes.len() != parts.type_indices.len() {
                failure_laws::fails(
                    module::module_of(bytes),
                    ParseErrorKind::FunctionCodeMismatch,
                    end,
                    end,
                )
            } else {
                (exists|i: int|
                    0 <= i < module.exports.len() && !names_a_thing(
                        module,
                        (#[trigger] module.exports[i]).desc,
                    )) ==> failure_laws::fails(
                    module::module_of(bytes),
                    ParseErrorKind::ExportIndexOutOfRange,
                    end,
                    end,
                )
            }
        }),
{
    let bytes = encoding::module(sections);
    let module = parts.module();
    assert(bytes =~= encoding::module(sections) + Seq::<u8>::empty());
    lemma_sections_before(bytes, sections, parts, seq![]);
    if exists|i: int|
        0 <= i < module.exports.len() && !names_a_thing(
            module,
            (#[trigger] module.exports[i]).desc,
        ) {
        let i = choose|i: int|
            0 <= i < module.exports.len() && !names_a_thing(
                module,
                (#[trigger] module.exports[i]).desc,
            );
        lemma_names_a_thing(module, module.exports[i].desc);
        assert(!module.holds(module.exports[i].desc));
        assert(!module.exports_in_range());
    }
    reveal(module::remaining);
}

} // verus!
