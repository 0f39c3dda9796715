//! How the sections of a module follow one another, and what they come to
//! together.

use crate::error::ParseErrorKind;
use crate::extent;
use crate::grammar;
use crate::grammar::{
    Outcome, SECTION_ID_CODE, SECTION_ID_CUSTOM, SECTION_ID_DATA, SECTION_ID_DATA_COUNT,
    SECTION_ID_ELEMENT, SECTION_ID_EXPORT, SECTION_ID_FUNCTION, SECTION_ID_GLOBAL,
    SECTION_ID_IMPORT, SECTION_ID_MEMORY, SECTION_ID_START, SECTION_ID_TABLE, SECTION_ID_TYPE,
};
use crate::types::{
    CodeView, ExportDesc, ExportView, ExternKind, FuncTypeView, ImportView, LocalDecl,
};
use vstd::prelude::*;

verus! {

/// The contents of a [`crate::Func`].
pub struct FuncView {
    pub type_index: u32,
    pub locals: Seq<LocalDecl>,
    pub body: Seq<u8>,
}

/// The contents of a [`crate::Module`].
pub struct ModuleView {
    pub types: Seq<FuncTypeView>,
    pub imports: Seq<ImportView>,
    pub funcs: Seq<FuncView>,
    pub exports: Seq<ExportView>,
    pub start: Option<u32>,
    pub custom_sections: Seq<Seq<char>>,
    pub skipped_sections: Seq<u8>,
}

/// How many of the imports bind a thing of this kind.
pub open spec fn imports_of_kind(imports: Seq<ImportView>, kind: ExternKind) -> nat {
    imports.filter(|import: ImportView| import.desc.spec_kind() == kind).len()
}

impl ModuleView {
    /// How many things of this kind the module has, imported ones first. Where a
    /// table, memory or global section was skipped, that is not known of its kind.
    pub open spec fn space(self, kind: ExternKind) -> Option<nat> {
        let imported = imports_of_kind(self.imports, kind);
        match kind {
            ExternKind::Func => Some(imported + self.funcs.len()),
            ExternKind::Table => if self.skipped_sections.contains(SECTION_ID_TABLE) {
                None
            } else {
                Some(imported)
            },
            ExternKind::Memory => if self.skipped_sections.contains(SECTION_ID_MEMORY) {
                None
            } else {
                Some(imported)
            },
            ExternKind::Global => if self.skipped_sections.contains(SECTION_ID_GLOBAL) {
                None
            } else {
                Some(imported)
            },
        }
    }

    /// The index of the export lies in the space of its kind, as far as that is known.
    pub open spec fn holds(self, desc: ExportDesc) -> bool {
        self.space(desc.spec_kind()) matches Some(size) ==> desc.spec_index() < size
    }

    /// No export has an index that is known to lie outside the space of its kind.
    pub open spec fn exports_in_range(self) -> bool {
        forall|i: int|
            0 <= i < self.exports.len() ==> self.holds((#[trigger] self.exports[i]).desc)
    }
}

/// What the sections read so far hold.
pub struct Draft {
    pub types: Seq<FuncTypeView>,
    pub imports: Seq<ImportView>,
    pub type_indices: Seq<u32>,
    pub exports: Seq<ExportView>,
    pub start: Option<u32>,
    pub codes: Seq<CodeView>,
    pub custom_sections: Seq<Seq<char>>,
    pub skipped_sections: Seq<u8>,
}

impl Draft {
    /// Before any section is read.
    pub open spec fn empty() -> Draft {
        Draft {
            types: seq![],
            imports: seq![],
            type_indices: seq![],
            exports: seq![],
            start: None,
            codes: seq![],
            custom_sections: seq![],
            skipped_sections: seq![],
        }
    }

    /// Functions are declared whose code has not been read.
    pub open spec fn lacks_code(self) -> bool {
        self.codes.len() != self.type_indices.len()
    }

    /// The module that these sections make up: each declared function's type
    /// is put together with its code.
    pub open spec fn module(self) -> ModuleView {
        ModuleView {
            types: self.types,
            imports: self.imports,
            funcs: Seq::new(
                self.type_indices.len(),
                |i: int|
                    FuncView {
                        type_index: self.type_indices[i],
                        locals: self.codes[i].locals,
                        body: self.codes[i].body,
                    },
            ),
            exports: self.exports,
            start: self.start,
            custom_sections: self.custom_sections,
            skipped_sections: self.skipped_sections,
        }
    }
}

/// The sections that are skipped by length rather than decoded.
pub open spec fn is_skipped(id: u8) -> bool {
    ||| id == SECTION_ID_TABLE
    ||| id == SECTION_ID_MEMORY
    ||| id == SECTION_ID_GLOBAL
    ||| id == SECTION_ID_ELEMENT
    ||| id == SECTION_ID_DATA_COUNT
    ||| id == SECTION_ID_DATA
}

/// The rank of the code section.
pub open spec fn code_rank() -> int {
    11
}

/// Where a section stands in the order of the sections; 0 for an id that is not
/// part of the order.
pub open spec fn rank(id: u8) -> int {
    if id == SECTION_ID_TYPE {
        1
    } else if id == SECTION_ID_IMPORT {
        2
    } else if id == SECTION_ID_FUNCTION {
        3
    } else if id == SECTION_ID_TABLE {
        4
    } else if id == SECTION_ID_MEMORY {
        5
    } else if id == SECTION_ID_GLOBAL {
        6
    } else if id == SECTION_ID_EXPORT {
        7
    } else if id == SECTION_ID_START {
        8
    } else if id == SECTION_ID_ELEMENT {
        9
    } else if id == SECTION_ID_DATA_COUNT {
        10
    } else if id == SECTION_ID_CODE {
        code_rank()
    } else if id == SECTION_ID_DATA {
        12
    } else {
        0
    }
}

/// The section `id` may come after one of rank `stage`: it stands later in the
/// order, or it is one more of the same sections, and these are skipped.
pub open spec fn may_follow(stage: int, id: u8) -> bool {
    rank(id) > stage || (rank(id) == stage && is_skipped(id))
}

/// The section `id`, which starts at `pos`, taken into the draft.
pub open spec fn section_into(bytes: Seq<u8>, pos: int, id: u8, draft: Draft) -> Outcome<Draft> {
    if id == SECTION_ID_CUSTOM {
        match grammar::custom_section_at(bytes, pos) {
            Outcome::Read { value, end } => Outcome::Read {
                value: Draft { custom_sections: draft.custom_sections.push(value), ..draft },
                end,
            },
            failed => failed.failure(),
        }
    } else if id == SECTION_ID_TYPE {
        match grammar::type_section_at(bytes, pos) {
            Outcome::Read { value, end } => Outcome::Read {
                value: Draft { types: value, ..draft },
                end,
            },
            failed => failed.failure(),
        }
    } else if id == SECTION_ID_IMPORT {
        match grammar::import_section_at(bytes, pos, draft.types.len()) {
            Outcome::Read { value, end } => Outcome::Read {
                value: Draft { imports: value, ..draft },
                end,
            },
            failed => failed.failure(),
        }
    } else if id == SECTION_ID_FUNCTION {
        match grammar::function_section_at(bytes, pos, draft.types.len()) {
            Outcome::Read { value, end } => Outcome::Read {
                value: Draft { type_indices: value, ..draft },
                end,
            },
            failed => failed.failure(),
        }
    } else if id == SECTION_ID_EXPORT {
        match grammar::export_section_at(bytes, pos) {
            Outcome::Read { value, end } => Outcome::Read {
                value: Draft { exports: value, ..draft },
                end,
            },
            failed => failed.failure(),
        }
    } else if id == SECTION_ID_START {
        match grammar::start_section_at(bytes, pos) {
            Outcome::Read { value, end } => Outcome::Read {
                value: Draft { start: Some(value), ..draft },
                end,
            },
            failed => failed.failure(),
        }
    } else if id == SECTION_ID_CODE {
        match grammar::code_section_at(bytes, pos, draft.type_indices.len()) {
            Outcome::Read { value, end } => Outcome::Read {
                value: Draft { codes: value, ..draft },
                end,
            },
            failed => failed.failure(),
        }
    } else {
        match grammar::any_section_at(bytes, pos) {
            Outcome::Read { value, end } => Outcome::Read {
                value: Draft { skipped_sections: draft.skipped_sections.push(value), ..draft },
                end,
            },
            failed => failed.failure(),
        }
    }
}

/// A section taken into the draft takes at least one byte and stays inside the
/// input.
pub proof fn lemma_section_into_bounds(bytes: Seq<u8>, pos: int, id: u8, draft: Draft)
    requires
        0 <= pos <= bytes.len(),
    ensures
        extent::in_bounds(section_into(bytes, pos, id, draft), pos, bytes.len()),
        extent::makes_progress(section_into(bytes, pos, id, draft), pos),
{
    extent::lemma_custom_section_bounds(bytes, pos);
    extent::lemma_type_section_bounds(bytes, pos);
    extent::lemma_import_section_bounds(bytes, pos, draft.types.len());
    extent::lemma_function_section_bounds(bytes, pos, draft.types.len());
    extent::lemma_export_section_bounds(bytes, pos);
    extent::lemma_start_section_bounds(bytes, pos);
    extent::lemma_code_section_bounds(bytes, pos, draft.type_indices.len());
    extent::lemma_any_section_bounds(bytes, pos);
}

/// No further section can be read at `pos`: the module is complete if every
/// declared function has its code, the input ends there, and the exports name
/// things that the module has.
pub open spec fn finish(bytes: Seq<u8>, pos: int, draft: Draft) -> Outcome<ModuleView> {
    if draft.lacks_code() {
        Outcome::Failed { kind: ParseErrorKind::FunctionCodeMismatch, offset: pos, stop: pos }
    } else if pos != bytes.len() {
        Outcome::Failed { kind: ParseErrorKind::UnknownSectionId, offset: pos, stop: pos }
    } else if !draft.module().exports_in_range() {
        Outcome::Failed { kind: ParseErrorKind::ExportIndexOutOfRange, offset: pos, stop: pos }
    } else {
        Outcome::Read { value: draft.module(), end: pos }
    }
}

/// The section at `pos`, if one may stand there after a section of rank `stage`:
/// a custom section anywhere, any other one in its order, and none that comes
/// after the code section while code is missing.
pub open spec fn next_section(bytes: Seq<u8>, pos: int, stage: int, draft: Draft) -> Option<u8> {
    if !(0 <= pos < bytes.len()) {
        None
    } else if bytes[pos] == SECTION_ID_CUSTOM {
        Some(bytes[pos])
    } else if may_follow(stage, bytes[pos]) && !(rank(bytes[pos]) > code_rank()
        && draft.lacks_code()) {
        Some(bytes[pos])
    } else {
        None
    }
}

/// The rank of the last section that counts for the order, once `id` is read.
pub open spec fn stage_after(stage: int, id: u8) -> int {
    if id == SECTION_ID_CUSTOM {
        stage
    } else {
        rank(id)
    }
}

/// All the sections from `pos` on, after a section of rank `stage`, taken into
/// the draft: the module they complete.
pub open spec fn sections_at(bytes: Seq<u8>, pos: int, stage: int, draft: Draft) -> Outcome<
    ModuleView,
>
    decreases bytes.len() - pos,
{
    match next_section(bytes, pos, stage, draft) {
        Some(id) => {
            proof {
                lemma_section_into_bounds(bytes, pos, id, draft);
            }
            match section_into(bytes, pos, id, draft) {
                Outcome::Read { value, end } => sections_at(
                    bytes,
                    end,
                    stage_after(stage, id),
                    value,
                ),
                failed => failed.failure(),
            }
        },
        None => finish(bytes, pos, draft),
    }
}

/// [`sections_at`], as one thing that proofs about many steps need not look into.
#[verifier::opaque]
pub open spec fn remaining(bytes: Seq<u8>, pos: int, stage: int, draft: Draft) -> Outcome<
    ModuleView,
> {
    sections_at(bytes, pos, stage, draft)
}

/// A complete module: the header, then the sections up to the end of the input.
pub open spec fn module_of(bytes: Seq<u8>) -> Outcome<ModuleView> {
    match grammar::header_of(bytes) {
        Outcome::Read { end, .. } => sections_at(bytes, end, 0, Draft::empty()),
        failed => failed.failure(),
    }
}

/// A row of custom sections and of sections that are skipped.
pub struct Run {
    /// The names of the custom sections, in order.
    pub customs: Seq<Seq<char>>,
    /// The ids of the skipped sections, in order.
    pub skipped: Seq<u8>,
    /// Where the row ends, or how the section after the last of these fails.
    pub rest: Outcome<()>,
}

/// The longest row of custom sections, and of sections whose id is `skippable`,
/// that starts at `pos`.
pub open spec fn run_at(bytes: Seq<u8>, pos: int, skippable: Option<u8>) -> Run
    decreases bytes.len() - pos,
{
    if !(0 <= pos < bytes.len()) {
        Run { customs: seq![], skipped: seq![], rest: Outcome::Read { value: (), end: pos } }
    } else if bytes[pos] == SECTION_ID_CUSTOM {
        proof {
            lemma_section_into_bounds(bytes, pos, bytes[pos], Draft::empty());
        }
        match grammar::custom_section_at(bytes, pos) {
            Outcome::Read { value, end } => {
                let tail = run_at(bytes, end, skippable);
                Run { customs: seq![value] + tail.customs, ..tail }
            },
            failed => Run { customs: seq![], skipped: seq![], rest: failed.failure() },
        }
    } else if skippable == Some(bytes[pos]) {
        proof {
            lemma_section_into_bounds(bytes, pos, SECTION_ID_DATA, Draft::empty());
        }
        match grammar::any_section_at(bytes, pos) {
            Outcome::Read { value, end } => {
                let tail = run_at(bytes, end, skippable);
                Run { skipped: seq![value] + tail.skipped, ..tail }
            },
            failed => Run { customs: seq![], skipped: seq![], rest: failed.failure() },
        }
    } else {
        Run { customs: seq![], skipped: seq![], rest: Outcome::Read { value: (), end: pos } }
    }
}

/// The draft after a row of custom and skipped sections.
pub open spec fn draft_after(draft: Draft, run: Run) -> Draft {
    Draft {
        custom_sections: draft.custom_sections + run.customs,
        skipped_sections: draft.skipped_sections + run.skipped,
        ..draft
    }
}

/// A row of custom and skipped sections is a part of the sections of the
/// module: those after it go on from where it ends.
#[verifier::rlimit(30)]
pub(crate) proof fn lemma_run_in_sections(
    bytes: Seq<u8>,
    pos: int,
    skippable: Option<u8>,
    stage: int,
    place: int,
    draft: Draft,
)
    requires
        0 <= pos <= bytes.len(),
        skippable is None ==> stage == place,
        skippable matches Some(id) ==> {
            &&& is_skipped(id)
            &&& place == rank(id)
            &&& stage <= place <= stage + 1
            &&& !(place > code_rank() && draft.lacks_code())
        },
        stage < place && pos < bytes.len() ==> bytes[pos] != SECTION_ID_CUSTOM && !(rank(bytes[pos])
            == stage && is_skipped(bytes[pos])),
    ensures
        match run_at(bytes, pos, skippable).rest {
            Outcome::Read { end, .. } => {
                &&& 0 <= end <= bytes.len()
                &&& end < bytes.len() ==> bytes[end] != SECTION_ID_CUSTOM && skippable != Some(
                    bytes[end],
                )
                &&& sections_at(bytes, pos, stage, draft) == sections_at(
                    bytes,
                    end,
                    place,
                    draft_after(draft, run_at(bytes, pos, skippable)),
                )
            },
            failed => sections_at(bytes, pos, stage, draft) == failed.failure::<ModuleView>(),
        },
    decreases bytes.len() - pos,
{
    let run = run_at(bytes, pos, skippable);
    if pos < bytes.len() && bytes[pos] == SECTION_ID_CUSTOM {
        extent::lemma_custom_section_bounds(bytes, pos);
        if let Outcome::Read { value, end } = grammar::custom_section_at(bytes, pos) {
            let next = Draft { custom_sections: draft.custom_sections.push(value), ..draft };
            lemma_run_in_sections(bytes, end, skippable, stage, place, next);
            let tail = run_at(bytes, end, skippable);
            assert(next.custom_sections + tail.customs =~= draft.custom_sections + (seq![value]
                + tail.customs));
        }
    } else if pos < bytes.len() && skippable == Some(bytes[pos]) {
        extent::lemma_any_section_bounds(bytes, pos);
        if let Outcome::Read { value, end } = grammar::any_section_at(bytes, pos) {
            let next = Draft { skipped_sections: draft.skipped_sections.push(value), ..draft };
            lemma_run_in_sections(bytes, end, skippable, place, place, next);
            let tail = run_at(bytes, end, skippable);
            assert(next.skipped_sections + tail.skipped =~= draft.skipped_sections + (seq![value]
                + tail.skipped));
        }
    } else {
        assert(draft.custom_sections + Seq::<Seq<char>>::empty() =~= draft.custom_sections);
        assert(draft.skipped_sections + Seq::<u8>::empty() =~= draft.skipped_sections);
        if stage < place && pos < bytes.len() {
            lemma_stage_passed(bytes, pos, stage, place, draft);
        }
    }
}

/// A place in the order can be passed over where no section that stands there
/// comes next.
pub(crate) proof fn lemma_stage_passed(
    bytes: Seq<u8>,
    pos: int,
    stage: int,
    place: int,
    draft: Draft,
)
    requires
        stage <= place <= stage + 1,
        0 <= pos < bytes.len() ==> bytes[pos] != SECTION_ID_CUSTOM && rank(bytes[pos]) != place
            && !(rank(bytes[pos]) == stage && is_skipped(bytes[pos])),
    ensures
        sections_at(bytes, pos, stage, draft) == sections_at(bytes, pos, place, draft),
{
}

/// A row of custom sections alone skips none.
pub(crate) proof fn lemma_run_of_customs(bytes: Seq<u8>, pos: int)
    requires
        0 <= pos <= bytes.len(),
    ensures
        run_at(bytes, pos, None).skipped == Seq::<u8>::empty(),
    decreases bytes.len() - pos,
{
    if pos < bytes.len() && bytes[pos] == SECTION_ID_CUSTOM {
        extent::lemma_custom_section_bounds(bytes, pos);
        if let Outcome::Read { end, .. } = grammar::custom_section_at(bytes, pos) {
            lemma_run_of_customs(bytes, end);
        }
    }
}

/// As many items are read as are asked for.
proof fn lemma_items_count<T>(item: spec_fn(int) -> Outcome<T>, pos: int, count: nat)
    ensures
        grammar::items_at(item, pos, count) matches Outcome::Read { value, .. } ==> value.len()
            == count,
    decreases count,
{
    if count > 0 {
        lemma_items_count(item, pos, (count - 1) as nat);
    }
}

/// The code section holds one body for each declared function.
pub(crate) proof fn lemma_code_section_count(bytes: Seq<u8>, pos: int, func_count: nat)
    ensures
        grammar::code_section_at(bytes, pos, func_count) matches Outcome::Read { value, .. }
            ==> value.len() == func_count,
{
    if let Outcome::Read { end: start, .. } = grammar::section_start_at(
        bytes,
        pos,
        SECTION_ID_CODE,
    ) {
        if let Outcome::Read { value: count, end } = grammar::u32_at(bytes, start) {
            lemma_items_count(grammar::code_reader(bytes), end, count as nat);
        }
    }
}

} // verus!
