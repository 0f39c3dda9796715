//! The sections of a module, read one after the other.

use crate::binary::{
    read_code_section, read_custom_section, read_export_section, read_function_section,
    read_import_section, read_start_section, read_type_section, skip_section, Code, Export,
    ExportDesc, ExternKind, FuncType, Import, ParseError, ParseErrorKind,
};
use crate::extent;
use crate::grammar;
use crate::grammar::Outcome;
use crate::module;
use crate::module::{Draft, ModuleView};
use crate::types::ImportView;
use vstd::prelude::*;

verus! {

/// Returns the id of the section at `pos`, if the input does not end there.
fn peek_id(bytes: &[u8], pos: usize) -> (id: Option<u8>)
    ensures
        id == (if pos < bytes@.len() {
            Some(bytes@[pos as int])
        } else {
            None
        }),
{
    if pos < bytes.len() {
        Some(bytes[pos])
    } else {
        None
    }
}

/// Reads every custom section and skips every section with the id `skippable`,
/// from `pos` on, in a row, recording the names of the former and the ids of
/// the latter.
fn collect_sections(
    bytes: &[u8],
    pos: &mut usize,
    skippable: Option<u8>,
    custom_sections: &mut Vec<String>,
    skipped_sections: &mut Vec<u8>,
) -> (res: Result<(), ParseError>)
    ensures
        grammar::agrees(
            res,
            *final(pos),
            module::run_at(bytes@, *old(pos) as int, skippable).rest,
        ),
        final(custom_sections).deep_view() == old(custom_sections).deep_view() + module::run_at(
            bytes@,
            *old(pos) as int,
            skippable,
        ).customs,
        final(skipped_sections).deep_view() == old(skipped_sections).deep_view() + module::run_at(
            bytes@,
            *old(pos) as int,
            skippable,
        ).skipped,
{
    let ghost run = module::run_at(bytes@, *pos as int, skippable);
    while *pos < bytes.len()
        invariant
            run == module::run_at(bytes@, *old(pos) as int, skippable),
            run.rest == module::run_at(bytes@, *pos as int, skippable).rest,
            old(custom_sections).deep_view() + run.customs == custom_sections.deep_view()
                + module::run_at(bytes@, *pos as int, skippable).customs,
            old(skipped_sections).deep_view() + run.skipped == skipped_sections.deep_view()
                + module::run_at(bytes@, *pos as int, skippable).skipped,
        decreases bytes@.len() - *pos,
    {
        let ghost names = custom_sections.deep_view();
        let ghost ids = skipped_sections.deep_view();
        let ghost here = *pos as int;
        let ghost tail = module::run_at(bytes@, here, skippable);
        proof {
            extent::lemma_custom_section_bounds(bytes@, here);
            extent::lemma_any_section_bounds(bytes@, here);
        }
        let id: u8 = bytes[*pos];
        if id == grammar::SECTION_ID_CUSTOM {
            match read_custom_section(bytes, pos) {
                Ok(name) => {
                    custom_sections.push(name);
                    assert(custom_sections.deep_view() =~= names.push(name@));
                    assert(names + tail.customs =~= custom_sections.deep_view() + module::run_at(
                        bytes@,
                        *pos as int,
                        skippable,
                    ).customs);
                },
                Err(error) => {
                    assert(names + tail.customs =~= names);
                    assert(ids + tail.skipped =~= ids);
                    return Err(error);
                },
            }
        } else if skippable == Some(id) {
            match skip_section(bytes, pos) {
                Ok(skipped) => {
                    skipped_sections.push(skipped);
                    assert(skipped_sections.deep_view() =~= ids.push(skipped));
                    assert(ids + tail.skipped =~= skipped_sections.deep_view() + module::run_at(
                        bytes@,
                        *pos as int,
                        skippable,
                    ).skipped);
                },
                Err(error) => {
                    assert(names + tail.customs =~= names);
                    assert(ids + tail.skipped =~= ids);
                    return Err(error);
                },
            }
        } else {
            assert(names + tail.customs =~= names);
            assert(ids + tail.skipped =~= ids);
            return Ok(());
        }
    }
    assert(custom_sections.deep_view() + Seq::<Seq<char>>::empty() =~= custom_sections.deep_view());
    assert(skipped_sections.deep_view() + Seq::<u8>::empty() =~= skipped_sections.deep_view());
    Ok(())
}

/// Reads every custom section starting at `pos`, in a row, recording each
/// one's name. Custom sections carry no ordering constraint of their own, so
/// this is called between every other section read to drain whatever run of
/// them sits at that point before moving on.
fn collect_custom_sections(
    bytes: &[u8],
    pos: &mut usize,
    custom_sections: &mut Vec<String>,
) -> (res: Result<(), ParseError>)
    ensures
        grammar::agrees(res, *final(pos), module::run_at(bytes@, *old(pos) as int, None).rest),
        final(custom_sections).deep_view() == old(custom_sections).deep_view() + module::run_at(
            bytes@,
            *old(pos) as int,
            None,
        ).customs,
{
    let mut skipped: Vec<u8> = Vec::new();
    collect_sections(bytes, pos, None, custom_sections, &mut skipped)
}

/// Whether one more item is kept decides whether one more is counted.
proof fn lemma_filter_next<T>(items: Seq<T>, i: int, keep: spec_fn(T) -> bool)
    requires
        0 <= i < items.len(),
    ensures
        items.take(i + 1).filter(keep).len() == items.take(i).filter(keep).len() + (if keep(
            items[i],
        ) {
            1int
        } else {
            0
        }),
{
    reveal(Seq::filter);
    assert(items.take(i + 1).drop_last() =~= items.take(i));
}

/// A size that was computed is the size of the space.
spec fn space_is(size: Option<u128>, space: Option<nat>) -> bool {
    match (size, space) {
        (Some(size), Some(expected)) => size == expected,
        (None, None) => true,
        _ => false,
    }
}

/// Counts the imports that bind a thing of this kind.
fn count_imports(imports: &Vec<Import>, kind: ExternKind) -> (count: usize)
    ensures
        count == module::imports_of_kind(imports.deep_view(), kind),
{
    let ghost all = imports.deep_view();
    let ghost keep = |import: ImportView| import.desc.spec_kind() == kind;
    let mut count: usize = 0;
    let mut i: usize = 0;
    assert(all.take(0).filter(keep).len() == 0) by {
        reveal(Seq::filter);
    }
    while i < imports.len()
        invariant
            count <= i <= imports@.len(),
            all == imports.deep_view(),
            keep == (|import: ImportView| import.desc.spec_kind() == kind),
            count == all.take(i as int).filter(keep).len(),
        decreases imports@.len() - i,
    {
        proof {
            lemma_filter_next(all, i as int, keep);
        }
        if imports[i].desc.kind() == kind {
            count = count + 1;
        }
        i = i + 1;
    }
    assert(all.take(i as int) =~= all);
    count
}

/// Returns whether `ids` holds `id`.
fn holds_id(ids: &Vec<u8>, id: u8) -> (found: bool)
    ensures
        found == ids.deep_view().contains(id),
{
    assert(ids.deep_view() =~= ids@);
    let mut i: usize = 0;
    while i < ids.len()
        invariant
            i <= ids@.len(),
            ids.deep_view() == ids@,
            forall|j: int| 0 <= j < i ==> ids@[j] != id,
        decreases ids@.len() - i,
    {
        if ids[i] == id {
            return true;
        }
        i = i + 1;
    }
    false
}

/// The sections read so far.
pub struct Progress {
    pub types: Vec<FuncType>,
    pub imports: Vec<Import>,
    pub type_indices: Vec<u32>,
    pub exports: Vec<Export>,
    pub start: Option<u32>,
    pub codes: Vec<Code>,
    pub custom_sections: Vec<String>,
    pub skipped_sections: Vec<u8>,
}

/// At `pos` stands no section that belongs with one of rank `stage`: neither a
/// custom section nor a skipped section of that rank.
#[verifier::opaque]
pub open spec fn settled(bytes: Seq<u8>, pos: usize, stage: int) -> bool {
    &&& pos <= bytes.len()
    &&& pos < bytes.len() ==> bytes[pos as int] != grammar::SECTION_ID_CUSTOM && !(module::rank(
        bytes[pos as int],
    ) == stage && module::is_skipped(bytes[pos as int]))
}

/// A step that succeeds leaves the module that the rest completes unchanged; one
/// that fails reports how the module fails.
pub open spec fn preserves(
    before: Outcome<ModuleView>,
    res: Result<(), ParseError>,
    after: Outcome<ModuleView>,
) -> bool {
    match res {
        Ok(()) => before == after,
        Err(error) => before matches Outcome::Failed { kind, offset, .. } && error.kind == kind
            && error.offset == offset,
    }
}

impl DeepView for Progress {
    type V = Draft;

    open spec fn deep_view(&self) -> Draft {
        Draft {
            types: self.types.deep_view(),
            imports: self.imports.deep_view(),
            type_indices: self.type_indices.deep_view(),
            exports: self.exports.deep_view(),
            start: self.start,
            codes: self.codes.deep_view(),
            custom_sections: self.custom_sections.deep_view(),
            skipped_sections: self.skipped_sections.deep_view(),
        }
    }
}

impl Progress {
    /// Before any section is read.
    pub(crate) fn new() -> (progress: Progress)
        ensures
            progress.deep_view() == Draft::empty(),
    {
        let progress = Progress {
            types: Vec::new(),
            imports: Vec::new(),
            type_indices: Vec::new(),
            exports: Vec::new(),
            start: None,
            codes: Vec::new(),
            custom_sections: Vec::new(),
            skipped_sections: Vec::new(),
        };
        assert(progress.types.deep_view() =~= seq![]);
        assert(progress.imports.deep_view() =~= seq![]);
        assert(progress.type_indices.deep_view() =~= seq![]);
        assert(progress.exports.deep_view() =~= seq![]);
        assert(progress.codes.deep_view() =~= seq![]);
        assert(progress.custom_sections.deep_view() =~= seq![]);
        assert(progress.skipped_sections.deep_view() =~= seq![]);
        progress
    }

    /// Reads the custom sections in a row at `pos`.
    pub(crate) fn take_customs(
        &mut self,
        bytes: &[u8],
        pos: &mut usize,
        Ghost(stage): Ghost<int>,
    ) -> (res: Result<(), ParseError>)
        requires
            *old(pos) <= bytes@.len(),
            forall|id: u8| module::rank(id) == stage ==> !#[trigger] module::is_skipped(id),
        ensures
            preserves(
                module::remaining(bytes@, *old(pos) as int, stage, old(self).deep_view()),
                res,
                module::remaining(bytes@, *final(pos) as int, stage, final(self).deep_view()),
            ),
            res is Ok ==> settled(bytes@, *final(pos), stage),
            final(self).deep_view() == (Draft {
                custom_sections: final(self).custom_sections.deep_view(),
                ..old(self).deep_view()
            }),
    {
        reveal(module::remaining);
        reveal(settled);
        proof {
            module::lemma_run_in_sections(
                bytes@,
                *pos as int,
                None,
                stage,
                stage,
                self.deep_view(),
            );
            let run = module::run_at(bytes@, *pos as int, None);
            module::lemma_run_of_customs(bytes@, *pos as int);
            assert(self.skipped_sections.deep_view() + run.skipped
                =~= self.skipped_sections.deep_view());
        }
        collect_custom_sections(bytes, pos, &mut self.custom_sections)
    }

    /// Skips the sections with this id in a row at `pos`, and reads the custom
    /// sections among them and after them.
    pub(crate) fn take_skipped(&mut self, bytes: &[u8], pos: &mut usize, id: u8) -> (res: Result<
        (),
        ParseError,
    >)
        requires
            module::is_skipped(id),
            settled(bytes@, *old(pos), module::rank(id) - 1),
            module::rank(id) > module::code_rank() ==> !old(self).deep_view().lacks_code(),
        ensures
            preserves(
                module::remaining(
                    bytes@,
                    *old(pos) as int,
                    module::rank(id) - 1,
                    old(self).deep_view(),
                ),
                res,
                module::remaining(
                    bytes@,
                    *final(pos) as int,
                    module::rank(id),
                    final(self).deep_view(),
                ),
            ),
            res is Ok ==> settled(bytes@, *final(pos), module::rank(id)),
            final(self).deep_view() == (Draft {
                custom_sections: final(self).custom_sections.deep_view(),
                skipped_sections: final(self).skipped_sections.deep_view(),
                ..old(self).deep_view()
            }),
    {
        reveal(module::remaining);
        reveal(settled);
        proof {
            module::lemma_run_in_sections(
                bytes@,
                *pos as int,
                Some(id),
                module::rank(id) - 1,
                module::rank(id),
                self.deep_view(),
            );
        }
        collect_sections(
            bytes,
            pos,
            Some(id),
            &mut self.custom_sections,
            &mut self.skipped_sections,
        )
    }

    /// Reads the type section, if one comes next, and the custom sections after it.
    pub(crate) fn take_types(&mut self, bytes: &[u8], pos: &mut usize) -> (res: Result<
        (),
        ParseError,
    >)
        requires
            settled(bytes@, *old(pos), 0),
        ensures
            preserves(
                module::remaining(bytes@, *old(pos) as int, 0, old(self).deep_view()),
                res,
                module::remaining(bytes@, *final(pos) as int, 1, final(self).deep_view()),
            ),
            res is Ok ==> settled(bytes@, *final(pos), 1),
            final(self).deep_view().codes == old(self).deep_view().codes,
    {
        reveal(module::remaining);
        reveal(settled);
        if peek_id(bytes, *pos) == Some(grammar::SECTION_ID_TYPE) {
            proof {
                extent::lemma_type_section_bounds(bytes@, *pos as int);
            }
            self.types = read_type_section(bytes, pos)?;
        } else {
            proof {
                module::lemma_stage_passed(
                    bytes@,
                    *pos as int,
                    0,
                    1,
                    self.deep_view(),
                );
            }
        }
        self.take_customs(bytes, pos, Ghost(1))
    }

    /// Reads the import section, if one comes next, and the custom sections after
    /// it.
    pub(crate) fn take_imports(&mut self, bytes: &[u8], pos: &mut usize) -> (res: Result<
        (),
        ParseError,
    >)
        requires
            settled(bytes@, *old(pos), 1),
        ensures
            preserves(
                module::remaining(bytes@, *old(pos) as int, 1, old(self).deep_view()),
                res,
                module::remaining(bytes@, *final(pos) as int, 2, final(self).deep_view()),
            ),
            res is Ok ==> settled(bytes@, *final(pos), 2),
            final(self).deep_view().codes == old(self).deep_view().codes,
    {
        reveal(module::remaining);
        reveal(settled);
        if peek_id(bytes, *pos) == Some(grammar::SECTION_ID_IMPORT) {
            proof {
                extent::lemma_import_section_bounds(bytes@, *pos as int, self.types@.len());
            }
            self.imports = read_import_section(bytes, pos, self.types.len())?;
        } else {
            proof {
                module::lemma_stage_passed(
                    bytes@,
                    *pos as int,
                    1,
                    2,
                    self.deep_view(),
                );
            }
        }
        self.take_customs(bytes, pos, Ghost(2))
    }

    /// Reads the function section, if one comes next, and the custom sections after
    /// it.
    pub(crate) fn take_type_indices(&mut self, bytes: &[u8], pos: &mut usize) -> (res: Result<
        (),
        ParseError,
    >)
        requires
            settled(bytes@, *old(pos), 2),
        ensures
            preserves(
                module::remaining(bytes@, *old(pos) as int, 2, old(self).deep_view()),
                res,
                module::remaining(bytes@, *final(pos) as int, 3, final(self).deep_view()),
            ),
            res is Ok ==> settled(bytes@, *final(pos), 3),
            final(self).deep_view().codes == old(self).deep_view().codes,
    {
        reveal(module::remaining);
        reveal(settled);
        if peek_id(bytes, *pos) == Some(grammar::SECTION_ID_FUNCTION) {
            proof {
                extent::lemma_function_section_bounds(bytes@, *pos as int, self.types@.len());
            }
            self.type_indices = read_function_section(bytes, pos, self.types.len())?;
        } else {
            proof {
                module::lemma_stage_passed(
                    bytes@,
                    *pos as int,
                    2,
                    3,
                    self.deep_view(),
                );
            }
        }
        self.take_customs(bytes, pos, Ghost(3))
    }

    /// Reads the export section, if one comes next, and the custom sections after
    /// it.
    pub(crate) fn take_exports(&mut self, bytes: &[u8], pos: &mut usize) -> (res: Result<
        (),
        ParseError,
    >)
        requires
            settled(bytes@, *old(pos), 6),
        ensures
            preserves(
                module::remaining(bytes@, *old(pos) as int, 6, old(self).deep_view()),
                res,
                module::remaining(bytes@, *final(pos) as int, 7, final(self).deep_view()),
            ),
            res is Ok ==> settled(bytes@, *final(pos), 7),
            final(self).deep_view().codes == old(self).deep_view().codes,
    {
        reveal(module::remaining);
        reveal(settled);
        if peek_id(bytes, *pos) == Some(grammar::SECTION_ID_EXPORT) {
            proof {
                extent::lemma_export_section_bounds(bytes@, *pos as int);
            }
            self.exports = read_export_section(bytes, pos)?;
        } else {
            proof {
                module::lemma_stage_passed(
                    bytes@,
                    *pos as int,
                    6,
                    7,
                    self.deep_view(),
                );
            }
        }
        self.take_customs(bytes, pos, Ghost(7))
    }

    /// Reads the start section, if one comes next, and the custom sections after
    /// it.
    pub(crate) fn take_start(&mut self, bytes: &[u8], pos: &mut usize) -> (res: Result<
        (),
        ParseError,
    >)
        requires
            settled(bytes@, *old(pos), 7),
        ensures
            preserves(
                module::remaining(bytes@, *old(pos) as int, 7, old(self).deep_view()),
                res,
                module::remaining(bytes@, *final(pos) as int, 8, final(self).deep_view()),
            ),
            res is Ok ==> settled(bytes@, *final(pos), 8),
            final(self).deep_view().codes == old(self).deep_view().codes,
    {
        reveal(module::remaining);
        reveal(settled);
        if peek_id(bytes, *pos) == Some(grammar::SECTION_ID_START) {
            proof {
                extent::lemma_start_section_bounds(bytes@, *pos as int);
            }
            self.start = Some(read_start_section(bytes, pos)?);
        } else {
            proof {
                module::lemma_stage_passed(
                    bytes@,
                    *pos as int,
                    7,
                    8,
                    self.deep_view(),
                );
            }
        }
        self.take_customs(bytes, pos, Ghost(8))
    }

    /// Reads the code section, which has to come next if functions are declared,
    /// and the custom sections after it.
    ///
    /// Reading the section checks that the counts match; where the section is
    /// absent altogether, that check would never get a chance to run.
    pub(crate) fn take_codes(&mut self, bytes: &[u8], pos: &mut usize) -> (res: Result<
        (),
        ParseError,
    >)
        requires
            settled(bytes@, *old(pos), 10),
            old(self).codes@.len() == 0,
        ensures
            preserves(
                module::remaining(bytes@, *old(pos) as int, 10, old(self).deep_view()),
                res,
                module::remaining(bytes@, *final(pos) as int, 11, final(self).deep_view()),
            ),
            res is Ok ==> settled(bytes@, *final(pos), 11),
            res is Ok ==> !final(self).deep_view().lacks_code(),
    {
        reveal(module::remaining);
        reveal(settled);
        if peek_id(bytes, *pos) == Some(grammar::SECTION_ID_CODE) {
            proof {
                extent::lemma_code_section_bounds(bytes@, *pos as int, self.type_indices@.len());
                module::lemma_code_section_count(
                    bytes@,
                    *pos as int,
                    self.type_indices@.len(),
                );
            }
            self.codes = read_code_section(bytes, pos, self.type_indices.len())?;
        } else if self.type_indices.len() == 0 {
            proof {
                module::lemma_stage_passed(bytes@, *pos as int, 10, 11, self.deep_view());
            }
        } else {
            return Err(ParseError { offset: *pos, kind: ParseErrorKind::FunctionCodeMismatch });
        }
        self.take_customs(bytes, pos, Ghost(11))
    }

    /// Returns how many things of this kind the sections define or import; `None`
    /// where that is not known, since a section that defines them was skipped.
    fn space(&self, kind: ExternKind) -> (size: Option<u128>)
        ensures
            space_is(size, self.deep_view().module().space(kind)),
    {
        let imported: u128 = count_imports(&self.imports, kind) as u128;
        match kind {
            ExternKind::Func => Some(imported + self.type_indices.len() as u128),
            ExternKind::Table => if holds_id(&self.skipped_sections, grammar::SECTION_ID_TABLE) {
                None
            } else {
                Some(imported)
            },
            ExternKind::Memory => if holds_id(&self.skipped_sections, grammar::SECTION_ID_MEMORY) {
                None
            } else {
                Some(imported)
            },
            ExternKind::Global => if holds_id(&self.skipped_sections, grammar::SECTION_ID_GLOBAL) {
                None
            } else {
                Some(imported)
            },
        }
    }

    /// Returns whether every export names a thing that the module has, as far as
    /// that is known.
    pub(crate) fn exports_in_range(&self) -> (in_range: bool)
        ensures
            in_range == self.deep_view().module().exports_in_range(),
    {
        let ghost module = self.deep_view().module();
        let funcs = self.space(ExternKind::Func);
        let tables = self.space(ExternKind::Table);
        let memories = self.space(ExternKind::Memory);
        let globals = self.space(ExternKind::Global);
        let mut i: usize = 0;
        while i < self.exports.len()
            invariant
                i <= self.exports@.len(),
                module == self.deep_view().module(),
                space_is(funcs, module.space(ExternKind::Func)),
                space_is(tables, module.space(ExternKind::Table)),
                space_is(memories, module.space(ExternKind::Memory)),
                space_is(globals, module.space(ExternKind::Global)),
                forall|j: int|
                    0 <= j < i ==> module.holds((#[trigger] module.exports[j]).desc),
            decreases self.exports@.len() - i,
        {
            let (index, space) = match self.exports[i].desc {
                ExportDesc::Func(index) => (index, funcs),
                ExportDesc::Table(index) => (index, tables),
                ExportDesc::Memory(index) => (index, memories),
                ExportDesc::Global(index) => (index, globals),
            };
            assert(module.exports[i as int].desc == self.exports@[i as int].desc);
            if let Some(size) = space {
                if index as u128 >= size {
                    return false;
                }
            }
            i = i + 1;
        }
        true
    }
}

/// The module is what the sections after the header complete.
pub(crate) proof fn lemma_start(bytes: Seq<u8>)
    requires
        grammar::header_of(bytes) is Read,
    ensures
        module::module_of(bytes) == module::remaining(bytes, 8, 0, Draft::empty()),
{
    reveal(module::remaining);
}

/// Once every section has had its turn, the module is complete if the input ends.
pub(crate) proof fn lemma_finish(bytes: Seq<u8>, pos: usize, draft: Draft)
    requires
        settled(bytes, pos, 12),
        !draft.lacks_code(),
    ensures
        module::remaining(bytes, pos as int, 12, draft) == module::finish(bytes, pos as int, draft),
{
    reveal(module::remaining);
    reveal(settled);
}

} // verus!
