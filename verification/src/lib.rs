//! A parser for the WebAssembly binary module format.
//!
//! `binary` reads the module format section by section; `leb` is the integer
//! encoding it reads immediates with. This is the crate root: it assembles the
//! section readers into the one public entry point, [`parse`].
//!
//! What the parser does is stated as mathematics in `grammar` (one section at
//! a time) and `module` (all of them together), and every function is proved
//! to do exactly that. `laws` and `module_laws` hold what follows for the
//! library as a whole; `extent` and `locality` say how far a read reaches and
//! what it depends on.
//!
//! That this is the right thing to do is stated apart from it. `encoding` says
//! how values are written; `round_trip` and `module_round_trip` prove that what
//! is written is read back, and that nothing else is read. `module_contents`
//! relates a module to its sections, `failure_laws` says which inputs are
//! refused and how, and `view_laws` that views leave nothing out.

pub mod binary;
pub mod encoding;
pub mod error;
pub mod extent;
pub mod failure_laws;
pub mod grammar;
pub mod laws;
pub mod leb;
pub mod locality;
pub mod module;
pub mod module_contents;
pub mod module_laws;
pub mod module_round_trip;
mod progress;
pub mod round_trip;
pub mod types;
pub mod view_laws;

use crate::binary::{
    read_header, Code, Export, FuncType, Import, LocalDecl, ParseError, ParseErrorKind,
};
use crate::grammar::Outcome;
use crate::module::{FuncView, ModuleView};
use crate::progress::Progress;
use vstd::prelude::*;

verus! {

/// One locally defined function: the type it was declared with in the
/// function section, and the locals and body decoded for it in the code
/// section. The format stores those two halves in separate sections so a
/// decoder can find a function's signature without reading any code; this
/// struct puts them back together once both sections are in hand.
#[derive(Debug, Clone, PartialEq, Eq)]
pub struct Func {
    pub type_index: u32,
    pub locals: Vec<LocalDecl>,
    pub body: Vec<u8>,
}

impl DeepView for Func {
    type V = FuncView;

    open spec fn deep_view(&self) -> FuncView {
        FuncView {
            type_index: self.type_index,
            locals: self.locals.deep_view(),
            body: self.body.deep_view(),
        }
    }
}

/// A fully parsed module: every section this crate understands, assembled
/// into one place rather than left as the sequence of raw section reads that
/// produced them.
#[derive(Debug, Clone, PartialEq, Eq)]
pub struct Module {
    pub types: Vec<FuncType>,
    pub imports: Vec<Import>,
    pub funcs: Vec<Func>,
    pub exports: Vec<Export>,
    pub start: Option<u32>,
    /// Names of the custom sections found while parsing, in the order they
    /// appeared. A custom section may appear any number of times, anywhere
    /// between the sections listed above, without affecting their required
    /// relative order.
    pub custom_sections: Vec<String>,
    /// Ids of the table, memory, global, element, data and data-count
    /// sections that were present but skipped rather than decoded, in the
    /// order they appeared.
    pub skipped_sections: Vec<u8>,
}

impl DeepView for Module {
    type V = ModuleView;

    open spec fn deep_view(&self) -> ModuleView {
        ModuleView {
            types: self.types.deep_view(),
            imports: self.imports.deep_view(),
            funcs: self.funcs.deep_view(),
            exports: self.exports.deep_view(),
            start: self.start,
            custom_sections: self.custom_sections.deep_view(),
            skipped_sections: self.skipped_sections.deep_view(),
        }
    }
}

/// Puts the type index of each function together with its code.
fn assemble_funcs(type_indices: Vec<u32>, codes: Vec<Code>) -> (funcs: Vec<Func>)
    requires
        type_indices@.len() == codes@.len(),
    ensures
        funcs.deep_view() == Seq::new(
            type_indices@.len(),
            |i: int|
                FuncView {
                    type_index: type_indices@[i],
                    locals: codes.deep_view()[i].locals,
                    body: codes.deep_view()[i].body,
                },
        ),
{
    let ghost all = codes@;
    let count: usize = codes.len();
    let mut funcs: Vec<Func> = Vec::with_capacity(count);
    let mut i: usize = 0;
    for code in iter: codes
        invariant
            i == iter.index(),
            iter.seq() == all,
            all.len() == count,
            all.len() == type_indices@.len(),
            funcs@.len() == i,
            forall|j: int|
                0 <= j < i ==> (#[trigger] funcs@[j]).deep_view() == (FuncView {
                    type_index: type_indices@[j],
                    locals: all[j].deep_view().locals,
                    body: all[j].deep_view().body,
                }),
    {
        funcs.push(Func { type_index: type_indices[i], locals: code.locals, body: code.body });
        i = i + 1;
    }
    funcs
}

/// Parses a complete module: the header, then each section in the order the
/// format requires. Every section is optional in the sense that a module
/// need not use it, but if present they must appear in this relative order:
/// type, import, function, table, memory, global, export, start, element,
/// data-count, code, data. A section out of that order is rejected as one that
/// cannot be read at its place.
///
/// Table, memory, global, element, data and data-count sections are skipped
/// by length rather than decoded, since nothing downstream of this crate
/// needs their contents; their ids land in [`Module::skipped_sections`], once
/// for each time that such a section is repeated in its place.
///
/// Custom sections are exempt from the ordering rule - any number of them may
/// appear at any point in the byte stream - and only their names, not their
/// contents, land in [`Module::custom_sections`].
///
/// With all sections in hand, an export must name something that the module
/// has: its index must lie in the space of its kind, which holds what is
/// imported and, after that, what is defined locally. How many tables, memories
/// or globals are defined is not known where their section was skipped; the
/// indices of exports of that kind are left open then.
pub fn parse(bytes: &[u8]) -> (res: Result<Module, ParseError>)
    ensures
        match (res, module::module_of(bytes@)) {
            (Ok(module), Outcome::Read { value, .. }) => module.deep_view() == value,
            (Err(error), Outcome::Failed { kind, offset, .. }) => error.kind == kind
                && error.offset == offset,
            _ => false,
        },
{
    read_header(bytes)?;
    let mut pos: usize = 8;
    let mut progress = Progress::new();
    proof {
        progress::lemma_start(bytes@);
    }
    progress.take_customs(bytes, &mut pos, Ghost(0))?;
    progress.take_types(bytes, &mut pos)?;
    progress.take_imports(bytes, &mut pos)?;
    progress.take_type_indices(bytes, &mut pos)?;
    progress.take_skipped(bytes, &mut pos, binary::SECTION_ID_TABLE)?;
    progress.take_skipped(bytes, &mut pos, binary::SECTION_ID_MEMORY)?;
    progress.take_skipped(bytes, &mut pos, binary::SECTION_ID_GLOBAL)?;
    progress.take_exports(bytes, &mut pos)?;
    progress.take_start(bytes, &mut pos)?;
    progress.take_skipped(bytes, &mut pos, binary::SECTION_ID_ELEMENT)?;
    progress.take_skipped(bytes, &mut pos, binary::SECTION_ID_DATA_COUNT)?;
    progress.take_codes(bytes, &mut pos)?;
    progress.take_skipped(bytes, &mut pos, binary::SECTION_ID_DATA)?;
    proof {
        progress::lemma_finish(bytes@, pos, progress.deep_view());
    }
    if pos != bytes.len() {
        return Err(ParseError { offset: pos, kind: ParseErrorKind::UnknownSectionId });
    }
    if !progress.exports_in_range() {
        return Err(ParseError { offset: pos, kind: ParseErrorKind::ExportIndexOutOfRange });
    }
    let ghost draft = progress.deep_view();
    let funcs = assemble_funcs(progress.type_indices, progress.codes);
    assert(funcs.deep_view() =~= draft.module().funcs);
    Ok(
        Module {
            types: progress.types,
            imports: progress.imports,
            funcs,
            exports: progress.exports,
            start: progress.start,
            custom_sections: progress.custom_sections,
            skipped_sections: progress.skipped_sections,
        },
    )
}

} // verus!
