//! What the sections of a module hold.
//!
//! Each type that owns strings or vectors has a mathematical counterpart (its
//! `DeepView`), over sequences, which the contracts speak of.

use vstd::prelude::*;

verus! {

/// The four value types a signature can mention.
#[derive(Debug, Clone, Copy, PartialEq, Eq, Structural)]
pub enum ValType {
    I32,
    I64,
    F32,
    F64,
}

impl DeepView for ValType {
    type V = ValType;

    open spec fn deep_view(&self) -> ValType {
        *self
    }
}

/// A function signature: some parameters, some results.
#[derive(Debug, Clone, PartialEq, Eq)]
pub struct FuncType {
    pub params: Vec<ValType>,
    pub results: Vec<ValType>,
}

/// The contents of a [`FuncType`].
pub struct FuncTypeView {
    pub params: Seq<ValType>,
    pub results: Seq<ValType>,
}

impl DeepView for FuncType {
    type V = FuncTypeView;

    open spec fn deep_view(&self) -> FuncTypeView {
        FuncTypeView { params: self.params.deep_view(), results: self.results.deep_view() }
    }
}

/// The lower and upper bound on a table or memory's size, in table elements or
/// 64 KiB pages respectively - the format does not distinguish the two, so the
/// unit is up to the caller.
#[derive(Debug, Clone, Copy, PartialEq, Eq)]
pub struct Limits {
    pub min: u32,
    pub max: Option<u32>,
}

impl Limits {
    /// The maximum, where there is one, is not below the minimum.
    pub open spec fn well_formed(self) -> bool {
        self.max matches Some(max) ==> self.min <= max
    }
}

impl DeepView for Limits {
    type V = Limits;

    open spec fn deep_view(&self) -> Limits {
        *self
    }
}

/// The kinds of things that imports and exports bind. Each has an index space of
/// its own.
#[derive(Debug, Clone, Copy, PartialEq, Eq, Structural)]
pub enum ExternKind {
    Func,
    Table,
    Memory,
    Global,
}

/// What kind of thing an import binds, and the type-level details of each.
#[derive(Debug, Clone, PartialEq, Eq)]
pub enum ImportDesc {
    Func(u32),
    Table { element_type: u8, limits: Limits },
    Memory(Limits),
    Global { val_type: ValType, mutable: bool },
}

impl ImportDesc {
    /// The kind of thing that the import binds.
    pub open spec fn spec_kind(self) -> ExternKind {
        match self {
            ImportDesc::Func(_) => ExternKind::Func,
            ImportDesc::Table { .. } => ExternKind::Table,
            ImportDesc::Memory(_) => ExternKind::Memory,
            ImportDesc::Global { .. } => ExternKind::Global,
        }
    }

    /// Returns the kind of thing that the import binds.
    pub(crate) fn kind(&self) -> (kind: ExternKind)
        ensures
            kind == self.spec_kind(),
    {
        match self {
            ImportDesc::Func(_) => ExternKind::Func,
            ImportDesc::Table { .. } => ExternKind::Table,
            ImportDesc::Memory(_) => ExternKind::Memory,
            ImportDesc::Global { .. } => ExternKind::Global,
        }
    }

    /// A func import names one of `type_count` types, and the limits of a table
    /// or memory are well-formed; a table holds function references.
    pub open spec fn well_formed(self, type_count: nat) -> bool {
        match self {
            ImportDesc::Func(type_index) => type_index < type_count,
            ImportDesc::Table { element_type, limits } => element_type == 0x70
                && limits.well_formed(),
            ImportDesc::Memory(limits) => limits.well_formed(),
            ImportDesc::Global { .. } => true,
        }
    }
}

impl DeepView for ImportDesc {
    type V = ImportDesc;

    open spec fn deep_view(&self) -> ImportDesc {
        *self
    }
}

/// One entry of the import section: where it comes from and what it is.
#[derive(Debug, Clone, PartialEq, Eq)]
pub struct Import {
    pub module: String,
    pub name: String,
    pub desc: ImportDesc,
}

/// The contents of an [`Import`].
pub struct ImportView {
    pub module: Seq<char>,
    pub name: Seq<char>,
    pub desc: ImportDesc,
}

impl DeepView for Import {
    type V = ImportView;

    open spec fn deep_view(&self) -> ImportView {
        ImportView { module: self.module@, name: self.name@, desc: self.desc }
    }
}

/// What kind of thing an export binds, and the index into that kind's space.
/// Unlike an import, an export carries no type-level detail of its own - the
/// index is enough, since the thing it names was already fully described
/// wherever it was defined or imported.
#[derive(Debug, Clone, Copy, PartialEq, Eq)]
pub enum ExportDesc {
    Func(u32),
    Table(u32),
    Memory(u32),
    Global(u32),
}

impl ExportDesc {
    /// The kind of thing that the export binds.
    pub open spec fn spec_kind(self) -> ExternKind {
        match self {
            ExportDesc::Func(_) => ExternKind::Func,
            ExportDesc::Table(_) => ExternKind::Table,
            ExportDesc::Memory(_) => ExternKind::Memory,
            ExportDesc::Global(_) => ExternKind::Global,
        }
    }

    /// The index into that kind's space.
    pub open spec fn spec_index(self) -> u32 {
        match self {
            ExportDesc::Func(index) => index,
            ExportDesc::Table(index) => index,
            ExportDesc::Memory(index) => index,
            ExportDesc::Global(index) => index,
        }
    }
}

impl DeepView for ExportDesc {
    type V = ExportDesc;

    open spec fn deep_view(&self) -> ExportDesc {
        *self
    }
}

/// One entry of the export section: the name other modules see, and what it
/// points to.
#[derive(Debug, Clone, PartialEq, Eq)]
pub struct Export {
    pub name: String,
    pub desc: ExportDesc,
}

/// The contents of an [`Export`].
pub struct ExportView {
    pub name: Seq<char>,
    pub desc: ExportDesc,
}

impl DeepView for Export {
    type V = ExportView;

    open spec fn deep_view(&self) -> ExportView {
        ExportView { name: self.name@, desc: self.desc }
    }
}

/// A run of local variables of one type.
#[derive(Debug, Clone, Copy, PartialEq, Eq)]
pub struct LocalDecl {
    pub count: u32,
    pub val_type: ValType,
}

impl DeepView for LocalDecl {
    type V = LocalDecl;

    open spec fn deep_view(&self) -> LocalDecl {
        *self
    }
}

/// One entry of the code section: a function's locals, and its instructions as
/// they stand in the input, up to and including the final `end`.
#[derive(Debug, Clone, PartialEq, Eq)]
pub struct Code {
    pub locals: Vec<LocalDecl>,
    pub body: Vec<u8>,
}

/// The contents of a [`Code`].
pub struct CodeView {
    pub locals: Seq<LocalDecl>,
    pub body: Seq<u8>,
}

impl DeepView for Code {
    type V = CodeView;

    open spec fn deep_view(&self) -> CodeView {
        CodeView { locals: self.locals.deep_view(), body: self.body.deep_view() }
    }
}

} // verus!
