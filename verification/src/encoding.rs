//! How the format is written: the bytes that stand for a value.
//!
//! This goes the opposite way from [`crate::grammar`], and knows nothing of it.
//! Each function gives the shortest bytes that stand for its argument.

use crate::types::{
    CodeView, ExportDesc, ExportView, FuncTypeView, ImportDesc, ImportView, Limits, LocalDecl,
    ValType,
};
use vstd::prelude::*;

verus! {

/// The input holds `piece` at `pos`.
pub open spec fn holds_at(bytes: Seq<u8>, pos: int, piece: Seq<u8>) -> bool {
    &&& piece.len() > 0 ==> 0 <= pos && pos + piece.len() <= bytes.len()
    &&& forall|i: int| 0 <= i < piece.len() ==> bytes[pos + i] == #[trigger] piece[i]
}

/// A count or a size that 32 bits can hold.
pub open spec fn fits(n: nat) -> bool {
    n <= u32::MAX
}

/// A number in base 128, least significant digit first, with 128 added to every
/// digit but the last.
pub open spec fn number(n: nat) -> Seq<u8>
    decreases n,
{
    if n < 128 {
        seq![n as u8]
    } else {
        seq![(128 + n % 128) as u8] + number(n / 128)
    }
}

/// The items, one right after the other.
pub open spec fn concat<T>(items: Seq<T>, writer: spec_fn(T) -> Seq<u8>) -> Seq<u8>
    decreases items.len(),
{
    if items.len() == 0 {
        seq![]
    } else {
        concat(items.drop_last(), writer) + writer(items.last())
    }
}

/// How many items there are, and then the items.
pub open spec fn vector<T>(items: Seq<T>, writer: spec_fn(T) -> Seq<u8>) -> Seq<u8> {
    number(items.len()) + concat(items, writer)
}

/// The size of the contents in bytes, and then the contents.
pub open spec fn sized(contents: Seq<u8>) -> Seq<u8> {
    number(contents.len()) + contents
}

/// A string, in UTF-8.
pub open spec fn name(text: Seq<char>) -> Seq<u8> {
    sized(vstd::utf8::encode_utf8(text))
}

/// The byte for each value type.
pub open spec fn val_type_byte(val_type: ValType) -> u8 {
    match val_type {
        ValType::I32 => 0x7F,
        ValType::I64 => 0x7E,
        ValType::F32 => 0x7D,
        ValType::F64 => 0x7C,
    }
}

/// How to write a value type.
pub open spec fn val_type_writer() -> spec_fn(ValType) -> Seq<u8> {
    |val_type: ValType| seq![val_type_byte(val_type)]
}

/// A function signature.
pub open spec fn func_type(signature: FuncTypeView) -> Seq<u8> {
    seq![0x60u8] + (vector(signature.params, val_type_writer()) + vector(
        signature.results,
        val_type_writer(),
    ))
}

/// How to write a function signature.
pub open spec fn func_type_writer() -> spec_fn(FuncTypeView) -> Seq<u8> {
    |signature: FuncTypeView| func_type(signature)
}

/// The limits of a table or memory.
pub open spec fn limits(limits: Limits) -> Seq<u8> {
    match limits.max {
        None => seq![0x00u8] + number(limits.min as nat),
        Some(max) => seq![0x01u8] + (number(limits.min as nat) + number(max as nat)),
    }
}

/// What an import binds.
pub open spec fn import_desc(desc: ImportDesc) -> Seq<u8> {
    match desc {
        ImportDesc::Func(type_index) => seq![0x00u8] + number(type_index as nat),
        ImportDesc::Table { element_type, limits: bounds } => seq![0x01u8] + (seq![element_type]
            + limits(bounds)),
        ImportDesc::Memory(bounds) => seq![0x02u8] + limits(bounds),
        ImportDesc::Global { val_type, mutable } => seq![
            0x03u8,
            val_type_byte(val_type),
            if mutable {
                0x01u8
            } else {
                0x00u8
            },
        ],
    }
}

/// An import.
pub open spec fn import(import: ImportView) -> Seq<u8> {
    name(import.module) + (name(import.name) + import_desc(import.desc))
}

/// How to write an import.
pub open spec fn import_writer() -> spec_fn(ImportView) -> Seq<u8> {
    |entry: ImportView| import(entry)
}

/// How to write an index.
pub open spec fn index_writer() -> spec_fn(u32) -> Seq<u8> {
    |index: u32| number(index as nat)
}

/// What an export binds.
pub open spec fn export_desc(desc: ExportDesc) -> Seq<u8> {
    match desc {
        ExportDesc::Func(index) => seq![0x00u8] + number(index as nat),
        ExportDesc::Table(index) => seq![0x01u8] + number(index as nat),
        ExportDesc::Memory(index) => seq![0x02u8] + number(index as nat),
        ExportDesc::Global(index) => seq![0x03u8] + number(index as nat),
    }
}

/// An export.
pub open spec fn export(export: ExportView) -> Seq<u8> {
    name(export.name) + export_desc(export.desc)
}

/// How to write an export.
pub open spec fn export_writer() -> spec_fn(ExportView) -> Seq<u8> {
    |entry: ExportView| export(entry)
}

/// How to write a run of locals.
pub open spec fn local_decl_writer() -> spec_fn(LocalDecl) -> Seq<u8> {
    |locals: LocalDecl| number(locals.count as nat) + seq![val_type_byte(locals.val_type)]
}

/// A function's locals and instructions.
pub open spec fn code(code: CodeView) -> Seq<u8> {
    sized(vector(code.locals, local_decl_writer()) + code.body)
}

/// How to write a function's locals and instructions.
pub open spec fn code_writer() -> spec_fn(CodeView) -> Seq<u8> {
    |entry: CodeView| code(entry)
}

/// A section.
pub open spec fn section(id: u8, contents: Seq<u8>) -> Seq<u8> {
    seq![id] + sized(contents)
}

/// What a section holds.
pub enum SectionView {
    Custom { name: Seq<char>, contents: Seq<u8> },
    Type(Seq<FuncTypeView>),
    Import(Seq<ImportView>),
    Function(Seq<u32>),
    Export(Seq<ExportView>),
    Start(u32),
    Code(Seq<CodeView>),
    Skipped { id: u8, contents: Seq<u8> },
}

impl SectionView {
    /// The id of the section.
    pub open spec fn id(self) -> u8 {
        match self {
            SectionView::Custom { .. } => 0,
            SectionView::Type(_) => 1,
            SectionView::Import(_) => 2,
            SectionView::Function(_) => 3,
            SectionView::Export(_) => 7,
            SectionView::Start(_) => 8,
            SectionView::Code(_) => 10,
            SectionView::Skipped { id, .. } => id,
        }
    }

    /// The contents of the section.
    pub open spec fn contents(self) -> Seq<u8> {
        match self {
            SectionView::Custom { name: text, contents } => name(text) + contents,
            SectionView::Type(values) => vector(values, func_type_writer()),
            SectionView::Import(values) => vector(values, import_writer()),
            SectionView::Function(values) => vector(values, index_writer()),
            SectionView::Export(values) => vector(values, export_writer()),
            SectionView::Start(index) => number(index as nat),
            SectionView::Code(values) => vector(values, code_writer()),
            SectionView::Skipped { contents, .. } => contents,
        }
    }

    /// Nothing in the section is too long to be written.
    pub open spec fn fits(self) -> bool {
        &&& fits(self.contents().len())
        &&& match self {
            SectionView::Custom { name: text, .. } => name_fits(text),
            SectionView::Type(values) => fits(values.len()) && forall|i: int|
                0 <= i < values.len() ==> func_type_fits(#[trigger] values[i]),
            SectionView::Import(values) => fits(values.len()) && forall|i: int|
                0 <= i < values.len() ==> import_fits(#[trigger] values[i]),
            SectionView::Function(values) => fits(values.len()),
            SectionView::Export(values) => fits(values.len()) && forall|i: int|
                0 <= i < values.len() ==> name_fits((#[trigger] values[i]).name),
            SectionView::Start(_) => true,
            SectionView::Code(values) => fits(values.len()) && forall|i: int|
                0 <= i < values.len() ==> code_fits(#[trigger] values[i]),
            SectionView::Skipped { .. } => true,
        }
    }
}

/// How to write a section.
pub open spec fn section_writer() -> spec_fn(SectionView) -> Seq<u8> {
    |entry: SectionView| section(entry.id(), entry.contents())
}

/// A module with these sections.
pub open spec fn module(sections: Seq<SectionView>) -> Seq<u8> {
    header() + concat(sections, section_writer())
}

/// The module header.
pub open spec fn header() -> Seq<u8> {
    seq![0x00u8, 0x61u8, 0x73u8, 0x6Du8, 0x01u8, 0x00u8, 0x00u8, 0x00u8]
}

/// The string is not too long to be written.
pub open spec fn name_fits(text: Seq<char>) -> bool {
    fits(vstd::utf8::encode_utf8(text).len())
}

/// The signature has not too many parameters or results to be written.
pub open spec fn func_type_fits(signature: FuncTypeView) -> bool {
    fits(signature.params.len()) && fits(signature.results.len())
}

/// The names of the import are not too long to be written.
pub open spec fn import_fits(import: ImportView) -> bool {
    name_fits(import.module) && name_fits(import.name)
}

/// The function's code is not too long to be written.
pub open spec fn code_fits(code: CodeView) -> bool {
    fits((vector(code.locals, local_decl_writer()) + code.body).len()) && fits(code.locals.len())
}

} // verus!
