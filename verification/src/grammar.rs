//! The binary format, stated: what stands at a position of the input, where it
//! ends, and how reading it fails when nothing valid stands there.
//!
//! Every `.._at` function gives the [`Outcome`] of reading one kind of item at
//! one position. The readers in [`crate::binary`] are proved to compute exactly
//! these.

use crate::error::{ParseError, ParseErrorKind};
use crate::leb;
use crate::types::{
    CodeView, ExportDesc, ExportView, FuncTypeView, ImportDesc, ImportView, Limits, LocalDecl,
    ValType,
};
use vstd::prelude::*;

verus! {

/// The section id for custom sections.
pub const SECTION_ID_CUSTOM: u8 = 0;

/// The section id for the type section.
pub const SECTION_ID_TYPE: u8 = 1;

/// The section id for the import section.
pub const SECTION_ID_IMPORT: u8 = 2;

/// The section id for the function section.
pub const SECTION_ID_FUNCTION: u8 = 3;

/// The section id for the table section.
pub const SECTION_ID_TABLE: u8 = 4;

/// The section id for the memory section.
pub const SECTION_ID_MEMORY: u8 = 5;

/// The section id for the global section.
pub const SECTION_ID_GLOBAL: u8 = 6;

/// The section id for the export section.
pub const SECTION_ID_EXPORT: u8 = 7;

/// The section id for the start section.
pub const SECTION_ID_START: u8 = 8;

/// The section id for the element section.
pub const SECTION_ID_ELEMENT: u8 = 9;

/// The section id for the code section.
pub const SECTION_ID_CODE: u8 = 10;

/// The section id for the data section.
pub const SECTION_ID_DATA: u8 = 11;

/// The section id for the data-count section.
pub const SECTION_ID_DATA_COUNT: u8 = 12;

/// The only binary format version this crate understands.
pub const SUPPORTED_VERSION: u32 = 1;

/// The tag byte that opens every func type.
pub const FUNC_TYPE_TAG: u8 = 0x60;

/// The element type of a table of function references.
pub const FUNC_REF: u8 = 0x70;

/// What reading one item at a position comes to.
pub enum Outcome<T> {
    /// `value` stands there, and its last byte is the one before `end`.
    Read { value: T, end: int },
    /// The input breaks the format at `offset`; the read stops at `stop`.
    Failed { kind: ParseErrorKind, offset: int, stop: int },
}

impl<T> Outcome<T> {
    /// The failure of this read, as the failure of a read of something larger.
    pub open spec fn failure<U>(self) -> Outcome<U> {
        match self {
            Outcome::Read { value, end } => arbitrary(),
            Outcome::Failed { kind, offset, stop } => Outcome::Failed { kind, offset, stop },
        }
    }

    /// The same outcome, except that a failed read stops at the offset that it
    /// reports.
    pub open spec fn stopping_at_offset(self) -> Outcome<T> {
        match self {
            Outcome::Read { value, end } => Outcome::Read { value, end },
            Outcome::Failed { kind, offset, stop } => Outcome::Failed {
                kind,
                offset,
                stop: offset,
            },
        }
    }
}

/// A result and the position it leaves are those of the outcome.
pub open spec fn agrees<T: DeepView>(
    res: Result<T, ParseError>,
    pos: usize,
    outcome: Outcome<T::V>,
) -> bool {
    match (res, outcome) {
        (Ok(value), Outcome::Read { value: expected, end }) => value.deep_view() == expected && pos
            == end,
        (Err(error), Outcome::Failed { kind, offset, stop }) => error.kind == kind && error.offset
            == offset && pos == stop,
        _ => false,
    }
}

/// The module header: the four bytes `\0asm`, then the version in four bytes,
/// least significant first.
pub open spec fn header_of(bytes: Seq<u8>) -> Outcome<u32> {
    if bytes.len() < 4 {
        Outcome::Failed {
            kind: ParseErrorKind::UnexpectedEof,
            offset: bytes.len() as int,
            stop: bytes.len() as int,
        }
    } else if bytes.take(4) != seq![0x00u8, 0x61u8, 0x73u8, 0x6Du8] {
        Outcome::Failed { kind: ParseErrorKind::NotWasm, offset: 0, stop: 0 }
    } else if bytes.len() < 8 {
        Outcome::Failed {
            kind: ParseErrorKind::UnexpectedEof,
            offset: bytes.len() as int,
            stop: bytes.len() as int,
        }
    } else if bytes[4] + 0x100 * bytes[5] + 0x1_0000 * bytes[6] + 0x100_0000 * bytes[7]
        != SUPPORTED_VERSION {
        Outcome::Failed { kind: ParseErrorKind::UnsupportedVersion, offset: 4, stop: 4 }
    } else {
        Outcome::Read { value: SUPPORTED_VERSION, end: 8 }
    }
}

/// One byte.
pub open spec fn byte_at(bytes: Seq<u8>, pos: int) -> Outcome<u8> {
    if 0 <= pos < bytes.len() {
        Outcome::Read { value: bytes[pos], end: pos + 1 }
    } else {
        Outcome::Failed {
            kind: ParseErrorKind::UnexpectedEof,
            offset: bytes.len() as int,
            stop: pos,
        }
    }
}

/// A LEB128 number of 32 bits.
pub open spec fn u32_at(bytes: Seq<u8>, pos: int) -> Outcome<u32> {
    match leb::decode_u32(bytes, pos) {
        Ok((value, end)) => Outcome::Read { value, end },
        Err(_) => Outcome::Failed { kind: ParseErrorKind::Leb, offset: pos, stop: pos },
    }
}

/// A length-prefixed UTF-8 string.
pub open spec fn name_at(bytes: Seq<u8>, pos: int) -> Outcome<Seq<char>> {
    match u32_at(bytes, pos) {
        Outcome::Read { value: len, end: start } => {
            if start + len > bytes.len() {
                Outcome::Failed {
                    kind: ParseErrorKind::UnexpectedEof,
                    offset: bytes.len() as int,
                    stop: start,
                }
            } else if !vstd::utf8::valid_utf8(bytes.subrange(start, start + len)) {
                Outcome::Failed { kind: ParseErrorKind::InvalidUtf8, offset: start, stop: start }
            } else {
                Outcome::Read {
                    value: vstd::utf8::decode_utf8(bytes.subrange(start, start + len)),
                    end: start + len,
                }
            }
        },
        failed => failed.failure(),
    }
}

/// The value type that a byte stands for.
pub open spec fn val_type_of(byte: u8) -> Option<ValType> {
    if byte == 0x7F {
        Some(ValType::I32)
    } else if byte == 0x7E {
        Some(ValType::I64)
    } else if byte == 0x7D {
        Some(ValType::F32)
    } else if byte == 0x7C {
        Some(ValType::F64)
    } else {
        None
    }
}

/// A value type.
pub open spec fn val_type_at(bytes: Seq<u8>, pos: int) -> Outcome<ValType> {
    match byte_at(bytes, pos) {
        Outcome::Read { value: byte, end } => match val_type_of(byte) {
            Some(value) => Outcome::Read { value, end },
            None => Outcome::Failed {
                kind: ParseErrorKind::InvalidValType,
                offset: pos,
                stop: end,
            },
        },
        failed => failed.failure(),
    }
}

/// `count` items, one right after the other; `item` reads the one at a position.
pub open spec fn items_at<T>(item: spec_fn(int) -> Outcome<T>, pos: int, count: nat) -> Outcome<
    Seq<T>,
>
    decreases count,
{
    if count == 0 {
        Outcome::Read { value: seq![], end: pos }
    } else {
        match items_at(item, pos, (count - 1) as nat) {
            Outcome::Read { value: items, end } => match item(end) {
                Outcome::Read { value: last, end: end_of_last } => Outcome::Read {
                    value: items.push(last),
                    end: end_of_last,
                },
                failed => failed.failure(),
            },
            failed => failed,
        }
    }
}

/// Items after one that fails are never reached.
pub(crate) proof fn lemma_items_failed<T>(
    item: spec_fn(int) -> Outcome<T>,
    pos: int,
    failing: nat,
    count: nat,
)
    requires
        failing <= count,
        items_at(item, pos, failing) is Failed,
    ensures
        items_at(item, pos, count) == items_at(item, pos, failing),
    decreases count,
{
    if failing < count {
        lemma_items_failed(item, pos, failing, (count - 1) as nat);
    }
}

/// A vector: the number of its items, then the items.
pub open spec fn vec_at<T>(
    bytes: Seq<u8>,
    item: spec_fn(int) -> Outcome<T>,
    pos: int,
) -> Outcome<Seq<T>> {
    match u32_at(bytes, pos) {
        Outcome::Read { value: count, end } => items_at(item, end, count as nat),
        failed => failed.failure(),
    }
}

/// How to read a value type of `bytes`.
pub open spec fn val_type_reader(bytes: Seq<u8>) -> spec_fn(int) -> Outcome<ValType> {
    |pos: int| val_type_at(bytes, pos)
}

/// A vector of value types.
pub open spec fn val_types_at(bytes: Seq<u8>, pos: int) -> Outcome<Seq<ValType>> {
    vec_at(bytes, val_type_reader(bytes), pos)
}

/// A function signature: its tag, its parameters, its results.
pub open spec fn func_type_at(bytes: Seq<u8>, pos: int) -> Outcome<FuncTypeView> {
    match byte_at(bytes, pos) {
        Outcome::Read { value: tag, end } => if tag != FUNC_TYPE_TAG {
            Outcome::Failed { kind: ParseErrorKind::InvalidFuncType, offset: pos, stop: end }
        } else {
            match val_types_at(bytes, end) {
                Outcome::Read { value: params, end } => match val_types_at(bytes, end) {
                    Outcome::Read { value: results, end } => Outcome::Read {
                        value: FuncTypeView { params, results },
                        end,
                    },
                    failed => failed.failure(),
                },
                failed => failed.failure(),
            }
        },
        failed => failed.failure(),
    }
}

/// How to read a function signature of `bytes`.
pub open spec fn func_type_reader(bytes: Seq<u8>) -> spec_fn(int) -> Outcome<FuncTypeView> {
    |pos: int| func_type_at(bytes, pos)
}

/// A table or memory's limits: a flag byte, a minimum, and - if the flag says
/// so - a maximum that must not be smaller than the minimum.
pub open spec fn limits_at(bytes: Seq<u8>, pos: int) -> Outcome<Limits> {
    match byte_at(bytes, pos) {
        Outcome::Read { value: flag, end } => match u32_at(bytes, end) {
            Outcome::Read { value: min, end } => if flag == 0x00 {
                Outcome::Read { value: Limits { min, max: None }, end }
            } else if flag == 0x01 {
                match u32_at(bytes, end) {
                    Outcome::Read { value: max, end: end_of_max } => if max < min {
                        Outcome::Failed {
                            kind: ParseErrorKind::InvalidLimits,
                            offset: end,
                            stop: end_of_max,
                        }
                    } else {
                        Outcome::Read { value: Limits { min, max: Some(max) }, end: end_of_max }
                    },
                    failed => failed.failure(),
                }
            } else {
                Outcome::Failed { kind: ParseErrorKind::InvalidLimits, offset: pos, stop: end }
            },
            failed => failed.failure(),
        },
        failed => failed.failure(),
    }
}

/// The index of one of `type_count` types.
pub open spec fn type_index_at(bytes: Seq<u8>, pos: int, type_count: nat) -> Outcome<u32> {
    match u32_at(bytes, pos) {
        Outcome::Read { value, end } => if value < type_count {
            Outcome::Read { value, end }
        } else {
            Outcome::Failed { kind: ParseErrorKind::TypeIndexOutOfRange, offset: pos, stop: end }
        },
        failed => failed,
    }
}

/// How to read the index of one of `type_count` types.
pub open spec fn type_index_reader(bytes: Seq<u8>, type_count: nat) -> spec_fn(int) -> Outcome<
    u32,
> {
    |pos: int| type_index_at(bytes, pos, type_count)
}

/// The type of an imported global: a value type and a mutability flag.
pub open spec fn global_at(bytes: Seq<u8>, pos: int) -> Outcome<ImportDesc> {
    match val_type_at(bytes, pos) {
        Outcome::Read { value: val_type, end } => match byte_at(bytes, end) {
            Outcome::Read { value: flag, end: end_of_flag } => if flag <= 0x01 {
                Outcome::Read {
                    value: ImportDesc::Global { val_type, mutable: flag == 0x01 },
                    end: end_of_flag,
                }
            } else {
                Outcome::Failed {
                    kind: ParseErrorKind::InvalidExternKind,
                    offset: end,
                    stop: end_of_flag,
                }
            },
            failed => failed.failure(),
        },
        failed => failed.failure(),
    }
}

/// The type of an imported table: an element type and limits.
pub open spec fn table_at(bytes: Seq<u8>, pos: int) -> Outcome<ImportDesc> {
    match byte_at(bytes, pos) {
        Outcome::Read { value: element_type, end } => if element_type != FUNC_REF {
            Outcome::Failed { kind: ParseErrorKind::InvalidExternKind, offset: pos, stop: end }
        } else {
            match limits_at(bytes, end) {
                Outcome::Read { value: limits, end } => Outcome::Read {
                    value: ImportDesc::Table { element_type, limits },
                    end,
                },
                failed => failed.failure(),
            }
        },
        failed => failed.failure(),
    }
}

/// What an import binds: a kind tag, then what that kind calls for.
pub open spec fn import_desc_at(bytes: Seq<u8>, pos: int, type_count: nat) -> Outcome<ImportDesc> {
    match byte_at(bytes, pos) {
        Outcome::Read { value: kind, end } => if kind == 0x00 {
            match type_index_at(bytes, end, type_count) {
                Outcome::Read { value: type_index, end } => Outcome::Read {
                    value: ImportDesc::Func(type_index),
                    end,
                },
                failed => failed.failure(),
            }
        } else if kind == 0x01 {
            table_at(bytes, end)
        } else if kind == 0x02 {
            match limits_at(bytes, end) {
                Outcome::Read { value: limits, end } => Outcome::Read {
                    value: ImportDesc::Memory(limits),
                    end,
                },
                failed => failed.failure(),
            }
        } else if kind == 0x03 {
            global_at(bytes, end)
        } else {
            Outcome::Failed { kind: ParseErrorKind::InvalidExternKind, offset: pos, stop: end }
        },
        failed => failed.failure(),
    }
}

/// An import: the module it comes from, its name there, and what it binds.
pub open spec fn import_at(bytes: Seq<u8>, pos: int, type_count: nat) -> Outcome<ImportView> {
    match name_at(bytes, pos) {
        Outcome::Read { value: module, end } => match name_at(bytes, end) {
            Outcome::Read { value: name, end } => match import_desc_at(bytes, end, type_count) {
                Outcome::Read { value: desc, end } => Outcome::Read {
                    value: ImportView { module, name, desc },
                    end,
                },
                failed => failed.failure(),
            },
            failed => failed.failure(),
        },
        failed => failed.failure(),
    }
}

/// How to read an import of `bytes`.
pub open spec fn import_reader(bytes: Seq<u8>, type_count: nat) -> spec_fn(int) -> Outcome<
    ImportView,
> {
    |pos: int| import_at(bytes, pos, type_count)
}

/// What an export with this kind tag and index binds.
pub open spec fn export_desc_of(kind: u8, index: u32) -> Option<ExportDesc> {
    if kind == 0x00 {
        Some(ExportDesc::Func(index))
    } else if kind == 0x01 {
        Some(ExportDesc::Table(index))
    } else if kind == 0x02 {
        Some(ExportDesc::Memory(index))
    } else if kind == 0x03 {
        Some(ExportDesc::Global(index))
    } else {
        None
    }
}

/// An export: its name, a kind tag and an index.
pub open spec fn export_at(bytes: Seq<u8>, pos: int) -> Outcome<ExportView> {
    match name_at(bytes, pos) {
        Outcome::Read { value: name, end: kind_offset } => match byte_at(bytes, kind_offset) {
            Outcome::Read { value: kind, end } => match u32_at(bytes, end) {
                Outcome::Read { value: index, end } => match export_desc_of(kind, index) {
                    Some(desc) => Outcome::Read { value: ExportView { name, desc }, end },
                    None => Outcome::Failed {
                        kind: ParseErrorKind::InvalidExternKind,
                        offset: kind_offset,
                        stop: end,
                    },
                },
                failed => failed.failure(),
            },
            failed => failed.failure(),
        },
        failed => failed.failure(),
    }
}

/// How to read an export of `bytes`.
pub open spec fn export_reader(bytes: Seq<u8>) -> spec_fn(int) -> Outcome<ExportView> {
    |pos: int| export_at(bytes, pos)
}

/// A run of locals: how many, and their type.
pub open spec fn local_decl_at(bytes: Seq<u8>, pos: int) -> Outcome<LocalDecl> {
    match u32_at(bytes, pos) {
        Outcome::Read { value: count, end } => match val_type_at(bytes, end) {
            Outcome::Read { value: val_type, end } => Outcome::Read {
                value: LocalDecl { count, val_type },
                end,
            },
            failed => failed.failure(),
        },
        failed => failed.failure(),
    }
}

/// How to read a run of locals of `bytes`.
pub open spec fn local_decl_reader(bytes: Seq<u8>) -> spec_fn(int) -> Outcome<LocalDecl> {
    |pos: int| local_decl_at(bytes, pos)
}

/// A function's code: its size in bytes, its locals, and then its instructions,
/// which are all that is left of that size.
pub open spec fn code_at(bytes: Seq<u8>, pos: int) -> Outcome<CodeView> {
    match u32_at(bytes, pos) {
        Outcome::Read { value: size, end: start } => if start + size > bytes.len() {
            Outcome::Failed {
                kind: ParseErrorKind::UnexpectedEof,
                offset: bytes.len() as int,
                stop: start,
            }
        } else {
            match vec_at(bytes, local_decl_reader(bytes), start) {
                Outcome::Read { value: locals, end } => if end > start + size {
                    Outcome::Failed {
                        kind: ParseErrorKind::SectionSizeMismatch,
                        offset: end,
                        stop: end,
                    }
                } else {
                    Outcome::Read {
                        value: CodeView { locals, body: bytes.subrange(end, start + size) },
                        end: start + size,
                    }
                },
                failed => failed.failure(),
            }
        },
        failed => failed.failure(),
    }
}

/// How to read a function's code of `bytes`.
pub open spec fn code_reader(bytes: Seq<u8>) -> spec_fn(int) -> Outcome<CodeView> {
    |pos: int| code_at(bytes, pos)
}

/// A section's id and the size of its contents; it ends where the contents
/// start.
pub open spec fn section_header_at(bytes: Seq<u8>, pos: int) -> Outcome<(u8, u32)> {
    match byte_at(bytes, pos) {
        Outcome::Read { value: id, end } => match u32_at(bytes, end) {
            Outcome::Read { value: size, end } => Outcome::Read { value: (id, size), end },
            failed => failed.failure(),
        },
        failed => failed.failure(),
    }
}

/// The opening of the section with this id: the position just past the whole
/// section. It ends where the contents start.
pub open spec fn section_start_at(bytes: Seq<u8>, pos: int, id: u8) -> Outcome<int> {
    match section_header_at(bytes, pos) {
        Outcome::Read { value: (found, size), end: start } => if found != id {
            Outcome::Failed { kind: ParseErrorKind::UnknownSectionId, offset: pos, stop: start }
        } else if start + size > bytes.len() {
            Outcome::Failed {
                kind: ParseErrorKind::UnexpectedEof,
                offset: bytes.len() as int,
                stop: start,
            }
        } else {
            Outcome::Read { value: start + size, end: start }
        },
        failed => failed.failure(),
    }
}

/// The section with this id: `content` reads what stands between its header and
/// its end, and has to read all of it.
pub open spec fn section_at<T>(
    bytes: Seq<u8>,
    pos: int,
    id: u8,
    content: spec_fn(int) -> Outcome<T>,
) -> Outcome<T> {
    match section_start_at(bytes, pos, id) {
        Outcome::Read { value: section_end, end: start } => match content(start) {
            Outcome::Read { value, end } => if end != section_end {
                Outcome::Failed {
                    kind: ParseErrorKind::SectionSizeMismatch,
                    offset: end,
                    stop: end,
                }
            } else {
                Outcome::Read { value, end }
            },
            failed => failed,
        },
        failed => failed.failure(),
    }
}

/// The type section: a vector of function signatures.
pub open spec fn type_section_at(bytes: Seq<u8>, pos: int) -> Outcome<Seq<FuncTypeView>> {
    section_at(
        bytes,
        pos,
        SECTION_ID_TYPE,
        |start: int| vec_at(bytes, func_type_reader(bytes), start),
    )
}

/// The import section: a vector of imports.
pub open spec fn import_section_at(bytes: Seq<u8>, pos: int, type_count: nat) -> Outcome<
    Seq<ImportView>,
> {
    section_at(
        bytes,
        pos,
        SECTION_ID_IMPORT,
        |start: int| vec_at(bytes, import_reader(bytes, type_count), start),
    )
}

/// The function section: a vector of type indices.
pub open spec fn function_section_at(bytes: Seq<u8>, pos: int, type_count: nat) -> Outcome<
    Seq<u32>,
> {
    section_at(
        bytes,
        pos,
        SECTION_ID_FUNCTION,
        |start: int| vec_at(bytes, type_index_reader(bytes, type_count), start),
    )
}

/// The export section: a vector of exports.
pub open spec fn export_section_at(bytes: Seq<u8>, pos: int) -> Outcome<Seq<ExportView>> {
    section_at(
        bytes,
        pos,
        SECTION_ID_EXPORT,
        |start: int| vec_at(bytes, export_reader(bytes), start),
    )
}

/// The start section: a function index, without a count.
pub open spec fn start_section_at(bytes: Seq<u8>, pos: int) -> Outcome<u32> {
    section_at(bytes, pos, SECTION_ID_START, |start: int| u32_at(bytes, start))
}

/// The contents of the code section: a vector of `func_count` function bodies.
pub open spec fn codes_at(bytes: Seq<u8>, pos: int, func_count: nat) -> Outcome<Seq<CodeView>> {
    match u32_at(bytes, pos) {
        Outcome::Read { value: count, end } => if count != func_count {
            Outcome::Failed { kind: ParseErrorKind::FunctionCodeMismatch, offset: pos, stop: end }
        } else {
            items_at(code_reader(bytes), end, count as nat)
        },
        failed => failed.failure(),
    }
}

/// The code section, in a module that declares `func_count` functions.
pub open spec fn code_section_at(bytes: Seq<u8>, pos: int, func_count: nat) -> Outcome<
    Seq<CodeView>,
> {
    section_at(bytes, pos, SECTION_ID_CODE, |start: int| codes_at(bytes, start, func_count))
}

/// A custom section: its name, then anything at all up to the section's end.
pub open spec fn custom_section_at(bytes: Seq<u8>, pos: int) -> Outcome<Seq<char>> {
    match section_start_at(bytes, pos, SECTION_ID_CUSTOM) {
        Outcome::Read { value: section_end, end: start } => match name_at(bytes, start) {
            Outcome::Read { value: name, end } => if end > section_end {
                Outcome::Failed {
                    kind: ParseErrorKind::SectionSizeMismatch,
                    offset: end,
                    stop: end,
                }
            } else {
                Outcome::Read { value: name, end: section_end }
            },
            failed => failed,
        },
        failed => failed.failure(),
    }
}

/// A section of any id, read for its id and extent only.
pub open spec fn any_section_at(bytes: Seq<u8>, pos: int) -> Outcome<u8> {
    match section_header_at(bytes, pos) {
        Outcome::Read { value: (id, size), end: start } => if start + size > bytes.len() {
            Outcome::Failed {
                kind: ParseErrorKind::UnexpectedEof,
                offset: bytes.len() as int,
                stop: start,
            }
        } else {
            Outcome::Read { value: id, end: start + size }
        },
        failed => failed.failure(),
    }
}

} // verus!
