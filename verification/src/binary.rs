//! The WebAssembly binary format: module header first, sections after.
//!
//! The header is fixed-width and not LEB128 encoded, unlike nearly everything
//! that follows it, which is why it gets its own read logic instead of going
//! through `leb`.
//!
//! Every reader takes the whole input and a position in it. What each one
//! returns, and where it leaves the position, is stated by the function of
//! [`crate::grammar`] that its contract names.

use crate::grammar;
use crate::leb;
use vstd::prelude::*;
use vstd::slice::{slice_subrange, slice_to_vec};

pub use crate::error::{ParseError, ParseErrorKind};
pub use crate::grammar::{
    SECTION_ID_CODE, SECTION_ID_CUSTOM, SECTION_ID_DATA, SECTION_ID_DATA_COUNT,
    SECTION_ID_ELEMENT, SECTION_ID_EXPORT, SECTION_ID_FUNCTION, SECTION_ID_GLOBAL,
    SECTION_ID_IMPORT, SECTION_ID_MEMORY, SECTION_ID_START, SECTION_ID_TABLE, SECTION_ID_TYPE,
};
pub use crate::types::{
    Code, Export, ExportDesc, ExternKind, FuncType, Import, ImportDesc, Limits, LocalDecl, ValType,
};

verus! {

/// The error of [`core::str::from_utf8`], of which nothing is used.
#[verifier::external_type_specification]
#[verifier::external_body]
pub struct ExUtf8Error(core::str::Utf8Error);

/// [`core::str::from_utf8`] takes exactly the byte strings that are valid UTF-8,
/// and returns the characters that they encode.
pub assume_specification[ core::str::from_utf8 ](v: &[u8]) -> (res: Result<
    &str,
    core::str::Utf8Error,
>)
    ensures
        match res {
            Ok(text) => vstd::utf8::valid_utf8(v@) && text@ == vstd::utf8::decode_utf8(v@),
            Err(_) => !vstd::utf8::valid_utf8(v@),
        },
;

/// Checks the eight-byte module header and returns the version it declares.
///
/// The version field is a plain little-endian `u32`, not LEB128 - the only
/// fixed-width multi-byte field in the whole format, because at this point
/// nothing has been negotiated yet that would let a decoder know how to read
/// anything else.
pub fn read_header(bytes: &[u8]) -> (res: Result<u32, ParseError>)
    ensures
        match (res, grammar::header_of(bytes@)) {
            (Ok(version), grammar::Outcome::Read { value, .. }) => version == value,
            (Err(error), grammar::Outcome::Failed { kind, offset, .. }) => error.kind == kind
                && error.offset == offset,
            _ => false,
        },
{
    if bytes.len() < 4 {
        return Err(ParseError { offset: bytes.len(), kind: ParseErrorKind::UnexpectedEof });
    }
    let is_wasm = bytes[0] == 0x00 && bytes[1] == 0x61 && bytes[2] == 0x73 && bytes[3] == 0x6D;
    proof {
        let magic = seq![0x00u8, 0x61u8, 0x73u8, 0x6Du8];
        if is_wasm {
            assert(bytes@.take(4) =~= magic);
        } else if bytes@.take(4) == magic {
            assert(bytes@.take(4)[0] == magic[0]);
            assert(bytes@.take(4)[1] == magic[1]);
            assert(bytes@.take(4)[2] == magic[2]);
            assert(bytes@.take(4)[3] == magic[3]);
        }
    }
    if !is_wasm {
        return Err(ParseError { offset: 0, kind: ParseErrorKind::NotWasm });
    }
    if bytes.len() < 8 {
        return Err(ParseError { offset: bytes.len(), kind: ParseErrorKind::UnexpectedEof });
    }
    let version: u32 = bytes[4] as u32 + 0x100 * bytes[5] as u32 + 0x1_0000 * bytes[6] as u32
        + 0x100_0000 * bytes[7] as u32;
    if version != grammar::SUPPORTED_VERSION {
        return Err(ParseError { offset: 4, kind: ParseErrorKind::UnsupportedVersion });
    }
    Ok(version)
}

impl ValType {
    /// Returns the value type that a byte stands for.
    fn from_byte(byte: u8) -> (res: Option<ValType>)
        ensures
            res == grammar::val_type_of(byte),
    {
        match byte {
            0x7F => Some(ValType::I32),
            0x7E => Some(ValType::I64),
            0x7D => Some(ValType::F32),
            0x7C => Some(ValType::F64),
            _ => None,
        }
    }
}

/// Reads one byte.
fn read_u8(bytes: &[u8], pos: &mut usize) -> (res: Result<u8, ParseError>)
    ensures
        grammar::agrees(res, *final(pos), grammar::byte_at(bytes@, *old(pos) as int)),
{
    if *pos < bytes.len() {
        let byte: u8 = bytes[*pos];
        *pos = *pos + 1;
        Ok(byte)
    } else {
        Err(ParseError { offset: bytes.len(), kind: ParseErrorKind::UnexpectedEof })
    }
}

/// Reads a LEB128 number.
fn read_u32(bytes: &[u8], pos: &mut usize) -> (res: Result<u32, ParseError>)
    ensures
        grammar::agrees(res, *final(pos), grammar::u32_at(bytes@, *old(pos) as int)),
{
    let offset: usize = *pos;
    match leb::read_u32(bytes, pos) {
        Ok(number) => Ok(number),
        Err(_) => Err(ParseError { offset, kind: ParseErrorKind::Leb }),
    }
}

/// Reads a section's id and its LEB128 content size. Does not read the
/// content itself, since what that content means depends on the id.
fn read_section_header(bytes: &[u8], pos: &mut usize) -> (res: Result<(u8, u32), ParseError>)
    ensures
        grammar::agrees(res, *final(pos), grammar::section_header_at(bytes@, *old(pos) as int)),
{
    let id = read_u8(bytes, pos)?;
    let size = read_u32(bytes, pos)?;
    Ok((id, size))
}

/// Reads a value type.
fn read_val_type(bytes: &[u8], pos: &mut usize) -> (res: Result<ValType, ParseError>)
    ensures
        grammar::agrees(res, *final(pos), grammar::val_type_at(bytes@, *old(pos) as int)),
{
    let offset: usize = *pos;
    let byte = read_u8(bytes, pos)?;
    match ValType::from_byte(byte) {
        Some(val_type) => Ok(val_type),
        None => Err(ParseError { offset, kind: ParseErrorKind::InvalidValType }),
    }
}

/// Returns how many entries to make room for before reading `count` of them.
///
/// A malicious file can claim billions of entries in a few bytes; capping the
/// up-front allocation at the number of bytes actually left, from `pos` on,
/// avoids treating that claim at face value.
fn initial_capacity(bytes: &[u8], pos: usize, count: u32) -> (capacity: usize)
    ensures
        pos + count <= bytes@.len() ==> capacity == count,
        pos <= bytes@.len() < pos + count ==> capacity == bytes@.len() - pos,
        pos > bytes@.len() ==> capacity == 0,
{
    if pos > bytes.len() {
        0
    } else if count as usize <= bytes.len() - pos {
        count as usize
    } else {
        bytes.len() - pos
    }
}

/// Returns the end of the `size` bytes that start at `start`, if the input holds
/// that many.
fn end_of_span(bytes: &[u8], start: usize, size: u32) -> (res: Result<usize, ParseError>)
    ensures
        match res {
            Ok(end) => start + size == end && end <= bytes@.len(),
            Err(error) => start + size > bytes@.len() && error.kind
                == ParseErrorKind::UnexpectedEof && error.offset == bytes@.len(),
        },
{
    match start.checked_add(size as usize) {
        Some(end) if end <= bytes.len() => Ok(end),
        _ => Err(ParseError { offset: bytes.len(), kind: ParseErrorKind::UnexpectedEof }),
    }
}

/// Reads a vector of value types.
fn read_val_type_vec(bytes: &[u8], pos: &mut usize) -> (res: Result<Vec<ValType>, ParseError>)
    ensures
        grammar::agrees(res, *final(pos), grammar::val_types_at(bytes@, *old(pos) as int)),
{
    let count = read_u32(bytes, pos)?;
    let ghost item = grammar::val_type_reader(bytes@);
    let ghost first = *pos as int;
    let mut types: Vec<ValType> = Vec::with_capacity(initial_capacity(bytes, *pos, count));
    let mut i: u32 = 0;
    assert(types.deep_view() =~= seq![]);
    while i < count
        invariant
            i <= count,
            item == grammar::val_type_reader(bytes@),
            grammar::agrees(
                Ok::<Vec<ValType>, ParseError>(types),
                *pos,
                grammar::items_at(item, first, i as nat),
            ),
            grammar::val_types_at(bytes@, *old(pos) as int) == grammar::items_at(
                item,
                first,
                count as nat,
            ),
        decreases count - i,
    {
        let ghost before = types.deep_view();
        match read_val_type(bytes, pos) {
            Ok(val_type) => {
                types.push(val_type);
                assert(types.deep_view() =~= before.push(val_type));
            },
            Err(error) => {
                proof {
                    grammar::lemma_items_failed(item, first, (i + 1) as nat, count as nat);
                }
                return Err(error);
            },
        }
        i = i + 1;
    }
    Ok(types)
}

/// Reads a length-prefixed UTF-8 string, as used for import/export module
/// and field names.
fn read_name(bytes: &[u8], pos: &mut usize) -> (res: Result<String, ParseError>)
    ensures
        grammar::agrees(res, *final(pos), grammar::name_at(bytes@, *old(pos) as int)),
{
    let len = read_u32(bytes, pos)?;
    let start: usize = *pos;
    let end: usize = end_of_span(bytes, start, len)?;
    match core::str::from_utf8(slice_subrange(bytes, start, end)) {
        Ok(name) => {
            *pos = end;
            Ok(name.to_owned())
        },
        Err(_) => Err(ParseError { offset: start, kind: ParseErrorKind::InvalidUtf8 }),
    }
}

/// Reads a table or memory's limits: a flag byte, a minimum, and - if the
/// flag says so - a maximum that must not be smaller than the minimum.
fn read_limits(bytes: &[u8], pos: &mut usize) -> (res: Result<Limits, ParseError>)
    ensures
        grammar::agrees(res, *final(pos), grammar::limits_at(bytes@, *old(pos) as int)),
        res matches Ok(limits) ==> limits.well_formed(),
{
    let flag_offset: usize = *pos;
    let flag = read_u8(bytes, pos)?;
    let min = read_u32(bytes, pos)?;
    match flag {
        0x00 => Ok(Limits { min, max: None }),
        0x01 => {
            let max_offset: usize = *pos;
            let max = read_u32(bytes, pos)?;
            if max < min {
                return Err(ParseError { offset: max_offset, kind: ParseErrorKind::InvalidLimits });
            }
            Ok(Limits { min, max: Some(max) })
        },
        _ => Err(ParseError { offset: flag_offset, kind: ParseErrorKind::InvalidLimits }),
    }
}

/// Reads a function signature.
fn read_func_type(bytes: &[u8], pos: &mut usize) -> (res: Result<FuncType, ParseError>)
    ensures
        grammar::agrees(res, *final(pos), grammar::func_type_at(bytes@, *old(pos) as int)),
{
    let tag_offset: usize = *pos;
    let tag = read_u8(bytes, pos)?;
    if tag != grammar::FUNC_TYPE_TAG {
        return Err(ParseError { offset: tag_offset, kind: ParseErrorKind::InvalidFuncType });
    }
    let params = read_val_type_vec(bytes, pos)?;
    let results = read_val_type_vec(bytes, pos)?;
    Ok(FuncType { params, results })
}

/// Reads the index of one of `type_count` types.
fn read_type_index(bytes: &[u8], pos: &mut usize, type_count: usize) -> (res: Result<
    u32,
    ParseError,
>)
    ensures
        grammar::agrees(
            res,
            *final(pos),
            grammar::type_index_at(bytes@, *old(pos) as int, type_count as nat),
        ),
{
    let offset: usize = *pos;
    let type_index = read_u32(bytes, pos)?;
    if type_index as usize >= type_count {
        return Err(ParseError { offset, kind: ParseErrorKind::TypeIndexOutOfRange });
    }
    Ok(type_index)
}

/// Reads what an import binds.
fn read_import_desc(bytes: &[u8], pos: &mut usize, type_count: usize) -> (res: Result<
    ImportDesc,
    ParseError,
>)
    ensures
        grammar::agrees(
            res,
            *final(pos),
            grammar::import_desc_at(bytes@, *old(pos) as int, type_count as nat),
        ),
        res matches Ok(desc) ==> desc.well_formed(type_count as nat),
{
    let kind_offset: usize = *pos;
    let kind = read_u8(bytes, pos)?;
    match kind {
        0x00 => {
            let type_index = read_type_index(bytes, pos, type_count)?;
            Ok(ImportDesc::Func(type_index))
        },
        0x01 => {
            let elem_offset: usize = *pos;
            let element_type = read_u8(bytes, pos)?;
            if element_type != grammar::FUNC_REF {
                return Err(
                    ParseError { offset: elem_offset, kind: ParseErrorKind::InvalidExternKind },
                );
            }
            let limits = read_limits(bytes, pos)?;
            Ok(ImportDesc::Table { element_type, limits })
        },
        0x02 => {
            let limits = read_limits(bytes, pos)?;
            Ok(ImportDesc::Memory(limits))
        },
        0x03 => {
            let val_type = read_val_type(bytes, pos)?;
            let mut_offset: usize = *pos;
            let flag = read_u8(bytes, pos)?;
            match flag {
                0x00 => Ok(ImportDesc::Global { val_type, mutable: false }),
                0x01 => Ok(ImportDesc::Global { val_type, mutable: true }),
                _ => Err(
                    ParseError { offset: mut_offset, kind: ParseErrorKind::InvalidExternKind },
                ),
            }
        },
        _ => Err(ParseError { offset: kind_offset, kind: ParseErrorKind::InvalidExternKind }),
    }
}

/// Reads one entry of the import section.
fn read_import(bytes: &[u8], pos: &mut usize, type_count: usize) -> (res: Result<
    Import,
    ParseError,
>)
    ensures
        grammar::agrees(
            res,
            *final(pos),
            grammar::import_at(bytes@, *old(pos) as int, type_count as nat),
        ),
{
    let module = read_name(bytes, pos)?;
    let name = read_name(bytes, pos)?;
    let desc = read_import_desc(bytes, pos, type_count)?;
    Ok(Import { module, name, desc })
}

/// Reads one entry of the export section.
fn read_export(bytes: &[u8], pos: &mut usize) -> (res: Result<Export, ParseError>)
    ensures
        grammar::agrees(res, *final(pos), grammar::export_at(bytes@, *old(pos) as int)),
{
    let name = read_name(bytes, pos)?;
    let kind_offset: usize = *pos;
    let kind = read_u8(bytes, pos)?;
    let index = read_u32(bytes, pos)?;
    let desc = match kind {
        0x00 => ExportDesc::Func(index),
        0x01 => ExportDesc::Table(index),
        0x02 => ExportDesc::Memory(index),
        0x03 => ExportDesc::Global(index),
        _ => return Err(
            ParseError { offset: kind_offset, kind: ParseErrorKind::InvalidExternKind },
        ),
    };
    Ok(Export { name, desc })
}

/// Reads a run of locals.
fn read_local_decl(bytes: &[u8], pos: &mut usize) -> (res: Result<LocalDecl, ParseError>)
    ensures
        grammar::agrees(res, *final(pos), grammar::local_decl_at(bytes@, *old(pos) as int)),
{
    let count = read_u32(bytes, pos)?;
    let val_type = read_val_type(bytes, pos)?;
    Ok(LocalDecl { count, val_type })
}

/// Reads a vector of function signatures.
fn read_func_type_vec(bytes: &[u8], pos: &mut usize) -> (res: Result<
    Vec<FuncType>,
    ParseError,
>)
    ensures
        grammar::agrees(
            res,
            *final(pos),
            grammar::vec_at(bytes@, grammar::func_type_reader(bytes@), *old(pos) as int),
        ),
{
    let count = read_u32(bytes, pos)?;
    let ghost item = grammar::func_type_reader(bytes@);
    let ghost first = *pos as int;
    let mut types: Vec<FuncType> = Vec::with_capacity(initial_capacity(bytes, *pos, count));
    let mut i: u32 = 0;
    assert(types.deep_view() =~= seq![]);
    while i < count
        invariant
            i <= count,
            item == grammar::func_type_reader(bytes@),
            grammar::agrees(
                Ok::<Vec<FuncType>, ParseError>(types),
                *pos,
                grammar::items_at(item, first, i as nat),
            ),
            grammar::vec_at(bytes@, grammar::func_type_reader(bytes@), *old(pos) as int)
                == grammar::items_at(item, first, count as nat),
        decreases count - i,
    {
        let ghost before = types.deep_view();
        match read_func_type(bytes, pos) {
            Ok(entry) => {
                types.push(entry);
                assert(types.deep_view() =~= before.push(entry.deep_view()));
            },
            Err(error) => {
                proof {
                    grammar::lemma_items_failed(item, first, (i + 1) as nat, count as nat);
                }
                return Err(error);
            },
        }
        i = i + 1;
    }
    Ok(types)
}

/// Reads a vector of imports.
fn read_import_vec(bytes: &[u8], pos: &mut usize, type_count: usize) -> (res: Result<
    Vec<Import>,
    ParseError,
>)
    ensures
        grammar::agrees(
            res,
            *final(pos),
            grammar::vec_at(
                bytes@,
                grammar::import_reader(bytes@, type_count as nat),
                *old(pos) as int,
            ),
        ),
{
    let count = read_u32(bytes, pos)?;
    let ghost item = grammar::import_reader(bytes@, type_count as nat);
    let ghost first = *pos as int;
    let mut imports: Vec<Import> = Vec::with_capacity(initial_capacity(bytes, *pos, count));
    let mut i: u32 = 0;
    assert(imports.deep_view() =~= seq![]);
    while i < count
        invariant
            i <= count,
            item == grammar::import_reader(bytes@, type_count as nat),
            grammar::agrees(
                Ok::<Vec<Import>, ParseError>(imports),
                *pos,
                grammar::items_at(item, first, i as nat),
            ),
            grammar::vec_at(
                bytes@,
                grammar::import_reader(bytes@, type_count as nat),
                *old(pos) as int,
            ) == grammar::items_at(item, first, count as nat),
        decreases count - i,
    {
        let ghost before = imports.deep_view();
        match read_import(bytes, pos, type_count) {
            Ok(entry) => {
                imports.push(entry);
                assert(imports.deep_view() =~= before.push(entry.deep_view()));
            },
            Err(error) => {
                proof {
                    grammar::lemma_items_failed(item, first, (i + 1) as nat, count as nat);
                }
                return Err(error);
            },
        }
        i = i + 1;
    }
    Ok(imports)
}

/// Reads a vector of type indices.
fn read_type_index_vec(bytes: &[u8], pos: &mut usize, type_count: usize) -> (res: Result<
    Vec<u32>,
    ParseError,
>)
    ensures
        grammar::agrees(
            res,
            *final(pos),
            grammar::vec_at(
                bytes@,
                grammar::type_index_reader(bytes@, type_count as nat),
                *old(pos) as int,
            ),
        ),
{
    let count = read_u32(bytes, pos)?;
    let ghost item = grammar::type_index_reader(bytes@, type_count as nat);
    let ghost first = *pos as int;
    let mut type_indices: Vec<u32> = Vec::with_capacity(initial_capacity(bytes, *pos, count));
    let mut i: u32 = 0;
    assert(type_indices.deep_view() =~= seq![]);
    while i < count
        invariant
            i <= count,
            item == grammar::type_index_reader(bytes@, type_count as nat),
            grammar::agrees(
                Ok::<Vec<u32>, ParseError>(type_indices),
                *pos,
                grammar::items_at(item, first, i as nat),
            ),
            grammar::vec_at(
                bytes@,
                grammar::type_index_reader(bytes@, type_count as nat),
                *old(pos) as int,
            ) == grammar::items_at(item, first, count as nat),
        decreases count - i,
    {
        let ghost before = type_indices.deep_view();
        match read_type_index(bytes, pos, type_count) {
            Ok(entry) => {
                type_indices.push(entry);
                assert(type_indices.deep_view() =~= before.push(entry.deep_view()));
            },
            Err(error) => {
                proof {
                    grammar::lemma_items_failed(item, first, (i + 1) as nat, count as nat);
                }
                return Err(error);
            },
        }
        i = i + 1;
    }
    Ok(type_indices)
}

/// Reads a vector of exports.
fn read_export_vec(bytes: &[u8], pos: &mut usize) -> (res: Result<
    Vec<Export>,
    ParseError,
>)
    ensures
        grammar::agrees(
            res,
            *final(pos),
            grammar::vec_at(bytes@, grammar::export_reader(bytes@), *old(pos) as int),
        ),
{
    let count = read_u32(bytes, pos)?;
    let ghost item = grammar::export_reader(bytes@);
    let ghost first = *pos as int;
    let mut exports: Vec<Export> = Vec::with_capacity(initial_capacity(bytes, *pos, count));
    let mut i: u32 = 0;
    assert(exports.deep_view() =~= seq![]);
    while i < count
        invariant
            i <= count,
            item == grammar::export_reader(bytes@),
            grammar::agrees(
                Ok::<Vec<Export>, ParseError>(exports),
                *pos,
                grammar::items_at(item, first, i as nat),
            ),
            grammar::vec_at(bytes@, grammar::export_reader(bytes@), *old(pos) as int)
                == grammar::items_at(item, first, count as nat),
        decreases count - i,
    {
        let ghost before = exports.deep_view();
        match read_export(bytes, pos) {
            Ok(entry) => {
                exports.push(entry);
                assert(exports.deep_view() =~= before.push(entry.deep_view()));
            },
            Err(error) => {
                proof {
                    grammar::lemma_items_failed(item, first, (i + 1) as nat, count as nat);
                }
                return Err(error);
            },
        }
        i = i + 1;
    }
    Ok(exports)
}

/// Reads a vector of runs of locals.
fn read_local_decl_vec(bytes: &[u8], pos: &mut usize) -> (res: Result<
    Vec<LocalDecl>,
    ParseError,
>)
    ensures
        grammar::agrees(
            res,
            *final(pos),
            grammar::vec_at(bytes@, grammar::local_decl_reader(bytes@), *old(pos) as int),
        ),
{
    let count = read_u32(bytes, pos)?;
    let ghost item = grammar::local_decl_reader(bytes@);
    let ghost first = *pos as int;
    let mut locals: Vec<LocalDecl> = Vec::with_capacity(initial_capacity(bytes, *pos, count));
    let mut i: u32 = 0;
    assert(locals.deep_view() =~= seq![]);
    while i < count
        invariant
            i <= count,
            item == grammar::local_decl_reader(bytes@),
            grammar::agrees(
                Ok::<Vec<LocalDecl>, ParseError>(locals),
                *pos,
                grammar::items_at(item, first, i as nat),
            ),
            grammar::vec_at(bytes@, grammar::local_decl_reader(bytes@), *old(pos) as int)
                == grammar::items_at(item, first, count as nat),
        decreases count - i,
    {
        let ghost before = locals.deep_view();
        match read_local_decl(bytes, pos) {
            Ok(entry) => {
                locals.push(entry);
                assert(locals.deep_view() =~= before.push(entry.deep_view()));
            },
            Err(error) => {
                proof {
                    grammar::lemma_items_failed(item, first, (i + 1) as nat, count as nat);
                }
                return Err(error);
            },
        }
        i = i + 1;
    }
    Ok(locals)
}

/// Reads a function's locals and instructions.
fn read_code(bytes: &[u8], pos: &mut usize) -> (res: Result<Code, ParseError>)
    ensures
        grammar::agrees(res, *final(pos), grammar::code_at(bytes@, *old(pos) as int)),
{
    let size = read_u32(bytes, pos)?;
    let end: usize = end_of_span(bytes, *pos, size)?;
    let locals = read_local_decl_vec(bytes, pos)?;
    if *pos > end {
        return Err(ParseError { offset: *pos, kind: ParseErrorKind::SectionSizeMismatch });
    }
    let body: Vec<u8> = slice_to_vec(slice_subrange(bytes, *pos, end));
    assert(body.deep_view() =~= body@);
    *pos = end;
    Ok(Code { locals, body })
}

/// Reads a vector of `func_count` function bodies.
fn read_code_vec(bytes: &[u8], pos: &mut usize, func_count: usize) -> (res: Result<
    Vec<Code>,
    ParseError,
>)
    ensures
        grammar::agrees(
            res,
            *final(pos),
            grammar::codes_at(bytes@, *old(pos) as int, func_count as nat),
        ),
{
    let count_offset: usize = *pos;
    let count = read_u32(bytes, pos)?;
    if count as usize != func_count {
        return Err(
            ParseError { offset: count_offset, kind: ParseErrorKind::FunctionCodeMismatch },
        );
    }
    let ghost item = grammar::code_reader(bytes@);
    let ghost first = *pos as int;
    let mut codes: Vec<Code> = Vec::with_capacity(initial_capacity(bytes, *pos, count));
    let mut i: u32 = 0;
    assert(codes.deep_view() =~= seq![]);
    while i < count
        invariant
            i <= count,
            item == grammar::code_reader(bytes@),
            grammar::agrees(
                Ok::<Vec<Code>, ParseError>(codes),
                *pos,
                grammar::items_at(item, first, i as nat),
            ),
            grammar::codes_at(bytes@, *old(pos) as int, func_count as nat)
                == grammar::items_at(item, first, count as nat),
        decreases count - i,
    {
        let ghost before = codes.deep_view();
        match read_code(bytes, pos) {
            Ok(entry) => {
                codes.push(entry);
                assert(codes.deep_view() =~= before.push(entry.deep_view()));
            },
            Err(error) => {
                proof {
                    grammar::lemma_items_failed(item, first, (i + 1) as nat, count as nat);
                }
                return Err(error);
            },
        }
        i = i + 1;
    }
    Ok(codes)
}

/// Reads the header of the section with this id, and returns where the section
/// ends.
fn open_section(bytes: &[u8], pos: &mut usize, id: u8) -> (res: Result<usize, ParseError>)
    ensures
        match (res, grammar::section_start_at(bytes@, *old(pos) as int, id)) {
            (Ok(section_end), grammar::Outcome::Read { value, end }) => section_end == value
                && *final(pos) == end,
            (Err(error), grammar::Outcome::Failed { kind, offset, stop }) => error.kind == kind
                && error.offset == offset && *final(pos) == stop,
            _ => false,
        },
{
    let header_offset: usize = *pos;
    let (found, size) = read_section_header(bytes, pos)?;
    if found != id {
        return Err(ParseError { offset: header_offset, kind: ParseErrorKind::UnknownSectionId });
    }
    end_of_span(bytes, *pos, size)
}

/// Checks that a section whose contents end at `pos` was declared to end there.
fn close_section(pos: usize, section_end: usize) -> (res: Result<(), ParseError>)
    ensures
        match res {
            Ok(()) => pos == section_end,
            Err(error) => pos != section_end && error.kind == ParseErrorKind::SectionSizeMismatch
                && error.offset == pos,
        },
{
    if pos != section_end {
        return Err(ParseError { offset: pos, kind: ParseErrorKind::SectionSizeMismatch });
    }
    Ok(())
}

/// Reads the type section, and leaves `pos` wherever it got to.
fn read_types(bytes: &[u8], pos: &mut usize) -> (res: Result<Vec<FuncType>, ParseError>)
    ensures
        grammar::agrees(res, *final(pos), grammar::type_section_at(bytes@, *old(pos) as int)),
{
    let section_end = open_section(bytes, pos, SECTION_ID_TYPE)?;
    let types = read_func_type_vec(bytes, pos)?;
    close_section(*pos, section_end)?;
    Ok(types)
}

/// Reads the type section: an id, a size, and a vector of func types.
///
/// `pos` must point at the section id. On success it is left just past the
/// section's declared size; on failure it is left at the byte that broke
/// parsing, which is the one that the error names.
pub fn read_type_section(bytes: &[u8], pos: &mut usize) -> (res: Result<Vec<FuncType>, ParseError>)
    ensures
        grammar::agrees(
            res,
            *final(pos),
            grammar::type_section_at(bytes@, *old(pos) as int).stopping_at_offset(),
        ),
        res matches Err(error) ==> *final(pos) == error.offset,
{
    let res = read_types(bytes, pos);
    if let Err(error) = &res {
        *pos = error.offset;
    }
    res
}

/// Reads the import section. `type_count` is the number of entries in the
/// type section, so a func import's type index can be range-checked as it is
/// read rather than left to fail later at call time.
pub fn read_import_section(bytes: &[u8], pos: &mut usize, type_count: usize) -> (res: Result<
    Vec<Import>,
    ParseError,
>)
    ensures
        grammar::agrees(
            res,
            *final(pos),
            grammar::import_section_at(bytes@, *old(pos) as int, type_count as nat),
        ),
{
    let section_end = open_section(bytes, pos, SECTION_ID_IMPORT)?;
    let imports = read_import_vec(bytes, pos, type_count)?;
    close_section(*pos, section_end)?;
    Ok(imports)
}

/// Reads the function section: one type index per locally defined function,
/// in the order those functions will occupy the index space after the
/// functions brought in by imports.
pub fn read_function_section(bytes: &[u8], pos: &mut usize, type_count: usize) -> (res: Result<
    Vec<u32>,
    ParseError,
>)
    ensures
        grammar::agrees(
            res,
            *final(pos),
            grammar::function_section_at(bytes@, *old(pos) as int, type_count as nat),
        ),
{
    let section_end = open_section(bytes, pos, SECTION_ID_FUNCTION)?;
    let type_indices = read_type_index_vec(bytes, pos, type_count)?;
    close_section(*pos, section_end)?;
    Ok(type_indices)
}

/// Reads the export section. Export indices are not range-checked here -
/// they name entries in the func/table/memory/global index spaces, which are
/// only fully known once imports and locally defined items are both
/// assembled, so that check happens where the whole module comes together, in
/// [`crate::parse`].
pub fn read_export_section(bytes: &[u8], pos: &mut usize) -> (res: Result<Vec<Export>, ParseError>)
    ensures
        grammar::agrees(res, *final(pos), grammar::export_section_at(bytes@, *old(pos) as int)),
{
    let section_end = open_section(bytes, pos, SECTION_ID_EXPORT)?;
    let exports = read_export_vec(bytes, pos)?;
    close_section(*pos, section_end)?;
    Ok(exports)
}

/// Reads the start section: a single function index, with no count prefix
/// since the section can name at most one function.
pub fn read_start_section(bytes: &[u8], pos: &mut usize) -> (res: Result<u32, ParseError>)
    ensures
        grammar::agrees(res, *final(pos), grammar::start_section_at(bytes@, *old(pos) as int)),
{
    let section_end = open_section(bytes, pos, SECTION_ID_START)?;
    let index = read_u32(bytes, pos)?;
    close_section(*pos, section_end)?;
    Ok(index)
}

/// Reads the code section: the locals and the instructions of each of the
/// `func_count` functions that the function section declares, in its order.
pub fn read_code_section(bytes: &[u8], pos: &mut usize, func_count: usize) -> (res: Result<
    Vec<Code>,
    ParseError,
>)
    ensures
        grammar::agrees(
            res,
            *final(pos),
            grammar::code_section_at(bytes@, *old(pos) as int, func_count as nat),
        ),
{
    let section_end = open_section(bytes, pos, SECTION_ID_CODE)?;
    let codes = read_code_vec(bytes, pos, func_count)?;
    close_section(*pos, section_end)?;
    Ok(codes)
}

/// Reads a custom section for its name, and skips what follows the name.
pub fn read_custom_section(bytes: &[u8], pos: &mut usize) -> (res: Result<String, ParseError>)
    ensures
        grammar::agrees(res, *final(pos), grammar::custom_section_at(bytes@, *old(pos) as int)),
{
    let section_end = open_section(bytes, pos, SECTION_ID_CUSTOM)?;
    let name = read_name(bytes, pos)?;
    if *pos > section_end {
        return Err(ParseError { offset: *pos, kind: ParseErrorKind::SectionSizeMismatch });
    }
    *pos = section_end;
    Ok(name)
}

/// Skips a section by its declared size, whatever it holds, and returns its id.
pub fn skip_section(bytes: &[u8], pos: &mut usize) -> (res: Result<u8, ParseError>)
    ensures
        grammar::agrees(res, *final(pos), grammar::any_section_at(bytes@, *old(pos) as int)),
{
    let (id, size) = read_section_header(bytes, pos)?;
    let end: usize = end_of_span(bytes, *pos, size)?;
    *pos = end;
    Ok(id)
}

} // verus!
