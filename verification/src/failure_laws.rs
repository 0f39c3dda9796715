//! What is read of each item, and what an error says of the input.
//!
//! For each item of the format: which errors reading it can end in, and on exactly
//! which inputs, with the offset that the error names and the position at which
//! the read stops. Where an item is made of others, it fails as the first of them
//! that does, and where none does it is made of what they are, whether or not its
//! numbers are written as short as can be.

use crate::encoding;
use crate::error::ParseErrorKind;
use crate::grammar;
use crate::grammar::Outcome;
use crate::round_trip;
use crate::types::{
    CodeView, ExportDesc, FuncTypeView, ImportDesc, ImportView, Limits, LocalDecl, ValType,
};
use vstd::prelude::*;

verus! {

/// The read ends in this error, and stops there.
pub open spec fn fails<T>(
    outcome: Outcome<T>,
    kind: ParseErrorKind,
    offset: int,
    stop: int,
) -> bool {
    outcome == (Outcome::<T>::Failed { kind, offset, stop })
}

/// One read fails just as the other does.
pub open spec fn fails_like<T, U>(outcome: Outcome<T>, other: Outcome<U>) -> bool {
    other matches Outcome::Failed { kind, offset, stop } && fails(outcome, kind, offset, stop)
}

/// The number `n` stands from `pos` up to `end`, in any form.
pub open spec fn number_stands(bytes: Seq<u8>, pos: int, n: int, end: int) -> bool {
    round_trip::number_ends(bytes, pos, end) && n == round_trip::digits_value(bytes, pos, end) && n
        <= u32::MAX
}

/// No number of 32 bits stands at `pos`.
pub open spec fn no_number(bytes: Seq<u8>, pos: int) -> bool {
    forall|n: int, end: int| !#[trigger] number_stands(bytes, pos, n, end)
}

/// A number is read exactly where one stands; where none does, the read fails there.
pub proof fn law_number_faults(bytes: Seq<u8>, pos: int)
    requires
        0 <= pos,
    ensures
        fails(grammar::u32_at(bytes, pos), ParseErrorKind::Leb, pos, pos) <==> no_number(
            bytes,
            pos,
        ),
        forall|n: u32, end: int|
            grammar::u32_at(bytes, pos) == (Outcome::Read { value: n, end }) <==> #[trigger]
            number_stands(bytes, pos, n as int, end),
        grammar::u32_at(bytes, pos) is Failed <==> no_number(bytes, pos),
{
    assert forall|n: u32, end: int|
        grammar::u32_at(bytes, pos) == (Outcome::Read { value: n, end }) <==> #[trigger]
        number_stands(bytes, pos, n as int, end) by {
        round_trip::law_numbers_are_their_digits(bytes, pos, end, n);
    }
    if let Outcome::Read { value, end } = grammar::u32_at(bytes, pos) {
        assert(number_stands(bytes, pos, value as int, end));
    } else {
        assert forall|n: int, end: int| !#[trigger] number_stands(bytes, pos, n, end) by {
            round_trip::law_numbers_are_their_digits(bytes, pos, end, n as u32);
        }
    }
}

/// A byte is refused only where the input has ended.
pub proof fn law_byte_faults(bytes: Seq<u8>, pos: int)
    requires
        0 <= pos,
    ensures
        fails(
            grammar::byte_at(bytes, pos),
            ParseErrorKind::UnexpectedEof,
            bytes.len() as int,
            pos,
        ) <==> pos >= bytes.len(),
        grammar::byte_at(bytes, pos) is Failed <==> pos >= bytes.len(),
{
}

/// The byte is not that of a value type.
pub open spec fn is_no_val_type(byte: u8) -> bool {
    forall|val_type: ValType| byte != #[trigger] encoding::val_type_byte(val_type)
}

/// A value type is refused where the input has ended, and where another byte stands.
pub proof fn law_val_type_faults(bytes: Seq<u8>, pos: int)
    requires
        0 <= pos,
    ensures
        fails(
            grammar::val_type_at(bytes, pos),
            ParseErrorKind::UnexpectedEof,
            bytes.len() as int,
            pos,
        ) <==> pos >= bytes.len(),
        fails(grammar::val_type_at(bytes, pos), ParseErrorKind::InvalidValType, pos, pos + 1)
            <==> pos < bytes.len() && is_no_val_type(bytes[pos]),
        grammar::val_type_at(bytes, pos) is Failed <==> pos >= bytes.len() || is_no_val_type(
            bytes[pos],
        ),
{
    if pos < bytes.len() {
        assert forall|val_type: ValType| grammar::val_type_of(bytes[pos]) == Some(val_type)
            <==> bytes[pos] == #[trigger] encoding::val_type_byte(val_type) by {
            round_trip::law_val_types_read_back(bytes[pos], val_type);
        }
        if let Some(val_type) = grammar::val_type_of(bytes[pos]) {
            assert(bytes[pos] == encoding::val_type_byte(val_type));
        }
    }
}

/// Where `n` stands, it is what is read.
proof fn lemma_number_stands(bytes: Seq<u8>, pos: int, n: int, end: int)
    requires
        0 <= pos,
        number_stands(bytes, pos, n, end),
    ensures
        grammar::u32_at(bytes, pos) == (Outcome::Read { value: n as u32, end }),
        0 <= n <= u32::MAX,
        pos < end <= bytes.len(),
{
    law_number_faults(bytes, pos);
    assert(number_stands(bytes, pos, (n as u32) as int, end));
}

/// A string is refused where its size does not stand, where the input ends before
/// it does, and where its bytes are not the UTF-8 of any text; nowhere else.
pub proof fn law_name_faults(bytes: Seq<u8>, pos: int, n: int, start: int)
    requires
        0 <= pos,
    ensures
        no_number(bytes, pos) ==> fails(
            grammar::name_at(bytes, pos),
            ParseErrorKind::Leb,
            pos,
            pos,
        ),
        number_stands(bytes, pos, n, start) ==> if start + n > bytes.len() {
            fails(
                grammar::name_at(bytes, pos),
                ParseErrorKind::UnexpectedEof,
                bytes.len() as int,
                start,
            )
        } else if exists|text: Seq<char>|
            #[trigger] vstd::utf8::encode_utf8(text) == bytes.subrange(start, start + n) {
            grammar::name_at(bytes, pos) matches Outcome::Read { value, end } && end == start + n
                && vstd::utf8::encode_utf8(value) == bytes.subrange(start, start + n)
        } else {
            fails(grammar::name_at(bytes, pos), ParseErrorKind::InvalidUtf8, start, start)
        },
{
    law_number_faults(bytes, pos);
    if number_stands(bytes, pos, n, start) {
        lemma_number_stands(bytes, pos, n, start);
        let found = bytes.subrange(start, start + n);
        if start + n <= bytes.len() {
            if vstd::utf8::valid_utf8(found) {
                vstd::utf8::decode_utf8_encode_utf8(found);
                assert(vstd::utf8::encode_utf8(vstd::utf8::decode_utf8(found)) == found);
            } else {
                assert forall|text: Seq<char>| #[trigger]
                    vstd::utf8::encode_utf8(text) != found by {
                    vstd::utf8::encode_utf8_valid_utf8(text);
                }
            }
        }
    }
}

/// A type index is refused where no number stands, and where it is not below the
/// number of types; nowhere else.
pub proof fn law_type_index_faults(bytes: Seq<u8>, pos: int, type_count: nat, n: int, end: int)
    requires
        0 <= pos,
    ensures
        no_number(bytes, pos) ==> fails(
            grammar::type_index_at(bytes, pos, type_count),
            ParseErrorKind::Leb,
            pos,
            pos,
        ),
        number_stands(bytes, pos, n, end) ==> if n >= type_count {
            fails(
                grammar::type_index_at(bytes, pos, type_count),
                ParseErrorKind::TypeIndexOutOfRange,
                pos,
                end,
            )
        } else {
            grammar::type_index_at(bytes, pos, type_count) == (Outcome::Read {
                value: n as u32,
                end,
            })
        },
{
    law_number_faults(bytes, pos);
    if number_stands(bytes, pos, n, end) {
        lemma_number_stands(bytes, pos, n, end);
    }
}

/// Limits are refused where the input has ended or a number does not stand where
/// the minimum or the maximum should, then for a flag other than 0 and 1, and for a
/// maximum below the minimum; nowhere else.
pub proof fn law_limits_faults(
    bytes: Seq<u8>,
    pos: int,
    min: int,
    mid: int,
    max: int,
    end: int,
)
    requires
        0 <= pos,
    ensures
        pos >= bytes.len() ==> fails(
            grammar::limits_at(bytes, pos),
            ParseErrorKind::UnexpectedEof,
            bytes.len() as int,
            pos,
        ),
        pos < bytes.len() && no_number(bytes, pos + 1) ==> fails(
            grammar::limits_at(bytes, pos),
            ParseErrorKind::Leb,
            pos + 1,
            pos + 1,
        ),
        number_stands(bytes, pos + 1, min, mid) ==> {
            &&& bytes[pos] > 1 ==> fails(
                grammar::limits_at(bytes, pos),
                ParseErrorKind::InvalidLimits,
                pos,
                mid,
            )
            &&& bytes[pos] == 0 ==> grammar::limits_at(bytes, pos) == (Outcome::Read {
                value: Limits { min: min as u32, max: None },
                end: mid,
            })
            &&& bytes[pos] == 1 && no_number(bytes, mid) ==> fails(
                grammar::limits_at(bytes, pos),
                ParseErrorKind::Leb,
                mid,
                mid,
            )
            &&& bytes[pos] == 1 && number_stands(bytes, mid, max, end) ==> if max < min {
                fails(grammar::limits_at(bytes, pos), ParseErrorKind::InvalidLimits, mid, end)
            } else {
                grammar::limits_at(bytes, pos) == (Outcome::Read {
                    value: Limits { min: min as u32, max: Some(max as u32) },
                    end,
                })
            }
        },
{
    law_number_faults(bytes, pos + 1);
    if number_stands(bytes, pos + 1, min, mid) {
        lemma_number_stands(bytes, pos + 1, min, mid);
        law_number_faults(bytes, mid);
        if number_stands(bytes, mid, max, end) {
            lemma_number_stands(bytes, mid, max, end);
        }
    }
}

/// Items fail as the first one that does: where so many are read and the next one
/// fails, any larger number of them fails like that one.
pub proof fn law_items_fail_as_the_first_that_does<T>(
    item: spec_fn(int) -> Outcome<T>,
    pos: int,
    good: nat,
    count: nat,
)
    requires
        good < count,
        grammar::items_at(item, pos, good) matches Outcome::Read { end, .. } && item(end) is Failed,
    ensures
        fails_like(
            grammar::items_at(item, pos, count),
            item(grammar::items_at(item, pos, good)->end),
        ),
{
    grammar::lemma_items_failed(item, pos, good + 1, count);
}

/// Items that are read are as many as asked for, and each is what is read where the
/// ones before it end; the first of them starts at `pos`.
pub proof fn law_items_are_read_in_order<T>(
    item: spec_fn(int) -> Outcome<T>,
    pos: int,
    count: nat,
    i: nat,
)
    requires
        grammar::items_at(item, pos, count) is Read,
        i < count,
    ensures
        grammar::items_at(item, pos, count)->value.len() == count,
        grammar::items_at(item, pos, i) is Read,
        i == 0 ==> grammar::items_at(item, pos, i)->end == pos,
        item(grammar::items_at(item, pos, i)->end) == (Outcome::Read {
            value: grammar::items_at(item, pos, count)->value[i as int],
            end: grammar::items_at(item, pos, i + 1)->end,
        }),
    decreases count,
{
    let fewer = (count - 1) as nat;
    if i < fewer {
        law_items_are_read_in_order(item, pos, fewer, i);
    } else if fewer > 0 {
        law_items_are_read_in_order(item, pos, fewer, 0);
    }
}

/// A vector fails where its count does not stand, and otherwise as its items do.
pub proof fn law_vector_faults<T>(
    bytes: Seq<u8>,
    item: spec_fn(int) -> Outcome<T>,
    pos: int,
    count: int,
    first: int,
)
    requires
        0 <= pos,
    ensures
        no_number(bytes, pos) ==> fails(
            grammar::vec_at(bytes, item, pos),
            ParseErrorKind::Leb,
            pos,
            pos,
        ),
        number_stands(bytes, pos, count, first) ==> grammar::vec_at(bytes, item, pos)
            == grammar::items_at(item, first, count as nat),
{
    law_number_faults(bytes, pos);
    if number_stands(bytes, pos, count, first) {
        lemma_number_stands(bytes, pos, count, first);
    }
}

/// A signature is refused where the input has ended and for a tag other than 0x60,
/// and otherwise fails as its parameters do, or its results right after them.
pub proof fn law_func_type_faults(bytes: Seq<u8>, pos: int)
    requires
        0 <= pos,
    ensures
        pos >= bytes.len() ==> fails(
            grammar::func_type_at(bytes, pos),
            ParseErrorKind::UnexpectedEof,
            bytes.len() as int,
            pos,
        ),
        pos < bytes.len() && bytes[pos] != 0x60 ==> fails(
            grammar::func_type_at(bytes, pos),
            ParseErrorKind::InvalidFuncType,
            pos,
            pos + 1,
        ),
        pos < bytes.len() && bytes[pos] == 0x60 ==> match grammar::val_types_at(bytes, pos + 1) {
            Outcome::Read { value: params, end: mid } => match grammar::val_types_at(bytes, mid) {
                Outcome::Read { value: results, end } => grammar::func_type_at(bytes, pos) == (
                Outcome::Read { value: FuncTypeView { params, results }, end }),
                failed => fails_like(grammar::func_type_at(bytes, pos), failed),
            },
            failed => fails_like(grammar::func_type_at(bytes, pos), failed),
        },
{
}

/// What an import binds is refused where the input has ended and for a kind past 3,
/// and otherwise for what that kind calls for: a type index, an element type other
/// than function references, limits, a value type, a flag other than 0 and 1.
pub proof fn law_import_desc_faults(bytes: Seq<u8>, pos: int, type_count: nat)
    requires
        0 <= pos,
    ensures
        ({
            let desc = grammar::import_desc_at(bytes, pos, type_count);
            let len = bytes.len() as int;
            let kind = bytes[pos];
            &&& pos >= len ==> fails(desc, ParseErrorKind::UnexpectedEof, len, pos)
            &&& pos < len && kind > 3 ==> fails(
                desc,
                ParseErrorKind::InvalidExternKind,
                pos,
                pos + 1,
            )
            &&& pos < len && kind == 0 ==> match grammar::type_index_at(
                bytes,
                pos + 1,
                type_count,
            ) {
                Outcome::Read { value, end } => desc == (Outcome::Read {
                    value: ImportDesc::Func(value),
                    end,
                }),
                failed => fails_like(desc, failed),
            }
            &&& pos < len && kind == 1 && pos + 1 >= len ==> fails(
                desc,
                ParseErrorKind::UnexpectedEof,
                len,
                pos + 1,
            )
            &&& pos + 1 < len && kind == 1 && bytes[pos + 1] != 0x70 ==> fails(
                desc,
                ParseErrorKind::InvalidExternKind,
                pos + 1,
                pos + 2,
            )
            &&& pos + 1 < len && kind == 1 && bytes[pos + 1] == 0x70 ==> match grammar::limits_at(
                bytes,
                pos + 2,
            ) {
                Outcome::Read { value: limits, end } => desc == (Outcome::Read {
                    value: ImportDesc::Table { element_type: 0x70, limits },
                    end,
                }),
                failed => fails_like(desc, failed),
            }
            &&& pos < len && kind == 2 ==> match grammar::limits_at(bytes, pos + 1) {
                Outcome::Read { value, end } => desc == (Outcome::Read {
                    value: ImportDesc::Memory(value),
                    end,
                }),
                failed => fails_like(desc, failed),
            }
            &&& pos < len && kind == 3 && grammar::val_type_at(bytes, pos + 1) is Failed
                ==> fails_like(desc, grammar::val_type_at(bytes, pos + 1))
            &&& pos < len && kind == 3 && grammar::val_type_at(bytes, pos + 1) is Read
                ==> if pos + 2 >= len {
                fails(desc, ParseErrorKind::UnexpectedEof, len, pos + 2)
            } else if bytes[pos + 2] > 1 {
                fails(desc, ParseErrorKind::InvalidExternKind, pos + 2, pos + 3)
            } else {
                desc == (Outcome::Read {
                    value: ImportDesc::Global {
                        val_type: grammar::val_type_at(bytes, pos + 1)->value,
                        mutable: bytes[pos + 2] == 1,
                    },
                    end: pos + 3,
                })
            }
        }),
{
}

/// An import fails as its module name does, or its name right after that, or what
/// it binds right after that.
pub proof fn law_import_faults(bytes: Seq<u8>, pos: int, type_count: nat)
    ensures
        ({
            let import = grammar::import_at(bytes, pos, type_count);
            match grammar::name_at(bytes, pos) {
                Outcome::Read { value: module, end: first } => match grammar::name_at(
                    bytes,
                    first,
                ) {
                    Outcome::Read { value: name, end: second } => match grammar::import_desc_at(
                        bytes,
                        second,
                        type_count,
                    ) {
                        Outcome::Read { value: desc, end } => import == (Outcome::Read {
                            value: ImportView { module, name, desc },
                            end,
                        }),
                        failed => fails_like(import, failed),
                    },
                    failed => fails_like(import, failed),
                },
                failed => fails_like(import, failed),
            }
        }),
{
}

/// An export fails as its name does; then where the input has ended or no index
/// stands after its kind; and then for a kind past 3.
pub proof fn law_export_faults(bytes: Seq<u8>, pos: int, mid: int, n: int, end: int)
    requires
        0 <= mid,
        grammar::name_at(bytes, pos) matches Outcome::Read { end: name_end, .. } ==> mid
            == name_end,
    ensures
        ({
            let export = grammar::export_at(bytes, pos);
            let len = bytes.len() as int;
            &&& grammar::name_at(bytes, pos) is Failed ==> fails_like(
                export,
                grammar::name_at(bytes, pos),
            )
            &&& grammar::name_at(bytes, pos) is Read ==> {
                &&& mid >= len ==> fails(export, ParseErrorKind::UnexpectedEof, len, mid)
                &&& mid < len && no_number(bytes, mid + 1) ==> fails(
                    export,
                    ParseErrorKind::Leb,
                    mid + 1,
                    mid + 1,
                )
                &&& mid < len && number_stands(bytes, mid + 1, n, end) ==> if bytes[mid] > 3 {
                    fails(export, ParseErrorKind::InvalidExternKind, mid, end)
                } else {
                    export matches Outcome::Read { value, end: export_end } && export_end == end
                        && value.name == grammar::name_at(bytes, pos)->value && match value.desc {
                        ExportDesc::Func(index) => bytes[mid] == 0 && index == n,
                        ExportDesc::Table(index) => bytes[mid] == 1 && index == n,
                        ExportDesc::Memory(index) => bytes[mid] == 2 && index == n,
                        ExportDesc::Global(index) => bytes[mid] == 3 && index == n,
                    }
                }
            }
        }),
{
    law_number_faults(bytes, mid + 1);
    if number_stands(bytes, mid + 1, n, end) {
        lemma_number_stands(bytes, mid + 1, n, end);
    }
}

/// A run of locals is refused where no number stands, and otherwise fails as its
/// value type does.
pub proof fn law_local_decl_faults(bytes: Seq<u8>, pos: int, n: int, mid: int)
    requires
        0 <= pos,
    ensures
        no_number(bytes, pos) ==> fails(
            grammar::local_decl_at(bytes, pos),
            ParseErrorKind::Leb,
            pos,
            pos,
        ),
        number_stands(bytes, pos, n, mid) ==> match grammar::val_type_at(bytes, mid) {
            Outcome::Read { value: val_type, end } => grammar::local_decl_at(bytes, pos) == (
            Outcome::Read { value: LocalDecl { count: n as u32, val_type }, end }),
            failed => fails_like(grammar::local_decl_at(bytes, pos), failed),
        },
{
    law_number_faults(bytes, pos);
    if number_stands(bytes, pos, n, mid) {
        lemma_number_stands(bytes, pos, n, mid);
    }
}

/// A function's code is refused where its size does not stand and where the input
/// ends before it does; otherwise it fails as its locals do, or because these take
/// more than its size.
pub proof fn law_code_faults(bytes: Seq<u8>, pos: int, size: int, start: int)
    requires
        0 <= pos,
    ensures
        no_number(bytes, pos) ==> fails(
            grammar::code_at(bytes, pos),
            ParseErrorKind::Leb,
            pos,
            pos,
        ),
        number_stands(bytes, pos, size, start) ==> if start + size > bytes.len() {
            fails(
                grammar::code_at(bytes, pos),
                ParseErrorKind::UnexpectedEof,
                bytes.len() as int,
                start,
            )
        } else {
            match grammar::vec_at(bytes, grammar::local_decl_reader(bytes), start) {
                Outcome::Read { value: locals, end } => if end > start + size {
                    fails(
                        grammar::code_at(bytes, pos),
                        ParseErrorKind::SectionSizeMismatch,
                        end,
                        end,
                    )
                } else {
                    grammar::code_at(bytes, pos) == (Outcome::Read {
                        value: CodeView { locals, body: bytes.subrange(end, start + size) },
                        end: start + size,
                    })
                },
                failed => fails_like(grammar::code_at(bytes, pos), failed),
            }
        },
{
    law_number_faults(bytes, pos);
    if number_stands(bytes, pos, size, start) {
        lemma_number_stands(bytes, pos, size, start);
    }
}

/// Why a section with this id is refused for what stands before its contents: the
/// input has ended, its size does not stand, it has another id, or it does not fit
/// in the input. Otherwise `size` bytes of contents start at `start`.
pub open spec fn header_faults<T>(
    outcome: Outcome<T>,
    bytes: Seq<u8>,
    pos: int,
    id: u8,
    size: int,
    start: int,
) -> bool {
    let len = bytes.len() as int;
    &&& pos >= len ==> fails(outcome, ParseErrorKind::UnexpectedEof, len, pos)
    &&& pos < len && no_number(bytes, pos + 1) ==> fails(
        outcome,
        ParseErrorKind::Leb,
        pos + 1,
        pos + 1,
    )
    &&& number_stands(bytes, pos + 1, size, start) && bytes[pos] != id ==> fails(
        outcome,
        ParseErrorKind::UnknownSectionId,
        pos,
        start,
    )
    &&& number_stands(bytes, pos + 1, size, start) && bytes[pos] == id && start + size > len
        ==> fails(outcome, ParseErrorKind::UnexpectedEof, len, start)
}

/// Why a section is refused for its contents: they fail, or they end elsewhere than
/// the section does.
pub open spec fn contents_faults<T>(
    outcome: Outcome<T>,
    bytes: Seq<u8>,
    pos: int,
    id: u8,
    size: int,
    start: int,
    contents: Outcome<T>,
) -> bool {
    number_stands(bytes, pos + 1, size, start) && bytes[pos] == id && start + size <= bytes.len()
        ==> match contents {
        Outcome::Read { end, .. } => if end != start + size {
            fails(outcome, ParseErrorKind::SectionSizeMismatch, end, end)
        } else {
            outcome == contents
        },
        failed => fails_like(outcome, failed),
    }
}

/// What stands before a section's contents decides whether they are read.
proof fn lemma_section_start(bytes: Seq<u8>, pos: int, id: u8, size: int, start: int)
    requires
        0 <= pos,
    ensures
        header_faults(grammar::section_start_at(bytes, pos, id), bytes, pos, id, size, start),
        number_stands(bytes, pos + 1, size, start) && bytes[pos] == id && start + size
            <= bytes.len() ==> grammar::section_start_at(bytes, pos, id) == (Outcome::Read {
            value: start + size,
            end: start,
        }),
{
    law_number_faults(bytes, pos + 1);
    if number_stands(bytes, pos + 1, size, start) {
        lemma_number_stands(bytes, pos + 1, size, start);
    }
}

/// Each section is refused for what stands before its contents, or else as its
/// contents are, or because they do not fill it.
pub proof fn law_section_faults(
    bytes: Seq<u8>,
    pos: int,
    type_count: nat,
    size: int,
    start: int,
)
    requires
        0 <= pos,
    ensures
        header_faults(grammar::type_section_at(bytes, pos), bytes, pos, 1, size, start),
        contents_faults(
            grammar::type_section_at(bytes, pos),
            bytes,
            pos,
            1,
            size,
            start,
            grammar::vec_at(bytes, grammar::func_type_reader(bytes), start),
        ),
        header_faults(
            grammar::import_section_at(bytes, pos, type_count),
            bytes,
            pos,
            2,
            size,
            start,
        ),
        contents_faults(
            grammar::import_section_at(bytes, pos, type_count),
            bytes,
            pos,
            2,
            size,
            start,
            grammar::vec_at(bytes, grammar::import_reader(bytes, type_count), start),
        ),
        header_faults(
            grammar::function_section_at(bytes, pos, type_count),
            bytes,
            pos,
            3,
            size,
            start,
        ),
        contents_faults(
            grammar::function_section_at(bytes, pos, type_count),
            bytes,
            pos,
            3,
            size,
            start,
            grammar::vec_at(bytes, grammar::type_index_reader(bytes, type_count), start),
        ),
        header_faults(grammar::export_section_at(bytes, pos), bytes, pos, 7, size, start),
        contents_faults(
            grammar::export_section_at(bytes, pos),
            bytes,
            pos,
            7,
            size,
            start,
            grammar::vec_at(bytes, grammar::export_reader(bytes), start),
        ),
        header_faults(grammar::start_section_at(bytes, pos), bytes, pos, 8, size, start),
        contents_faults(
            grammar::start_section_at(bytes, pos),
            bytes,
            pos,
            8,
            size,
            start,
            grammar::u32_at(bytes, start),
        ),
{
    lemma_section_start(bytes, pos, 1, size, start);
    lemma_section_start(bytes, pos, 2, size, start);
    lemma_section_start(bytes, pos, 3, size, start);
    lemma_section_start(bytes, pos, 7, size, start);
    lemma_section_start(bytes, pos, 8, size, start);
}

/// The code section is refused as other sections are, and for a number of functions
/// that is not the one declared, before any of them is read.
pub proof fn law_code_section_faults(
    bytes: Seq<u8>,
    pos: int,
    func_count: nat,
    size: int,
    start: int,
    count: int,
    first: int,
)
    requires
        0 <= pos,
    ensures
        header_faults(
            grammar::code_section_at(bytes, pos, func_count),
            bytes,
            pos,
            10,
            size,
            start,
        ),
        contents_faults(
            grammar::code_section_at(bytes, pos, func_count),
            bytes,
            pos,
            10,
            size,
            start,
            grammar::codes_at(bytes, start, func_count),
        ),
        0 <= start && no_number(bytes, start) ==> fails(
            grammar::codes_at(bytes, start, func_count),
            ParseErrorKind::Leb,
            start,
            start,
        ),
        0 <= start && number_stands(bytes, start, count, first) ==> if count != func_count {
            fails(
                grammar::codes_at(bytes, start, func_count),
                ParseErrorKind::FunctionCodeMismatch,
                start,
                first,
            )
        } else {
            grammar::codes_at(bytes, start, func_count) == grammar::items_at(
                grammar::code_reader(bytes),
                first,
                func_count,
            )
        },
{
    lemma_section_start(bytes, pos, 10, size, start);
    if 0 <= start {
        law_number_faults(bytes, start);
        if number_stands(bytes, start, count, first) {
            lemma_number_stands(bytes, start, count, first);
        }
    }
}

/// A custom section is refused for what stands before its contents, or else as its
/// name is, or because the name goes on past the section's end. A section that is
/// skipped is refused only where it does not lie in the input.
pub proof fn law_custom_and_skipped_section_faults(
    bytes: Seq<u8>,
    pos: int,
    size: int,
    start: int,
)
    requires
        0 <= pos,
    ensures
        header_faults(grammar::custom_section_at(bytes, pos), bytes, pos, 0, size, start),
        number_stands(bytes, pos + 1, size, start) && bytes[pos] == 0 && start + size
            <= bytes.len() ==> match grammar::name_at(bytes, start) {
            Outcome::Read { value, end } => if end > start + size {
                fails(
                    grammar::custom_section_at(bytes, pos),
                    ParseErrorKind::SectionSizeMismatch,
                    end,
                    end,
                )
            } else {
                grammar::custom_section_at(bytes, pos) == (Outcome::Read {
                    value,
                    end: start + size,
                })
            },
            failed => fails_like(grammar::custom_section_at(bytes, pos), failed),
        },
        header_faults(grammar::any_section_at(bytes, pos), bytes, pos, bytes[pos], size, start),
        number_stands(bytes, pos + 1, size, start) && start + size <= bytes.len()
            ==> grammar::any_section_at(bytes, pos) == (Outcome::Read {
            value: bytes[pos],
            end: start + size,
        }),
{
    lemma_section_start(bytes, pos, 0, size, start);
    lemma_section_start(bytes, pos, bytes[pos], size, start);
    law_number_faults(bytes, pos + 1);
    if number_stands(bytes, pos + 1, size, start) {
        lemma_number_stands(bytes, pos + 1, size, start);
    }
}

} // verus!
