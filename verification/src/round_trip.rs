//! Reading is the inverse of writing.
//!
//! Each law is stated over [`crate::encoding`], which says how values are
//! written, and the functions of [`crate::grammar`] that the readers' contracts
//! are stated over. One direction: what is written is read back, wherever in an
//! input it stands. The other: what is read is what the bytes stand for, so that
//! nothing but those bytes, or a longer form of the same numbers, reads as it.

use crate::encoding;
use crate::error::ParseErrorKind;
use crate::extent;
use crate::grammar;
use crate::grammar::Outcome;
use crate::leb;
use crate::leb::LebError;
use crate::types::{
    CodeView, ExportDesc, ExportView, FuncTypeView, ImportDesc, ImportView, Limits, LocalDecl,
    ValType,
};
use vstd::prelude::*;

verus! {

/// What stands from `pos` up to `end` is `piece`, or something longer.
pub open spec fn spells(bytes: Seq<u8>, pos: int, end: int, piece: Seq<u8>) -> bool {
    &&& pos + piece.len() <= end
    &&& pos + piece.len() == end ==> encoding::holds_at(bytes, pos, piece)
}

/// Each part of a written whole stands in its place.
pub(crate) proof fn lemma_parts(bytes: Seq<u8>, pos: int, a: Seq<u8>, b: Seq<u8>)
    requires
        encoding::holds_at(bytes, pos, a + b),
    ensures
        encoding::holds_at(bytes, pos, a),
        encoding::holds_at(bytes, pos + a.len(), b),
{
    assert forall|i: int| 0 <= i < a.len() implies bytes[pos + i] == #[trigger] a[i] by {
        assert((a + b)[i] == a[i]);
    }
    assert forall|i: int| 0 <= i < b.len() implies bytes[pos + a.len() + i]
        == #[trigger] b[i] by {
        assert((a + b)[a.len() + i] == b[i]);
    }
}

/// What spells the parts, one after the other, spells the whole.
proof fn lemma_whole(bytes: Seq<u8>, pos: int, mid: int, end: int, a: Seq<u8>, b: Seq<u8>)
    requires
        spells(bytes, pos, mid, a),
        spells(bytes, mid, end, b),
    ensures
        spells(bytes, pos, end, a + b),
{
    if pos + (a + b).len() == end {
        assert forall|i: int| 0 <= i < (a + b).len() implies bytes[pos + i] == #[trigger] (a
            + b)[i] by {
            if i < a.len() {
                assert((a + b)[i] == a[i]);
            } else {
                assert((a + b)[i] == b[i - a.len()]);
            }
        }
    }
}

/// A written number, read.
proof fn lemma_number_written(bytes: Seq<u8>, pos: int, n: nat, limit: nat)
    requires
        encoding::holds_at(bytes, pos, encoding::number(n)),
        encoding::number(n).len() <= limit,
    ensures
        leb::decode(bytes, pos, limit) == Ok::<(nat, int), LebError>(
            (n, pos + encoding::number(n).len()),
        ),
    decreases n,
{
    let piece = encoding::number(n);
    assert(piece.len() >= 1);
    assert(bytes[pos + 0] == piece[0]);
    if n >= 128 {
        let digit = seq![(128 + n % 128) as u8];
        lemma_parts(bytes, pos, digit, encoding::number(n / 128));
        lemma_number_written(bytes, pos + 1, n / 128, (limit - 1) as nat);
    }
}

/// A number of 32 bits takes at most five bytes.
proof fn lemma_number_len(n: nat)
    requires
        n <= u32::MAX,
    ensures
        1 <= encoding::number(n).len() <= 5,
{
    reveal_with_fuel(encoding::number, 6);
}

/// A larger number takes at least as many bytes.
proof fn lemma_number_grows(a: nat, b: nat)
    requires
        a <= b,
    ensures
        encoding::number(a).len() <= encoding::number(b).len(),
    decreases b,
{
    if a >= 128 {
        lemma_number_grows(a / 128, b / 128);
    } else if b >= 128 {
        lemma_number_grows(0, b / 128);
    }
}

/// A number that is read, as it is written.
proof fn lemma_number_read(bytes: Seq<u8>, pos: int, limit: nat)
    ensures
        leb::decode(bytes, pos, limit) matches Ok((n, end)) ==> spells(
            bytes,
            pos,
            end,
            encoding::number(n),
        ),
    decreases limit,
{
    if let Ok((n, end)) = leb::decode(bytes, pos, limit) {
        if bytes[pos] < 0x80 {
            assert(encoding::number(n) =~= seq![bytes[pos]]);
        } else {
            lemma_number_read(bytes, pos + 1, (limit - 1) as nat);
            let high = leb::decode(bytes, pos + 1, (limit - 1) as nat)->Ok_0.0;
            leb::lemma_decode_bounds(bytes, pos + 1, (limit - 1) as nat);
            if n >= 128 {
                assert(n / 128 == high && 128 + n % 128 == bytes[pos]);
                let digit = seq![(128 + n % 128) as u8];
                assert(spells(bytes, pos, pos + 1, digit));
                lemma_whole(bytes, pos, pos + 1, end, digit, encoding::number(high));
            }
        }
    }
}

/// A number is read back from where it is written, and reads as nothing else.
pub proof fn law_numbers_read_back(bytes: Seq<u8>, pos: int, n: u32)
    ensures
        encoding::holds_at(bytes, pos, encoding::number(n as nat)) ==> grammar::u32_at(bytes, pos)
            == (Outcome::Read { value: n, end: pos + encoding::number(n as nat).len() }),
        grammar::u32_at(bytes, pos) matches Outcome::Read { value, end } ==> spells(
            bytes,
            pos,
            end,
            encoding::number(value as nat),
        ),
{
    lemma_number_len(n as nat);
    if encoding::holds_at(bytes, pos, encoding::number(n as nat)) {
        lemma_number_written(bytes, pos, n as nat, 5);
    }
    lemma_number_read(bytes, pos, 5);
}

/// Digit `i` of the number that stands from `pos` up to `end`; 0 past its last.
pub open spec fn digit(bytes: Seq<u8>, pos: int, end: int, i: int) -> int {
    if pos + i < end {
        bytes[pos + i] as int % 128
    } else {
        0
    }
}

/// The number in base 128 that stands from `pos` up to `end`, in at most five
/// digits, least significant first.
pub open spec fn digits_value(bytes: Seq<u8>, pos: int, end: int) -> int {
    digit(bytes, pos, end, 0) + 0x80 * digit(bytes, pos, end, 1) + 0x4000 * digit(
        bytes,
        pos,
        end,
        2,
    ) + 0x20_0000 * digit(bytes, pos, end, 3) + 0x1000_0000 * digit(bytes, pos, end, 4)
}

/// From `pos` up to `end` stand bytes that each announce another one.
pub open spec fn goes_on(bytes: Seq<u8>, pos: int, end: int) -> bool {
    0 <= pos && end <= bytes.len() && forall|i: int| pos <= i < end ==> #[trigger] bytes[i] >= 128
}

/// A number ends at `end`, at most five bytes after `pos`.
pub open spec fn number_ends(bytes: Seq<u8>, pos: int, end: int) -> bool {
    goes_on(bytes, pos, end - 1) && pos < end <= pos + 5 && end <= bytes.len() && bytes[end - 1]
        < 128
}

/// What the bytes at `pos` decide of the number there.
proof fn lemma_number_form(bytes: Seq<u8>, pos: int)
    requires
        0 <= pos,
    ensures
        match leb::decode(bytes, pos, 5) {
            Ok((n, last)) => number_ends(bytes, pos, last) && n == digits_value(bytes, pos, last),
            Err(LebError::UnexpectedEof) => pos + 5 > bytes.len() && (pos >= bytes.len() || goes_on(
                bytes,
                pos,
                bytes.len() as int,
            )),
            Err(LebError::TooLong) => goes_on(bytes, pos, pos + 5),
            Err(LebError::Overflow) => false,
        },
{
    let e5 = leb::decode(bytes, pos + 5, 0);
    let e4 = leb::decode(bytes, pos + 4, 1);
    let e3 = leb::decode(bytes, pos + 3, 2);
    let e2 = leb::decode(bytes, pos + 2, 3);
    let e1 = leb::decode(bytes, pos + 1, 4);
    let e0 = leb::decode(bytes, pos, 5);
    let len = bytes.len() as int;
    if pos >= len || bytes[pos] < 128 {
    } else if pos + 1 >= len || bytes[pos + 1] < 128 {
    } else if pos + 2 >= len || bytes[pos + 2] < 128 {
    } else if pos + 3 >= len || bytes[pos + 3] < 128 {
    } else if pos + 4 >= len || bytes[pos + 4] < 128 {
    } else {
        assert(e0 == e5);
    }
}

/// A number is what its digits come to, whether or not it is written as short as
/// can be. It is refused in three cases only: the input ends before it does, it
/// goes on past five bytes, or it takes more than 32 bits.
pub proof fn law_numbers_are_their_digits(bytes: Seq<u8>, pos: int, end: int, n: u32)
    requires
        0 <= pos,
    ensures
        leb::decode_u32(bytes, pos) == Ok::<(u32, int), LebError>((n, end)) <==> number_ends(
            bytes,
            pos,
            end,
        ) && n == digits_value(bytes, pos, end),
        leb::decode_u32(bytes, pos) == Err::<(u32, int), LebError>(LebError::UnexpectedEof) <==> pos
            + 5 > bytes.len() && (pos >= bytes.len() || goes_on(bytes, pos, bytes.len() as int)),
        leb::decode_u32(bytes, pos) == Err::<(u32, int), LebError>(LebError::TooLong) <==> goes_on(
            bytes,
            pos,
            pos + 5,
        ),
        leb::decode_u32(bytes, pos) == Err::<(u32, int), LebError>(LebError::Overflow) ==> exists|
            last: int|
            number_ends(bytes, pos, last) && digits_value(bytes, pos, last) > u32::MAX,
        number_ends(bytes, pos, end) && digits_value(bytes, pos, end) > u32::MAX
            ==> leb::decode_u32(bytes, pos) == Err::<(u32, int), LebError>(LebError::Overflow),
{
    lemma_number_form(bytes, pos);
    if number_ends(bytes, pos, end) {
        assert(bytes[end - 1] < 128);
        if let Ok((_, last)) = leb::decode(bytes, pos, 5) {
            assert(bytes[last - 1] < 128);
        }
    }
    if let Ok((_, last)) = leb::decode(bytes, pos, 5) {
        assert(bytes[last - 1] < 128);
    }
}

/// A single byte is read back.
proof fn lemma_byte(bytes: Seq<u8>, pos: int, byte: u8)
    ensures
        encoding::holds_at(bytes, pos, seq![byte]) ==> grammar::byte_at(bytes, pos)
            == (Outcome::Read { value: byte, end: pos + 1 }),
        grammar::byte_at(bytes, pos) matches Outcome::Read { value, end } ==> end == pos + 1
            && spells(bytes, pos, end, seq![value]),
{
    if encoding::holds_at(bytes, pos, seq![byte]) {
        assert(bytes[pos + 0] == seq![byte][0]);
    }
}

/// `writer` writes each of these values so that `reader` reads it back.
spec fn reads_back<T>(
    bytes: Seq<u8>,
    reader: spec_fn(int) -> Outcome<T>,
    writer: spec_fn(T) -> Seq<u8>,
    values: Seq<T>,
) -> bool {
    forall|i: int, at: int|
        0 <= i < values.len() && #[trigger] encoding::holds_at(bytes, at, writer(values[i]))
            ==> reader(at) == (Outcome::Read {
            value: values[i],
            end: at + writer(values[i]).len(),
        })
}

/// What is read at `at` stands there as `writer` writes it.
spec fn is_spelled<T>(
    bytes: Seq<u8>,
    at: int,
    outcome: Outcome<T>,
    writer: spec_fn(T) -> Seq<u8>,
) -> bool {
    outcome matches Outcome::Read { value, end } ==> spells(bytes, at, end, writer(value))
}

/// What `reader` reads stands there as `writer` writes it.
spec fn reads_only<T>(
    bytes: Seq<u8>,
    reader: spec_fn(int) -> Outcome<T>,
    writer: spec_fn(T) -> Seq<u8>,
) -> bool {
    forall|at: int| is_spelled(bytes, at, #[trigger] reader(at), writer)
}

/// Items are read back.
proof fn lemma_items_written<T>(
    bytes: Seq<u8>,
    reader: spec_fn(int) -> Outcome<T>,
    writer: spec_fn(T) -> Seq<u8>,
    values: Seq<T>,
    pos: int,
)
    requires
        encoding::holds_at(bytes, pos, encoding::concat(values, writer)),
        reads_back(bytes, reader, writer, values),
    ensures
        grammar::items_at(reader, pos, values.len()) == (Outcome::Read {
            value: values,
            end: pos + encoding::concat(values, writer).len(),
        }),
    decreases values.len(),
{
    if values.len() > 0 {
        let init = values.drop_last();
        let front = encoding::concat(init, writer);
        lemma_parts(bytes, pos, front, writer(values.last()));
        assert(reads_back(bytes, reader, writer, init)) by {
            assert forall|i: int, at: int|
                0 <= i < init.len() && #[trigger] encoding::holds_at(
                    bytes,
                    at,
                    writer(init[i]),
                ) implies reader(at) == (Outcome::Read {
                value: init[i],
                end: at + writer(init[i]).len(),
            }) by {
                assert(encoding::holds_at(bytes, at, writer(values[i])));
            }
        }
        lemma_items_written(bytes, reader, writer, init, pos);
        let last = values.len() - 1;
        assert(encoding::holds_at(bytes, pos + front.len(), writer(values[last])));
        assert(init.push(values.last()) =~= values);
    } else {
        assert(values =~= seq![]);
    }
}

/// Items that are read stand there as they are written.
proof fn lemma_items_read<T>(
    bytes: Seq<u8>,
    reader: spec_fn(int) -> Outcome<T>,
    writer: spec_fn(T) -> Seq<u8>,
    pos: int,
    count: nat,
)
    requires
        reads_only(bytes, reader, writer),
    ensures
        grammar::items_at(reader, pos, count) matches Outcome::Read { value, end } ==> value.len()
            == count && spells(bytes, pos, end, encoding::concat(value, writer)),
    decreases count,
{
    if count > 0 {
        lemma_items_read(bytes, reader, writer, pos, (count - 1) as nat);
        if let Outcome::Read { value: init, end: mid } = grammar::items_at(
            reader,
            pos,
            (count - 1) as nat,
        ) {
            assert(is_spelled(bytes, mid, reader(mid), writer));
            if let Outcome::Read { value: last, end } = reader(mid) {
                let all = init.push(last);
                assert(all.drop_last() =~= init);
                lemma_whole(bytes, pos, mid, end, encoding::concat(init, writer), writer(last));
            }
        }
    }
}

/// A vector is read back.
proof fn lemma_vec_written<T>(
    bytes: Seq<u8>,
    reader: spec_fn(int) -> Outcome<T>,
    writer: spec_fn(T) -> Seq<u8>,
    values: Seq<T>,
    pos: int,
)
    requires
        encoding::holds_at(bytes, pos, encoding::vector(values, writer)),
        encoding::fits(values.len()),
        reads_back(bytes, reader, writer, values),
    ensures
        grammar::vec_at(bytes, reader, pos) == (Outcome::Read {
            value: values,
            end: pos + encoding::vector(values, writer).len(),
        }),
{
    let count = encoding::number(values.len());
    lemma_parts(bytes, pos, count, encoding::concat(values, writer));
    law_numbers_read_back(bytes, pos, values.len() as u32);
    lemma_items_written(bytes, reader, writer, values, pos + count.len());
}

/// A vector that is read stands there as it is written.
proof fn lemma_vec_read<T>(
    bytes: Seq<u8>,
    reader: spec_fn(int) -> Outcome<T>,
    writer: spec_fn(T) -> Seq<u8>,
    pos: int,
)
    requires
        reads_only(bytes, reader, writer),
    ensures
        grammar::vec_at(bytes, reader, pos) matches Outcome::Read { value, end } ==> spells(
            bytes,
            pos,
            end,
            encoding::vector(value, writer),
        ),
{
    law_numbers_read_back(bytes, pos, 0);
    if let Outcome::Read { value: count, end: mid } = grammar::u32_at(bytes, pos) {
        lemma_items_read(bytes, reader, writer, mid, count as nat);
        if let Outcome::Read { value, end } = grammar::items_at(reader, mid, count as nat) {
            lemma_whole(
                bytes,
                pos,
                mid,
                end,
                encoding::number(count as nat),
                encoding::concat(value, writer),
            );
        }
    }
}

/// The header is read exactly where the eight bytes `\0asm 1 0 0 0` stand. Otherwise
/// it is refused for the first thing that is wrong with it: for its first four
/// bytes, for the version in the next four, or because the input ends too soon to
/// tell.
pub proof fn law_header_is_exact(bytes: Seq<u8>)
    ensures
        grammar::header_of(bytes) == (Outcome::Read { value: 1u32, end: 8 }) <==> bytes.len() >= 8
            && bytes.take(8) == encoding::header(),
        grammar::header_of(bytes) == (Outcome::<u32>::Failed {
            kind: ParseErrorKind::NotWasm,
            offset: 0,
            stop: 0,
        }) <==> bytes.len() >= 4 && bytes.take(4) != encoding::header().take(4),
        grammar::header_of(bytes) == (Outcome::<u32>::Failed {
            kind: ParseErrorKind::UnsupportedVersion,
            offset: 4,
            stop: 4,
        }) <==> bytes.len() >= 8 && bytes.take(4) == encoding::header().take(4) && bytes.take(8)
            != encoding::header(),
        grammar::header_of(bytes) == (Outcome::<u32>::Failed {
            kind: ParseErrorKind::UnexpectedEof,
            offset: bytes.len() as int,
            stop: bytes.len() as int,
        }) <==> bytes.len() < 4 || (bytes.len() < 8 && bytes.take(4) == encoding::header().take(4)),
{
    let header = encoding::header();
    assert(header.take(4) =~= seq![0x00u8, 0x61u8, 0x73u8, 0x6Du8]);
    if bytes.len() >= 8 {
        let found = bytes.take(8);
        if found == header {
            assert(bytes.take(4) =~= header.take(4));
            assert(bytes[4] == header[4] && bytes[5] == header[5] && bytes[6] == header[6]
                && bytes[7] == header[7]);
        } else if grammar::header_of(bytes) is Read {
            assert forall|i: int| 0 <= i < 8 implies found[i] == #[trigger] header[i] by {
                if i < 4 {
                    assert(bytes.take(4)[i] == header.take(4)[i]);
                }
            }
            assert(found =~= header);
        }
    }
}

/// Every value type has a byte of its own, and is what that byte, and no other,
/// is read as.
pub proof fn law_val_types_read_back(byte: u8, val_type: ValType)
    ensures
        grammar::val_type_of(byte) == Some(val_type) <==> byte == encoding::val_type_byte(val_type),
{
}

/// A value type is read back from where it is written, and reads as nothing else.
proof fn lemma_val_type(bytes: Seq<u8>, pos: int, val_type: ValType)
    ensures
        encoding::holds_at(bytes, pos, seq![encoding::val_type_byte(val_type)])
            ==> grammar::val_type_at(bytes, pos) == (Outcome::Read {
            value: val_type,
            end: pos + 1,
        }),
        grammar::val_type_at(bytes, pos) matches Outcome::Read { value, end } ==> end == pos + 1
            && spells(bytes, pos, end, seq![encoding::val_type_byte(value)]),
{
    lemma_byte(bytes, pos, encoding::val_type_byte(val_type));
}

/// Value types, in a vector.
proof fn lemma_val_types(bytes: Seq<u8>)
    ensures
        reads_only(bytes, grammar::val_type_reader(bytes), encoding::val_type_writer()),
        forall|values: Seq<ValType>| #[trigger]
            reads_back(
                bytes,
                grammar::val_type_reader(bytes),
                encoding::val_type_writer(),
                values,
            ),
{
    let reader = grammar::val_type_reader(bytes);
    let writer = encoding::val_type_writer();
    assert forall|at: int| is_spelled(bytes, at, #[trigger] reader(at), writer) by {
        lemma_val_type(bytes, at, ValType::I32);
    }
    assert forall|values: Seq<ValType>| #[trigger] reads_back(bytes, reader, writer, values) by {
        assert forall|i: int, at: int|
            0 <= i < values.len() && #[trigger] encoding::holds_at(
                bytes,
                at,
                writer(values[i]),
            ) implies reader(at) == (Outcome::Read {
            value: values[i],
            end: at + writer(values[i]).len(),
        }) by {
            lemma_val_type(bytes, at, values[i]);
        }
    }
}

/// A signature is read back from where it is written - its parameters as
/// parameters, its results as results, each of them with its type and in order -
/// and reads as nothing else.
pub proof fn law_func_types_read_back(bytes: Seq<u8>, pos: int, signature: FuncTypeView)
    requires
        encoding::func_type_fits(signature),
    ensures
        encoding::holds_at(bytes, pos, encoding::func_type(signature)) ==> grammar::func_type_at(
            bytes,
            pos,
        ) == (Outcome::Read { value: signature, end: pos + encoding::func_type(signature).len() }),
        grammar::func_type_at(bytes, pos) matches Outcome::Read { value, end } ==> spells(
            bytes,
            pos,
            end,
            encoding::func_type(value),
        ),
{
    let reader = grammar::val_type_reader(bytes);
    let writer = encoding::val_type_writer();
    let tag = seq![0x60u8];
    lemma_val_types(bytes);
    lemma_byte(bytes, pos, 0x60);
    if encoding::holds_at(bytes, pos, encoding::func_type(signature)) {
        let params = encoding::vector(signature.params, writer);
        let results = encoding::vector(signature.results, writer);
        lemma_parts(bytes, pos, tag, params + results);
        lemma_parts(bytes, pos + 1, params, results);
        assert(reads_back(bytes, reader, writer, signature.params));
        assert(reads_back(bytes, reader, writer, signature.results));
        lemma_vec_written(bytes, reader, writer, signature.params, pos + 1);
        lemma_vec_written(bytes, reader, writer, signature.results, pos + 1 + params.len());
    }
    if let Outcome::Read { value, end } = grammar::func_type_at(bytes, pos) {
        let mid = grammar::val_types_at(bytes, pos + 1)->end;
        let params = encoding::vector(value.params, writer);
        let results = encoding::vector(value.results, writer);
        lemma_vec_read(bytes, reader, writer, pos + 1);
        lemma_vec_read(bytes, reader, writer, mid);
        lemma_whole(bytes, pos + 1, mid, end, params, results);
        lemma_whole(bytes, pos, pos + 1, end, tag, params + results);
    }
}

/// A string is read back from where it is written, and reads as nothing else.
pub proof fn law_names_read_back(bytes: Seq<u8>, pos: int, text: Seq<char>)
    requires
        encoding::name_fits(text),
    ensures
        encoding::holds_at(bytes, pos, encoding::name(text)) ==> grammar::name_at(bytes, pos)
            == (Outcome::Read { value: text, end: pos + encoding::name(text).len() }),
        grammar::name_at(bytes, pos) matches Outcome::Read { value, end } ==> spells(
            bytes,
            pos,
            end,
            encoding::name(value),
        ),
{
    let utf8 = vstd::utf8::encode_utf8(text);
    law_numbers_read_back(bytes, pos, utf8.len() as u32);
    if encoding::holds_at(bytes, pos, encoding::name(text)) {
        let size = encoding::number(utf8.len());
        let start = pos + size.len();
        lemma_parts(bytes, pos, size, utf8);
        lemma_number_len(utf8.len());
        vstd::utf8::encode_utf8_valid_utf8(text);
        vstd::utf8::encode_utf8_decode_utf8(text);
        assert(bytes.subrange(start, start + utf8.len()) =~= utf8);
    }
    leb::lemma_decode_bounds(bytes, pos, 5);
    if let Outcome::Read { value, end } = grammar::name_at(bytes, pos) {
        let len = grammar::u32_at(bytes, pos)->value;
        let start = grammar::u32_at(bytes, pos)->end;
        let found = bytes.subrange(start, start + len);
        vstd::utf8::decode_utf8_encode_utf8(found);
        assert(spells(bytes, start, end, found));
        lemma_whole(bytes, pos, start, end, encoding::number(len as nat), found);
    }
}

/// Limits are read back from where they are written, and nothing else reads as
/// limits, nor do limits with a maximum below the minimum.
pub proof fn law_limits_read_back(bytes: Seq<u8>, pos: int, limits: Limits)
    requires
        limits.max matches Some(max) ==> limits.min <= max,
    ensures
        encoding::holds_at(bytes, pos, encoding::limits(limits)) ==> grammar::limits_at(bytes, pos)
            == (Outcome::Read { value: limits, end: pos + encoding::limits(limits).len() }),
        grammar::limits_at(bytes, pos) matches Outcome::Read { value, end } ==> spells(
            bytes,
            pos,
            end,
            encoding::limits(value),
        ) && (value.max matches Some(max) ==> value.min <= max),
{
    let flag = if limits.max is Some {
        0x01u8
    } else {
        0x00u8
    };
    let min = encoding::number(limits.min as nat);
    lemma_byte(bytes, pos, flag);
    law_numbers_read_back(bytes, pos + 1, limits.min);
    if encoding::holds_at(bytes, pos, encoding::limits(limits)) {
        match limits.max {
            None => {
                lemma_parts(bytes, pos, seq![flag], min);
            },
            Some(max) => {
                lemma_parts(bytes, pos, seq![flag], min + encoding::number(max as nat));
                lemma_parts(bytes, pos + 1, min, encoding::number(max as nat));
                law_numbers_read_back(bytes, pos + 1 + min.len(), max);
            },
        }
    }
    if let Outcome::Read { value, end } = grammar::limits_at(bytes, pos) {
        let mid = grammar::u32_at(bytes, pos + 1)->end;
        let found_min = encoding::number(value.min as nat);
        match value.max {
            None => {
                lemma_whole(bytes, pos, pos + 1, end, seq![0x00u8], found_min);
            },
            Some(max) => {
                let found_max = encoding::number(max as nat);
                law_numbers_read_back(bytes, mid, max);
                lemma_whole(bytes, pos + 1, mid, end, found_min, found_max);
                lemma_whole(bytes, pos, pos + 1, end, seq![0x01u8], found_min + found_max);
            },
        }
    }
}

/// What an import may bind where there are `type_count` types: functions of one of
/// these types, tables of function references, memories, and globals, with no
/// maximum below its minimum.
pub open spec fn may_be_imported(desc: ImportDesc, type_count: nat) -> bool {
    match desc {
        ImportDesc::Func(type_index) => type_index < type_count,
        ImportDesc::Table { element_type, limits } => element_type == 0x70 && (limits.max matches
            Some(max) ==> limits.min <= max),
        ImportDesc::Memory(limits) => limits.max matches Some(max) ==> limits.min <= max,
        ImportDesc::Global { .. } => true,
    }
}

/// What an import binds is read back.
proof fn lemma_import_desc_written(bytes: Seq<u8>, pos: int, type_count: nat, desc: ImportDesc)
    requires
        may_be_imported(desc, type_count),
        encoding::holds_at(bytes, pos, encoding::import_desc(desc)),
    ensures
        grammar::import_desc_at(bytes, pos, type_count) == (Outcome::Read {
            value: desc,
            end: pos + encoding::import_desc(desc).len(),
        }),
{
    match desc {
        ImportDesc::Func(type_index) => {
            lemma_parts(bytes, pos, seq![0x00u8], encoding::number(type_index as nat));
            lemma_byte(bytes, pos, 0x00);
            law_numbers_read_back(bytes, pos + 1, type_index);
        },
        ImportDesc::Table { element_type, limits } => {
            let bounds = encoding::limits(limits);
            lemma_parts(bytes, pos, seq![0x01u8], seq![element_type] + bounds);
            lemma_parts(bytes, pos + 1, seq![element_type], bounds);
            lemma_byte(bytes, pos, 0x01);
            lemma_byte(bytes, pos + 1, element_type);
            law_limits_read_back(bytes, pos + 2, limits);
        },
        ImportDesc::Memory(limits) => {
            lemma_parts(bytes, pos, seq![0x02u8], encoding::limits(limits));
            lemma_byte(bytes, pos, 0x02);
            law_limits_read_back(bytes, pos + 1, limits);
        },
        ImportDesc::Global { val_type, mutable } => {
            let piece = encoding::import_desc(desc);
            assert(bytes[pos + 0] == piece[0]);
            assert(bytes[pos + 1] == piece[1]);
            assert(bytes[pos + 2] == piece[2]);
            law_val_types_read_back(piece[1], val_type);
        },
    }
}

/// What an import is read to bind stands there as it is written.
proof fn lemma_import_desc_read(bytes: Seq<u8>, pos: int, type_count: nat)
    ensures
        grammar::import_desc_at(bytes, pos, type_count) matches Outcome::Read { value, end }
            ==> spells(bytes, pos, end, encoding::import_desc(value)) && may_be_imported(
            value,
            type_count,
        ),
{
    lemma_byte(bytes, pos, 0);
    if let Outcome::Read { value, end } = grammar::import_desc_at(bytes, pos, type_count) {
        let none = Limits { min: 0, max: None };
        match value {
            ImportDesc::Func(type_index) => {
                law_numbers_read_back(bytes, pos + 1, type_index);
                lemma_whole(
                    bytes,
                    pos,
                    pos + 1,
                    end,
                    seq![0x00u8],
                    encoding::number(type_index as nat),
                );
            },
            ImportDesc::Table { element_type, limits } => {
                let bounds = encoding::limits(limits);
                lemma_byte(bytes, pos + 1, element_type);
                law_limits_read_back(bytes, pos + 2, none);
                lemma_whole(bytes, pos + 1, pos + 2, end, seq![element_type], bounds);
                lemma_whole(bytes, pos, pos + 1, end, seq![0x01u8], seq![element_type] + bounds);
            },
            ImportDesc::Memory(limits) => {
                law_limits_read_back(bytes, pos + 1, none);
                lemma_whole(bytes, pos, pos + 1, end, seq![0x02u8], encoding::limits(limits));
            },
            ImportDesc::Global { val_type, mutable } => {
                law_val_types_read_back(bytes[pos + 1], val_type);
                let piece = encoding::import_desc(value);
                assert forall|i: int| 0 <= i < piece.len() implies bytes[pos + i]
                    == #[trigger] piece[i] by {}
            },
        }
    }
}

/// What an import binds - its kind, and the type index, the element type, the
/// limits, the value type and the mutability that go with it - is read back from
/// where it is written, and nothing else reads as it.
pub proof fn law_import_descs_read_back(
    bytes: Seq<u8>,
    pos: int,
    type_count: nat,
    desc: ImportDesc,
)
    ensures
        may_be_imported(desc, type_count) && encoding::holds_at(
            bytes,
            pos,
            encoding::import_desc(desc),
        ) ==> grammar::import_desc_at(bytes, pos, type_count) == (Outcome::Read {
            value: desc,
            end: pos + encoding::import_desc(desc).len(),
        }),
        grammar::import_desc_at(bytes, pos, type_count) matches Outcome::Read { value, end }
            ==> spells(bytes, pos, end, encoding::import_desc(value)) && may_be_imported(
            value,
            type_count,
        ),
{
    if may_be_imported(desc, type_count) && encoding::holds_at(
        bytes,
        pos,
        encoding::import_desc(desc),
    ) {
        lemma_import_desc_written(bytes, pos, type_count, desc);
    }
    lemma_import_desc_read(bytes, pos, type_count);
}

/// An import is read back from where it is written - its module, its name, and
/// what it binds - and nothing else reads as it.
pub proof fn law_imports_read_back(bytes: Seq<u8>, pos: int, type_count: nat, import: ImportView)
    requires
        encoding::import_fits(import),
        may_be_imported(import.desc, type_count),
    ensures
        encoding::holds_at(bytes, pos, encoding::import(import)) ==> grammar::import_at(
            bytes,
            pos,
            type_count,
        ) == (Outcome::Read { value: import, end: pos + encoding::import(import).len() }),
        grammar::import_at(bytes, pos, type_count) matches Outcome::Read { value, end } ==> spells(
            bytes,
            pos,
            end,
            encoding::import(value),
        ) && may_be_imported(value.desc, type_count),
{
    let module = encoding::name(import.module);
    let name = encoding::name(import.name);
    let desc = encoding::import_desc(import.desc);
    if encoding::holds_at(bytes, pos, encoding::import(import)) {
        lemma_parts(bytes, pos, module, name + desc);
        lemma_parts(bytes, pos + module.len(), name, desc);
        law_names_read_back(bytes, pos, import.module);
        law_names_read_back(bytes, pos + module.len(), import.name);
        lemma_import_desc_written(
            bytes,
            pos + module.len() + name.len(),
            type_count,
            import.desc,
        );
    }
    lemma_import_read(bytes, pos, type_count);
}

/// An import that is read stands there as it is written.
proof fn lemma_import_read(bytes: Seq<u8>, pos: int, type_count: nat)
    ensures
        grammar::import_at(bytes, pos, type_count) matches Outcome::Read { value, end } ==> spells(
            bytes,
            pos,
            end,
            encoding::import(value),
        ) && may_be_imported(value.desc, type_count),
{
    if let Outcome::Read { value, end } = grammar::import_at(bytes, pos, type_count) {
        let first = grammar::name_at(bytes, pos)->end;
        let second = grammar::name_at(bytes, first)->end;
        let module = encoding::name(value.module);
        let name = encoding::name(value.name);
        let desc = encoding::import_desc(value.desc);
        law_names_read_back(bytes, pos, seq![]);
        law_names_read_back(bytes, first, seq![]);
        lemma_import_desc_read(bytes, second, type_count);
        lemma_whole(bytes, first, second, end, name, desc);
        lemma_whole(bytes, pos, first, end, module, name + desc);
    }
}

/// An export is read back from where it is written - its name, its kind and its
/// index - and nothing else reads as it.
pub proof fn law_exports_read_back(bytes: Seq<u8>, pos: int, export: ExportView)
    requires
        encoding::name_fits(export.name),
    ensures
        encoding::holds_at(bytes, pos, encoding::export(export)) ==> grammar::export_at(bytes, pos)
            == (Outcome::Read { value: export, end: pos + encoding::export(export).len() }),
        grammar::export_at(bytes, pos) matches Outcome::Read { value, end } ==> spells(
            bytes,
            pos,
            end,
            encoding::export(value),
        ),
{
    let name = encoding::name(export.name);
    let (kind, index) = kind_and_index(export.desc);
    law_names_read_back(bytes, pos, export.name);
    if encoding::holds_at(bytes, pos, encoding::export(export)) {
        let mid = pos + name.len();
        lemma_parts(bytes, pos, name, encoding::export_desc(export.desc));
        lemma_parts(bytes, mid, seq![kind], encoding::number(index as nat));
        lemma_byte(bytes, mid, kind);
        law_numbers_read_back(bytes, mid + 1, index);
    }
    if let Outcome::Read { value, end } = grammar::export_at(bytes, pos) {
        let mid = grammar::name_at(bytes, pos)->end;
        let (found, number) = kind_and_index(value.desc);
        lemma_byte(bytes, mid, found);
        law_numbers_read_back(bytes, mid + 1, number);
        lemma_whole(bytes, mid, mid + 1, end, seq![found], encoding::number(number as nat));
        lemma_whole(
            bytes,
            pos,
            mid,
            end,
            encoding::name(value.name),
            encoding::export_desc(value.desc),
        );
    }
}

/// The two parts in which what an export binds is written.
spec fn kind_and_index(desc: ExportDesc) -> (u8, u32) {
    match desc {
        ExportDesc::Func(index) => (0x00, index),
        ExportDesc::Table(index) => (0x01, index),
        ExportDesc::Memory(index) => (0x02, index),
        ExportDesc::Global(index) => (0x03, index),
    }
}

/// Runs of locals, in a vector.
proof fn lemma_local_decls(bytes: Seq<u8>, values: Seq<LocalDecl>)
    ensures
        reads_only(bytes, grammar::local_decl_reader(bytes), encoding::local_decl_writer()),
        reads_back(
            bytes,
            grammar::local_decl_reader(bytes),
            encoding::local_decl_writer(),
            values,
        ),
{
    let reader = grammar::local_decl_reader(bytes);
    let writer = encoding::local_decl_writer();
    assert forall|at: int| is_spelled(bytes, at, #[trigger] reader(at), writer) by {
        if let Outcome::Read { value, end } = grammar::local_decl_at(bytes, at) {
            let mid = grammar::u32_at(bytes, at)->end;
            law_numbers_read_back(bytes, at, 0);
            lemma_val_type(bytes, mid, value.val_type);
            lemma_whole(
                bytes,
                at,
                mid,
                end,
                encoding::number(value.count as nat),
                seq![encoding::val_type_byte(value.val_type)],
            );
        }
    }
    assert forall|i: int, at: int|
        0 <= i < values.len() && #[trigger] encoding::holds_at(
            bytes,
            at,
            writer(values[i]),
        ) implies reader(at) == (Outcome::Read {
        value: values[i],
        end: at + writer(values[i]).len(),
    }) by {
        let count = encoding::number(values[i].count as nat);
        lemma_parts(bytes, at, count, seq![encoding::val_type_byte(values[i].val_type)]);
        law_numbers_read_back(bytes, at, values[i].count);
        lemma_val_type(bytes, at + count.len(), values[i].val_type);
    }
}

/// A function's code is read back from where it is written - every run of its
/// locals, and all its instructions - and nothing else reads as it.
pub proof fn law_codes_read_back(bytes: Seq<u8>, pos: int, code: CodeView)
    requires
        encoding::code_fits(code),
    ensures
        encoding::holds_at(bytes, pos, encoding::code(code)) ==> grammar::code_at(bytes, pos) == (
        Outcome::Read { value: code, end: pos + encoding::code(code).len() }),
        grammar::code_at(bytes, pos) matches Outcome::Read { value, end } ==> spells(
            bytes,
            pos,
            end,
            encoding::code(value),
        ),
{
    let reader = grammar::local_decl_reader(bytes);
    let writer = encoding::local_decl_writer();
    let locals = encoding::vector(code.locals, writer);
    let contents = locals + code.body;
    law_numbers_read_back(bytes, pos, contents.len() as u32);
    lemma_local_decls(bytes, code.locals);
    if encoding::holds_at(bytes, pos, encoding::code(code)) {
        let size = encoding::number(contents.len());
        let start = pos + size.len();
        lemma_number_len(contents.len());
        lemma_parts(bytes, pos, size, contents);
        lemma_parts(bytes, start, locals, code.body);
        lemma_vec_written(bytes, reader, writer, code.locals, start);
        assert(bytes.subrange(start + locals.len(), start + contents.len()) =~= code.body);
    }
    if let Outcome::Read { value, end } = grammar::code_at(bytes, pos) {
        let start = grammar::u32_at(bytes, pos)->end;
        let mid = grammar::vec_at(bytes, reader, start)->end;
        let found = encoding::vector(value.locals, writer);
        leb::lemma_decode_bounds(bytes, pos, 5);
        lemma_vec_read(bytes, reader, writer, start);
        assert(spells(bytes, mid, end, value.body));
        lemma_whole(bytes, start, mid, end, found, value.body);
        lemma_sized_read(bytes, pos, start, end, found + value.body);
    }
}

/// Contents that are preceded by their size in bytes, as they stand, are spelled
/// out together with it.
proof fn lemma_sized_read(bytes: Seq<u8>, pos: int, start: int, end: int, contents: Seq<u8>)
    requires
        start <= end,
        spells(bytes, pos, start, encoding::number((end - start) as nat)),
        spells(bytes, start, end, contents),
    ensures
        spells(bytes, pos, end, encoding::sized(contents)),
{
    let size = (end - start) as nat;
    lemma_number_grows(contents.len(), size);
    if contents.len() == size {
        lemma_whole(bytes, pos, start, end, encoding::number(size), contents);
    }
}

/// Where a section is written, its header is read, and its contents start.
proof fn lemma_section_start_written(bytes: Seq<u8>, pos: int, id: u8, contents: Seq<u8>)
    requires
        encoding::holds_at(bytes, pos, encoding::section(id, contents)),
        encoding::fits(contents.len()),
    ensures
        ({
            let start = pos + 1 + encoding::number(contents.len()).len();
            let end = pos + encoding::section(id, contents).len();
            &&& end == start + contents.len()
            &&& grammar::section_header_at(bytes, pos) == (Outcome::Read {
                value: (id, contents.len() as u32),
                end: start,
            })
            &&& grammar::section_start_at(bytes, pos, id) == (Outcome::Read {
                value: end,
                end: start,
            })
            &&& grammar::any_section_at(bytes, pos) == (Outcome::Read { value: id, end })
            &&& encoding::holds_at(bytes, start, contents)
        }),
{
    let size = encoding::number(contents.len());
    lemma_parts(bytes, pos, seq![id], encoding::sized(contents));
    lemma_parts(bytes, pos + 1, size, contents);
    lemma_byte(bytes, pos, id);
    lemma_number_len(contents.len());
    law_numbers_read_back(bytes, pos + 1, contents.len() as u32);
}

/// Where contents are read right after a section's header, up to the section's end,
/// the whole section stands as it is written.
proof fn lemma_section_start_read(bytes: Seq<u8>, pos: int, id: u8, contents: Seq<u8>)
    requires
        grammar::section_start_at(bytes, pos, id) matches Outcome::Read {
            value: section_end,
            end: start,
        } && spells(bytes, start, section_end, contents),
    ensures
        spells(
            bytes,
            pos,
            grammar::section_start_at(bytes, pos, id)->value,
            encoding::section(id, contents),
        ),
{
    let start = grammar::section_start_at(bytes, pos, id)->end;
    let end = grammar::section_start_at(bytes, pos, id)->value;
    lemma_byte(bytes, pos, id);
    law_numbers_read_back(bytes, pos + 1, 0);
    lemma_sized_read(bytes, pos + 1, start, end, contents);
    lemma_whole(bytes, pos, pos + 1, end, seq![id], encoding::sized(contents));
}

/// Signatures, in a vector.
proof fn lemma_type_vec(bytes: Seq<u8>, values: Seq<FuncTypeView>)
    requires
        forall|i: int| 0 <= i < values.len() ==> encoding::func_type_fits(#[trigger] values[i]),
    ensures
        reads_only(bytes, grammar::func_type_reader(bytes), encoding::func_type_writer()),
        reads_back(bytes, grammar::func_type_reader(bytes), encoding::func_type_writer(), values),
{
    let reader = grammar::func_type_reader(bytes);
    let writer = encoding::func_type_writer();
    assert forall|at: int| is_spelled(bytes, at, #[trigger] reader(at), writer) by {
        law_func_types_read_back(
            bytes,
            at,
            FuncTypeView { params: seq![], results: seq![] },
        );
    }
    assert forall|i: int, at: int|
        0 <= i < values.len() && #[trigger] encoding::holds_at(
            bytes,
            at,
            writer(values[i]),
        ) implies reader(at) == (Outcome::Read {
        value: values[i],
        end: at + writer(values[i]).len(),
    }) by {
        law_func_types_read_back(bytes, at, values[i]);
    }
}

/// A type section is read back from where it is written, with all its signatures in
/// order, and nothing else reads as it.
pub proof fn law_type_section_reads_back(
    bytes: Seq<u8>,
    pos: int,
    values: Seq<FuncTypeView>,
)
    requires
        encoding::fits(values.len()),
        encoding::fits(encoding::vector(values, encoding::func_type_writer()).len()),
        forall|i: int| 0 <= i < values.len() ==> encoding::func_type_fits(#[trigger] values[i]),
    ensures
        encoding::holds_at(
            bytes,
            pos,
            encoding::section(1, encoding::vector(values, encoding::func_type_writer())),
        ) ==> grammar::type_section_at(bytes, pos) == (Outcome::Read {
            value: values,
            end: pos + encoding::section(
                1,
                encoding::vector(values, encoding::func_type_writer()),
            ).len(),
        }),
        grammar::type_section_at(bytes, pos) matches Outcome::Read { value, end }
            ==> spells(
            bytes,
            pos,
            end,
            encoding::section(1, encoding::vector(value, encoding::func_type_writer())),
        ),
{
    let reader = grammar::func_type_reader(bytes);
    let writer = encoding::func_type_writer();
    let contents = encoding::vector(values, writer);
    lemma_type_vec(bytes, values);
    if encoding::holds_at(bytes, pos, encoding::section(1, contents)) {
        lemma_section_start_written(bytes, pos, 1, contents);
        let start = pos + 1 + encoding::number(contents.len()).len();
        lemma_vec_written(bytes, reader, writer, values, start);
    }
    if let Outcome::Read { value, end } = grammar::type_section_at(bytes, pos) {
        let start = grammar::section_start_at(bytes, pos, 1)->end;
        lemma_vec_read(bytes, reader, writer, start);
        lemma_section_start_read(bytes, pos, 1, encoding::vector(value, writer));
    }
}

/// Imports, in a vector.
proof fn lemma_import_vec(bytes: Seq<u8>, type_count: nat, values: Seq<ImportView>)
    requires
        forall|i: int|
            0 <= i < values.len() ==> encoding::import_fits(#[trigger] values[i])
                && may_be_imported(values[i].desc, type_count),
    ensures
        reads_only(bytes, grammar::import_reader(bytes, type_count), encoding::import_writer()),
        reads_back(
            bytes,
            grammar::import_reader(bytes, type_count),
            encoding::import_writer(),
            values,
        ),
{
    let reader = grammar::import_reader(bytes, type_count);
    let writer = encoding::import_writer();
    assert forall|at: int| is_spelled(bytes, at, #[trigger] reader(at), writer) by {
        lemma_import_read(bytes, at, type_count);
    }
    assert forall|i: int, at: int|
        0 <= i < values.len() && #[trigger] encoding::holds_at(
            bytes,
            at,
            writer(values[i]),
        ) implies reader(at) == (Outcome::Read {
        value: values[i],
        end: at + writer(values[i]).len(),
    }) by {
        law_imports_read_back(bytes, at, type_count, values[i]);
    }
}

/// An import section is read back from where it is written, with all its imports in
/// order, and nothing else reads as it.
pub proof fn law_import_section_reads_back(
    bytes: Seq<u8>,
    pos: int,
    type_count: nat,
    values: Seq<ImportView>,
)
    requires
        encoding::fits(values.len()),
        encoding::fits(encoding::vector(values, encoding::import_writer()).len()),
        forall|i: int|
            0 <= i < values.len() ==> encoding::import_fits(#[trigger] values[i])
                && may_be_imported(values[i].desc, type_count),
    ensures
        encoding::holds_at(
            bytes,
            pos,
            encoding::section(2, encoding::vector(values, encoding::import_writer())),
        ) ==> grammar::import_section_at(bytes, pos, type_count) == (Outcome::Read {
            value: values,
            end: pos + encoding::section(
                2,
                encoding::vector(values, encoding::import_writer()),
            ).len(),
        }),
        grammar::import_section_at(bytes, pos, type_count) matches Outcome::Read { value, end }
            ==> spells(
            bytes,
            pos,
            end,
            encoding::section(2, encoding::vector(value, encoding::import_writer())),
        ),
{
    let reader = grammar::import_reader(bytes, type_count);
    let writer = encoding::import_writer();
    let contents = encoding::vector(values, writer);
    lemma_import_vec(bytes, type_count, values);
    if encoding::holds_at(bytes, pos, encoding::section(2, contents)) {
        lemma_section_start_written(bytes, pos, 2, contents);
        let start = pos + 1 + encoding::number(contents.len()).len();
        lemma_vec_written(bytes, reader, writer, values, start);
    }
    if let Outcome::Read { value, end } = grammar::import_section_at(bytes, pos, type_count) {
        let start = grammar::section_start_at(bytes, pos, 2)->end;
        lemma_vec_read(bytes, reader, writer, start);
        lemma_section_start_read(bytes, pos, 2, encoding::vector(value, writer));
    }
}

/// Type indices, in a vector.
proof fn lemma_function_vec(bytes: Seq<u8>, type_count: nat, values: Seq<u32>)
    requires
        forall|i: int| 0 <= i < values.len() ==> (#[trigger] values[i]) < type_count,
    ensures
        reads_only(bytes, grammar::type_index_reader(bytes, type_count), encoding::index_writer()),
        reads_back(
            bytes,
            grammar::type_index_reader(bytes, type_count),
            encoding::index_writer(),
            values,
        ),
{
    let reader = grammar::type_index_reader(bytes, type_count);
    let writer = encoding::index_writer();
    assert forall|at: int| is_spelled(bytes, at, #[trigger] reader(at), writer) by {
        law_numbers_read_back(bytes, at, 0);
    }
    assert forall|i: int, at: int|
        0 <= i < values.len() && #[trigger] encoding::holds_at(
            bytes,
            at,
            writer(values[i]),
        ) implies reader(at) == (Outcome::Read {
        value: values[i],
        end: at + writer(values[i]).len(),
    }) by {
        law_numbers_read_back(bytes, at, values[i]);
    }
}

/// A function section is read back from where it is written, with all its type
/// indices in order, and nothing else reads as it.
pub proof fn law_function_section_reads_back(
    bytes: Seq<u8>,
    pos: int,
    type_count: nat,
    values: Seq<u32>,
)
    requires
        encoding::fits(values.len()),
        encoding::fits(encoding::vector(values, encoding::index_writer()).len()),
        forall|i: int| 0 <= i < values.len() ==> (#[trigger] values[i]) < type_count,
    ensures
        encoding::holds_at(
            bytes,
            pos,
            encoding::section(3, encoding::vector(values, encoding::index_writer())),
        ) ==> grammar::function_section_at(bytes, pos, type_count) == (Outcome::Read {
            value: values,
            end: pos + encoding::section(
                3,
                encoding::vector(values, encoding::index_writer()),
            ).len(),
        }),
        grammar::function_section_at(bytes, pos, type_count) matches Outcome::Read { value, end }
            ==> spells(
            bytes,
            pos,
            end,
            encoding::section(3, encoding::vector(value, encoding::index_writer())),
        ),
{
    let reader = grammar::type_index_reader(bytes, type_count);
    let writer = encoding::index_writer();
    let contents = encoding::vector(values, writer);
    lemma_function_vec(bytes, type_count, values);
    if encoding::holds_at(bytes, pos, encoding::section(3, contents)) {
        lemma_section_start_written(bytes, pos, 3, contents);
        let start = pos + 1 + encoding::number(contents.len()).len();
        lemma_vec_written(bytes, reader, writer, values, start);
    }
    if let Outcome::Read { value, end } = grammar::function_section_at(bytes, pos, type_count) {
        let start = grammar::section_start_at(bytes, pos, 3)->end;
        lemma_vec_read(bytes, reader, writer, start);
        lemma_section_start_read(bytes, pos, 3, encoding::vector(value, writer));
    }
}

/// Exports, in a vector.
proof fn lemma_export_vec(bytes: Seq<u8>, values: Seq<ExportView>)
    requires
        forall|i: int| 0 <= i < values.len() ==> encoding::name_fits((#[trigger] values[i]).name),
    ensures
        reads_only(bytes, grammar::export_reader(bytes), encoding::export_writer()),
        reads_back(bytes, grammar::export_reader(bytes), encoding::export_writer(), values),
{
    let reader = grammar::export_reader(bytes);
    let writer = encoding::export_writer();
    assert forall|at: int| is_spelled(bytes, at, #[trigger] reader(at), writer) by {
        law_exports_read_back(
            bytes,
            at,
            ExportView { name: seq![], desc: ExportDesc::Func(0) },
        );
    }
    assert forall|i: int, at: int|
        0 <= i < values.len() && #[trigger] encoding::holds_at(
            bytes,
            at,
            writer(values[i]),
        ) implies reader(at) == (Outcome::Read {
        value: values[i],
        end: at + writer(values[i]).len(),
    }) by {
        law_exports_read_back(bytes, at, values[i]);
    }
}

/// An export section is read back from where it is written, with all its exports in
/// order, and nothing else reads as it.
pub proof fn law_export_section_reads_back(
    bytes: Seq<u8>,
    pos: int,
    values: Seq<ExportView>,
)
    requires
        encoding::fits(values.len()),
        encoding::fits(encoding::vector(values, encoding::export_writer()).len()),
        forall|i: int| 0 <= i < values.len() ==> encoding::name_fits((#[trigger] values[i]).name),
    ensures
        encoding::holds_at(
            bytes,
            pos,
            encoding::section(7, encoding::vector(values, encoding::export_writer())),
        ) ==> grammar::export_section_at(bytes, pos) == (Outcome::Read {
            value: values,
            end: pos + encoding::section(
                7,
                encoding::vector(values, encoding::export_writer()),
            ).len(),
        }),
        grammar::export_section_at(bytes, pos) matches Outcome::Read { value, end }
            ==> spells(
            bytes,
            pos,
            end,
            encoding::section(7, encoding::vector(value, encoding::export_writer())),
        ),
{
    let reader = grammar::export_reader(bytes);
    let writer = encoding::export_writer();
    let contents = encoding::vector(values, writer);
    lemma_export_vec(bytes, values);
    if encoding::holds_at(bytes, pos, encoding::section(7, contents)) {
        lemma_section_start_written(bytes, pos, 7, contents);
        let start = pos + 1 + encoding::number(contents.len()).len();
        lemma_vec_written(bytes, reader, writer, values, start);
    }
    if let Outcome::Read { value, end } = grammar::export_section_at(bytes, pos) {
        let start = grammar::section_start_at(bytes, pos, 7)->end;
        lemma_vec_read(bytes, reader, writer, start);
        lemma_section_start_read(bytes, pos, 7, encoding::vector(value, writer));
    }
}

/// A start section is read back from where it is written, and nothing else reads as
/// it.
pub proof fn law_start_section_reads_back(bytes: Seq<u8>, pos: int, index: u32)
    ensures
        encoding::holds_at(bytes, pos, encoding::section(8, encoding::number(index as nat)))
            ==> grammar::start_section_at(bytes, pos) == (Outcome::Read {
            value: index,
            end: pos + encoding::section(8, encoding::number(index as nat)).len(),
        }),
        grammar::start_section_at(bytes, pos) matches Outcome::Read { value, end } ==> spells(
            bytes,
            pos,
            end,
            encoding::section(8, encoding::number(value as nat)),
        ),
{
    let contents = encoding::number(index as nat);
    lemma_number_len(index as nat);
    if encoding::holds_at(bytes, pos, encoding::section(8, contents)) {
        lemma_section_start_written(bytes, pos, 8, contents);
        law_numbers_read_back(bytes, pos + 1 + encoding::number(contents.len()).len(), index);
    }
    if let Outcome::Read { value, end } = grammar::start_section_at(bytes, pos) {
        let start = grammar::section_start_at(bytes, pos, 8)->end;
        law_numbers_read_back(bytes, start, value);
        lemma_section_start_read(bytes, pos, 8, encoding::number(value as nat));
    }
}

/// Function bodies, in a vector.
proof fn lemma_code_vec(bytes: Seq<u8>, values: Seq<CodeView>)
    requires
        forall|i: int| 0 <= i < values.len() ==> encoding::code_fits(#[trigger] values[i]),
    ensures
        reads_only(bytes, grammar::code_reader(bytes), encoding::code_writer()),
        reads_back(bytes, grammar::code_reader(bytes), encoding::code_writer(), values),
{
    let reader = grammar::code_reader(bytes);
    let writer = encoding::code_writer();
    assert forall|at: int| is_spelled(bytes, at, #[trigger] reader(at), writer) by {
        let empty = CodeView { locals: seq![], body: seq![] };
        lemma_number_len(0);
        law_codes_read_back(bytes, at, empty);
    }
    assert forall|i: int, at: int|
        0 <= i < values.len() && #[trigger] encoding::holds_at(
            bytes,
            at,
            writer(values[i]),
        ) implies reader(at) == (Outcome::Read {
        value: values[i],
        end: at + writer(values[i]).len(),
    }) by {
        law_codes_read_back(bytes, at, values[i]);
    }
}

/// A code section is read back from where it is written, with the locals and the
/// instructions of all its functions in order, and nothing else reads as it. It
/// holds as many functions as are declared.
pub proof fn law_code_section_reads_back(
    bytes: Seq<u8>,
    pos: int,
    func_count: nat,
    values: Seq<CodeView>,
)
    requires
        encoding::fits(values.len()),
        encoding::fits(encoding::vector(values, encoding::code_writer()).len()),
        forall|i: int| 0 <= i < values.len() ==> encoding::code_fits(#[trigger] values[i]),
    ensures
        values.len() == func_count && encoding::holds_at(
            bytes,
            pos,
            encoding::section(10, encoding::vector(values, encoding::code_writer())),
        ) ==> grammar::code_section_at(bytes, pos, func_count) == (Outcome::Read {
            value: values,
            end: pos + encoding::section(
                10,
                encoding::vector(values, encoding::code_writer()),
            ).len(),
        }),
        grammar::code_section_at(bytes, pos, func_count) matches Outcome::Read { value, end }
            ==> value.len() == func_count && spells(
            bytes,
            pos,
            end,
            encoding::section(10, encoding::vector(value, encoding::code_writer())),
        ),
{
    let reader = grammar::code_reader(bytes);
    let writer = encoding::code_writer();
    let contents = encoding::vector(values, writer);
    lemma_code_vec(bytes, values);
    if values.len() == func_count && encoding::holds_at(
        bytes,
        pos,
        encoding::section(10, contents),
    ) {
        lemma_section_start_written(bytes, pos, 10, contents);
        let start = pos + 1 + encoding::number(contents.len()).len();
        let count = encoding::number(values.len());
        lemma_parts(bytes, start, count, encoding::concat(values, writer));
        law_numbers_read_back(bytes, start, values.len() as u32);
        lemma_vec_written(bytes, reader, writer, values, start);
    }
    if let Outcome::Read { value, end } = grammar::code_section_at(bytes, pos, func_count) {
        let start = grammar::section_start_at(bytes, pos, 10)->end;
        let count = grammar::u32_at(bytes, start)->value;
        lemma_vec_read(bytes, reader, writer, start);
        lemma_items_read(
            bytes,
            reader,
            writer,
            grammar::u32_at(bytes, start)->end,
            count as nat,
        );
        lemma_section_start_read(bytes, pos, 10, encoding::vector(value, writer));
    }
}

/// From `start` up to `end` stand as many bytes as the number says that stands from
/// `pos` up to `start`.
pub open spec fn stands_sized(bytes: Seq<u8>, pos: int, start: int, end: int) -> bool {
    number_ends(bytes, pos, start) && end == start + digits_value(bytes, pos, start) && end
        <= bytes.len()
}

/// The string stands in UTF-8 from `start` up to `end`, with its size before it.
pub open spec fn name_stands(
    bytes: Seq<u8>,
    pos: int,
    start: int,
    end: int,
    text: Seq<char>,
) -> bool {
    stands_sized(bytes, pos, start, end) && bytes.subrange(start, end) == vstd::utf8::encode_utf8(
        text,
    )
}

/// A string is read exactly where its UTF-8 stands after its size, in whatever form
/// the size is written.
pub proof fn law_names_are_what_stands_there(
    bytes: Seq<u8>,
    pos: int,
    start: int,
    end: int,
    text: Seq<char>,
)
    requires
        0 <= pos,
    ensures
        name_stands(bytes, pos, start, end, text) && encoding::name_fits(text) ==> grammar::name_at(
            bytes,
            pos,
        ) == (Outcome::Read { value: text, end }),
        grammar::name_at(bytes, pos) == (Outcome::Read { value: text, end }) ==> exists|at: int|
            name_stands(bytes, pos, at, end, text),
{
    let utf8 = vstd::utf8::encode_utf8(text);
    vstd::utf8::encode_utf8_valid_utf8(text);
    vstd::utf8::encode_utf8_decode_utf8(text);
    law_numbers_are_their_digits(bytes, pos, start, utf8.len() as u32);
    if grammar::name_at(bytes, pos) == (Outcome::Read { value: text, end }) {
        let at = grammar::u32_at(bytes, pos)->end;
        let len = grammar::u32_at(bytes, pos)->value;
        law_numbers_are_their_digits(bytes, pos, at, len);
        vstd::utf8::decode_utf8_encode_utf8(bytes.subrange(at, end));
        assert(name_stands(bytes, pos, at, end, text));
    }
}

/// Where the number at `pos` ends.
pub open spec fn number_end(bytes: Seq<u8>, pos: int) -> int {
    choose|end: int| number_ends(bytes, pos, end)
}

/// A section's extent, by the number that follows its id.
proof fn lemma_section_extent(bytes: Seq<u8>, pos: int)
    requires
        grammar::any_section_at(bytes, pos) is Read,
    ensures
        bytes[pos] == grammar::any_section_at(bytes, pos)->value,
        grammar::section_header_at(bytes, pos)->end == number_end(bytes, pos + 1),
        stands_sized(
            bytes,
            pos + 1,
            number_end(bytes, pos + 1),
            grammar::any_section_at(bytes, pos)->end,
        ),
{
    let size = grammar::u32_at(bytes, pos + 1)->value;
    let start = grammar::u32_at(bytes, pos + 1)->end;
    law_numbers_are_their_digits(bytes, pos + 1, start, size);
    let chosen = number_end(bytes, pos + 1);
    assert(number_ends(bytes, pos + 1, start));
    assert(number_ends(bytes, pos + 1, chosen));
    assert(bytes[start - 1] < 128 && bytes[chosen - 1] < 128);
}

/// The name of a custom section is read back from where the section is written,
/// whatever else it holds, and nothing but a section that opens with that name
/// reads as it.
pub proof fn law_custom_section_reads_back(
    bytes: Seq<u8>,
    pos: int,
    text: Seq<char>,
    contents: Seq<u8>,
)
    requires
        encoding::name_fits(text),
        encoding::fits((encoding::name(text) + contents).len()),
    ensures
        encoding::holds_at(bytes, pos, encoding::section(0, encoding::name(text) + contents))
            ==> grammar::custom_section_at(bytes, pos) == (Outcome::Read {
            value: text,
            end: pos + encoding::section(0, encoding::name(text) + contents).len(),
        }),
        grammar::custom_section_at(bytes, pos) matches Outcome::Read { value, end }
            ==> stands_sized(bytes, pos + 1, number_end(bytes, pos + 1), end) && bytes[pos] == 0
            && exists|text_start: int, text_end: int|
            text_end <= end && #[trigger] name_stands(
                bytes,
                number_end(bytes, pos + 1),
                text_start,
                text_end,
                value,
            ),
{
    let name = encoding::name(text);
    if encoding::holds_at(bytes, pos, encoding::section(0, name + contents)) {
        lemma_section_start_written(bytes, pos, 0, name + contents);
        let start = pos + 1 + encoding::number((name + contents).len()).len();
        lemma_parts(bytes, start, name, contents);
        law_names_read_back(bytes, start, text);
    }
    if let Outcome::Read { value, end } = grammar::custom_section_at(bytes, pos) {
        let start = grammar::section_start_at(bytes, pos, 0)->end;
        let text_start = grammar::u32_at(bytes, start)->end;
        let mid = grammar::name_at(bytes, start)->end;
        lemma_section_extent(bytes, pos);
        law_names_are_what_stands_there(bytes, start, text_start, mid, value);
    }
}

/// A section of any id is passed over as a whole from where it is written, and
/// nothing but a section with that id, of that size, is.
pub proof fn law_skipped_section_reads_back(bytes: Seq<u8>, pos: int, id: u8, contents: Seq<u8>)
    requires
        encoding::fits(contents.len()),
    ensures
        encoding::holds_at(bytes, pos, encoding::section(id, contents)) ==> grammar::any_section_at(
            bytes,
            pos,
        ) == (Outcome::Read { value: id, end: pos + encoding::section(id, contents).len() }),
        grammar::any_section_at(bytes, pos) matches Outcome::Read { value, end } ==> value
            == bytes[pos] && stands_sized(bytes, pos + 1, number_end(bytes, pos + 1), end),
{
    if encoding::holds_at(bytes, pos, encoding::section(id, contents)) {
        lemma_section_start_written(bytes, pos, id, contents);
    }
    if let Outcome::Read { value, end } = grammar::any_section_at(bytes, pos) {
        lemma_section_extent(bytes, pos);
    }
}

} // verus!
