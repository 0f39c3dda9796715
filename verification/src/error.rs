//! What the parser reports when it rejects its input.

use vstd::prelude::*;

verus! {

/// Why parsing failed, and where.
#[derive(Debug, Clone, Copy, PartialEq, Eq, Structural)]
pub struct ParseError {
    /// The byte offset that broke parsing.
    pub offset: usize,
    /// What went wrong there.
    pub kind: ParseErrorKind,
}

/// The ways in which an input can fail to be a module.
#[derive(Debug, Clone, Copy, PartialEq, Eq, Structural)]
pub enum ParseErrorKind {
    /// The first four bytes are not `\0asm`.
    NotWasm,
    /// The version field is not one this crate implements.
    UnsupportedVersion,
    /// The input ended before a required byte.
    UnexpectedEof,
    /// A LEB128 immediate did not decode; see [`crate::leb::LebError`].
    Leb,
    /// A section id this crate does not know how to read at that place.
    UnknownSectionId,
    /// A section's (or a function body's) declared size does not match the
    /// bytes it actually took to decode its contents.
    SectionSizeMismatch,
    /// A byte where a value type was expected is not one of `i32`/`i64`/
    /// `f32`/`f64`.
    InvalidValType,
    /// A func type did not open with the `0x60` tag.
    InvalidFuncType,
    /// An import's or export's kind tag was not one of func/table/memory/
    /// global, or a tag-specific byte that follows it (a table's element type,
    /// a global's mutability flag) was not one of its valid values.
    InvalidExternKind,
    /// A table or memory's limits had a flag other than 0/1, or declared a
    /// maximum smaller than its minimum.
    InvalidLimits,
    /// A name was not valid UTF-8.
    InvalidUtf8,
    /// A type index referenced by an import or a function was not within the
    /// bounds of the type section.
    TypeIndexOutOfRange,
    /// The code section does not hold exactly one body for each function that
    /// the function section declares.
    FunctionCodeMismatch,
    /// An export's index was not within the bounds of the index space of its
    /// kind. This shows only once the whole module is read, so the offset is the
    /// end of the input.
    ExportIndexOutOfRange,
}

impl ParseErrorKind {
    /// What went wrong, in words.
    pub open spec fn description(self) -> Seq<char> {
        match self {
            ParseErrorKind::NotWasm => "not a wasm module (bad magic number)"@,
            ParseErrorKind::UnsupportedVersion => "unsupported wasm version"@,
            ParseErrorKind::UnexpectedEof => "unexpected end of input"@,
            ParseErrorKind::Leb => "malformed LEB128 value"@,
            ParseErrorKind::UnknownSectionId => "unknown or unsupported section id"@,
            ParseErrorKind::SectionSizeMismatch => "section size does not match its contents"@,
            ParseErrorKind::InvalidValType => "not a valid value type"@,
            ParseErrorKind::InvalidFuncType => "func type missing its 0x60 tag"@,
            ParseErrorKind::InvalidExternKind => "not a valid import/export kind"@,
            ParseErrorKind::InvalidLimits => "invalid table or memory limits"@,
            ParseErrorKind::InvalidUtf8 => "name is not valid utf-8"@,
            ParseErrorKind::TypeIndexOutOfRange => "type index out of range"@,
            ParseErrorKind::FunctionCodeMismatch =>
                "function and code section counts do not match"@,
            ParseErrorKind::ExportIndexOutOfRange => "export index out of range"@,
        }
    }

    /// Returns what went wrong, in words.
    pub fn describe(self) -> (text: &'static str)
        ensures
            text@ == self.description(),
    {
        match self {
            ParseErrorKind::NotWasm => "not a wasm module (bad magic number)",
            ParseErrorKind::UnsupportedVersion => "unsupported wasm version",
            ParseErrorKind::UnexpectedEof => "unexpected end of input",
            ParseErrorKind::Leb => "malformed LEB128 value",
            ParseErrorKind::UnknownSectionId => "unknown or unsupported section id",
            ParseErrorKind::SectionSizeMismatch => "section size does not match its contents",
            ParseErrorKind::InvalidValType => "not a valid value type",
            ParseErrorKind::InvalidFuncType => "func type missing its 0x60 tag",
            ParseErrorKind::InvalidExternKind => "not a valid import/export kind",
            ParseErrorKind::InvalidLimits => "invalid table or memory limits",
            ParseErrorKind::InvalidUtf8 => "name is not valid utf-8",
            ParseErrorKind::TypeIndexOutOfRange => "type index out of range",
            ParseErrorKind::FunctionCodeMismatch => "function and code section counts do not match",
            ParseErrorKind::ExportIndexOutOfRange => "export index out of range",
        }
    }
}

/// The decimal digit `d` as a character.
pub open spec fn digit_char(d: nat) -> char {
    (('0' as u32) + d) as char
}

/// `n` in decimal, without leading zeros.
pub open spec fn decimal(n: nat) -> Seq<char>
    decreases n,
{
    if n < 10 {
        seq![digit_char(n)]
    } else {
        decimal(n / 10).push(digit_char(n % 10))
    }
}

/// Returns the decimal digit `d` as a one-character string.
fn digit_str(d: usize) -> (text: &'static str)
    requires
        d < 10,
    ensures
        text@ == seq![digit_char(d as nat)],
{
    proof {
        reveal_strlit("0");
        reveal_strlit("1");
        reveal_strlit("2");
        reveal_strlit("3");
        reveal_strlit("4");
        reveal_strlit("5");
        reveal_strlit("6");
        reveal_strlit("7");
        reveal_strlit("8");
        reveal_strlit("9");
    }
    if d == 0 {
        "0"
    } else if d == 1 {
        "1"
    } else if d == 2 {
        "2"
    } else if d == 3 {
        "3"
    } else if d == 4 {
        "4"
    } else if d == 5 {
        "5"
    } else if d == 6 {
        "6"
    } else if d == 7 {
        "7"
    } else if d == 8 {
        "8"
    } else {
        "9"
    }
}

/// Appends `n` in decimal to `text`.
fn append_decimal(text: &mut String, n: usize)
    ensures
        final(text)@ == old(text)@ + decimal(n as nat),
    decreases n,
{
    if n >= 10 {
        append_decimal(text, n / 10);
    }
    text.append(digit_str(n % 10));
}

impl ParseError {
    /// The message for this error: what went wrong, and the offset in decimal.
    pub open spec fn spec_message(self) -> Seq<char> {
        self.kind.description() + " at offset "@ + decimal(self.offset as nat)
    }

    /// Returns the message for this error: what went wrong, and at which
    /// offset.
    pub fn message(&self) -> (text: String)
        ensures
            text@ == self.spec_message(),
    {
        let mut text: String = String::from_str(self.kind.describe());
        text.append(" at offset ");
        append_decimal(&mut text, self.offset);
        text
    }
}

} // verus!
