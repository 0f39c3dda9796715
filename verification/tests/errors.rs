//! Each kind of error, its message, and where the readers stop.

use wasm_module::binary::{
    read_code_section, read_custom_section, read_export_section, read_function_section,
    read_header, read_import_section, read_start_section, read_type_section, skip_section,
    ParseError, ParseErrorKind,
};
use wasm_module::parse;

const HEADER: [u8; 8] = [0x00, 0x61, 0x73, 0x6D, 0x01, 0x00, 0x00, 0x00];

#[test]
fn messages_say_what_went_wrong_and_where() {
    let cases = [
        (ParseErrorKind::NotWasm, "not a wasm module (bad magic number) at offset 0"),
        (ParseErrorKind::UnsupportedVersion, "unsupported wasm version at offset 0"),
        (ParseErrorKind::UnexpectedEof, "unexpected end of input at offset 0"),
        (ParseErrorKind::Leb, "malformed LEB128 value at offset 0"),
        (ParseErrorKind::UnknownSectionId, "unknown or unsupported section id at offset 0"),
        (
            ParseErrorKind::SectionSizeMismatch,
            "section size does not match its contents at offset 0",
        ),
        (ParseErrorKind::InvalidValType, "not a valid value type at offset 0"),
        (ParseErrorKind::InvalidFuncType, "func type missing its 0x60 tag at offset 0"),
        (ParseErrorKind::InvalidExternKind, "not a valid import/export kind at offset 0"),
        (ParseErrorKind::InvalidLimits, "invalid table or memory limits at offset 0"),
        (ParseErrorKind::InvalidUtf8, "name is not valid utf-8 at offset 0"),
        (ParseErrorKind::TypeIndexOutOfRange, "type index out of range at offset 0"),
        (
            ParseErrorKind::FunctionCodeMismatch,
            "function and code section counts do not match at offset 0",
        ),
        (ParseErrorKind::ExportIndexOutOfRange, "export index out of range at offset 0"),
    ];
    for (kind, message) in cases {
        assert_eq!(ParseError { offset: 0, kind }.message(), message);
    }
}

#[test]
fn messages_write_the_offset_in_decimal() {
    for offset in [7, 10, 99, 100, 1234567890, usize::MAX] {
        assert_eq!(
            ParseError { offset, kind: ParseErrorKind::Leb }.message(),
            format!("malformed LEB128 value at offset {}", offset)
        );
    }
}

#[test]
fn the_version_is_judged_by_all_its_bytes() {
    let unsupported = Err(ParseError { offset: 4, kind: ParseErrorKind::UnsupportedVersion });
    assert_eq!(read_header(&[0x00, 0x61, 0x73, 0x6D, 0x01, 0x01, 0x00, 0x00]), unsupported);
    assert_eq!(read_header(&[0x00, 0x61, 0x73, 0x6D, 0x01, 0x00, 0x01, 0x00]), unsupported);
    assert_eq!(read_header(&[0x00, 0x61, 0x73, 0x6D, 0x01, 0x00, 0x00, 0x01]), unsupported);
    assert_eq!(read_header(&HEADER), Ok(1));
}

#[test]
fn a_failed_type_section_stops_at_the_byte_that_broke_parsing() {
    let inputs: [(&[u8], usize, ParseErrorKind); 7] = [
        (&[0x02, 0x01, 0x00], 0, ParseErrorKind::UnknownSectionId),
        (&[0x01, 0x80], 1, ParseErrorKind::Leb),
        (&[0x01, 0x05, 0x00], 3, ParseErrorKind::UnexpectedEof),
        (&[0x01, 0x04, 0x01, 0x61, 0x00, 0x00], 3, ParseErrorKind::InvalidFuncType),
        (&[0x01, 0x05, 0x01, 0x60, 0x01, 0x70, 0x00], 5, ParseErrorKind::InvalidValType),
        (&[0x01, 0x02, 0x00, 0x00], 3, ParseErrorKind::SectionSizeMismatch),
        (&[], 0, ParseErrorKind::UnexpectedEof),
    ];
    for (bytes, offset, kind) in inputs {
        let mut pos = 0;
        assert_eq!(read_type_section(bytes, &mut pos), Err(ParseError { offset, kind }));
        assert_eq!(pos, offset);
    }
}

#[test]
fn other_failed_sections_stop_where_the_read_got_to() {
    // The id and the size have been read when the id turns out to be wrong.
    let mut pos = 0;
    assert_eq!(
        read_start_section(&[0x01, 0x01, 0x00], &mut pos),
        Err(ParseError { offset: 0, kind: ParseErrorKind::UnknownSectionId })
    );
    assert_eq!(pos, 2);

    // The index has been read when it turns out not to fill the section.
    let mut pos = 0;
    assert_eq!(
        read_start_section(&[0x08, 0x02, 0x07, 0x00], &mut pos),
        Err(ParseError { offset: 3, kind: ParseErrorKind::SectionSizeMismatch })
    );
    assert_eq!(pos, 3);

    // The type index has been read when it turns out to be out of range.
    let mut pos = 0;
    assert_eq!(
        read_function_section(&[0x03, 0x02, 0x01, 0x05], &mut pos, 5),
        Err(ParseError { offset: 3, kind: ParseErrorKind::TypeIndexOutOfRange })
    );
    assert_eq!(pos, 4);
}

#[test]
fn limits_take_no_other_flag() {
    let bytes = [0x02, 0x07, 0x01, 0x01, b'm', 0x00, 0x02, 0x02, 0x00];
    let mut pos = 0;
    assert_eq!(
        read_import_section(&bytes, &mut pos, 0),
        Err(ParseError { offset: 7, kind: ParseErrorKind::InvalidLimits })
    );
}

#[test]
fn a_table_import_holds_function_references() {
    let bytes = [0x02, 0x08, 0x01, 0x01, b'm', 0x00, 0x01, 0x6F, 0x00, 0x00];
    let mut pos = 0;
    assert_eq!(
        read_import_section(&bytes, &mut pos, 0),
        Err(ParseError { offset: 7, kind: ParseErrorKind::InvalidExternKind })
    );
}

#[test]
fn a_global_import_is_mutable_or_not() {
    let bytes = [0x02, 0x07, 0x01, 0x01, b'm', 0x00, 0x03, 0x7F, 0x02];
    let mut pos = 0;
    assert_eq!(
        read_import_section(&bytes, &mut pos, 0),
        Err(ParseError { offset: 8, kind: ParseErrorKind::InvalidExternKind })
    );
}

#[test]
fn an_export_index_is_read_before_its_kind_is_judged() {
    // The kind is not a valid one, but the index does not decode either.
    let mut pos = 0;
    assert_eq!(
        read_export_section(&[0x07, 0x04, 0x01, 0x00, 0x04, 0x80], &mut pos),
        Err(ParseError { offset: 5, kind: ParseErrorKind::Leb })
    );
    let mut pos = 0;
    assert_eq!(
        read_export_section(&[0x07, 0x04, 0x01, 0x00, 0x04, 0x00], &mut pos),
        Err(ParseError { offset: 4, kind: ParseErrorKind::InvalidExternKind })
    );
}

#[test]
fn a_name_longer_than_the_input_is_cut_off() {
    let mut pos = 0;
    assert_eq!(
        read_export_section(&[0x07, 0x03, 0x01, 0x05, b'a'], &mut pos),
        Err(ParseError { offset: 5, kind: ParseErrorKind::UnexpectedEof })
    );
}

#[test]
fn a_huge_count_is_an_error_like_any_other() {
    // 4294967295 entries in a few bytes.
    let mut pos = 0;
    assert_eq!(
        read_function_section(&[0x03, 0x05, 0xFF, 0xFF, 0xFF, 0xFF, 0x0F], &mut pos, 1),
        Err(ParseError { offset: 7, kind: ParseErrorKind::Leb })
    );
}

#[test]
fn a_position_past_the_end_is_an_error() {
    let eof = ParseError { offset: 2, kind: ParseErrorKind::UnexpectedEof };
    let bytes = [0x01, 0x00];
    assert_eq!(read_type_section(&bytes, &mut 9), Err(eof));
    assert_eq!(read_import_section(&bytes, &mut 9, 0), Err(eof));
    assert_eq!(read_function_section(&bytes, &mut 9, 0), Err(eof));
    assert_eq!(read_export_section(&bytes, &mut 9), Err(eof));
    assert_eq!(read_start_section(&bytes, &mut usize::MAX), Err(eof));
    assert_eq!(read_code_section(&bytes, &mut 9, 0), Err(eof));
    assert_eq!(read_custom_section(&bytes, &mut 9), Err(eof));
    assert_eq!(skip_section(&bytes, &mut 9), Err(eof));
}

#[test]
fn parse_reports_the_error_of_the_section_that_fails() {
    let mut bytes = HEADER.to_vec();
    bytes.extend_from_slice(&[0x01, 0x04, 0x01, 0x60, 0x00, 0x00]);
    bytes.extend_from_slice(&[0x03, 0x02, 0x01, 0x01]);
    assert_eq!(
        parse(&bytes),
        Err(ParseError { offset: 17, kind: ParseErrorKind::TypeIndexOutOfRange })
    );
}
