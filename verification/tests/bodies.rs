//! Code sections, custom sections, and sections that are skipped.

use wasm_module::binary::{
    read_code_section, read_custom_section, read_import_section, skip_section, Code, Import,
    ImportDesc, Limits, LocalDecl, ParseError, ParseErrorKind, ValType,
};

#[test]
fn reads_bodies_with_and_without_locals() {
    let bytes = [
        0x0A, 0x0E, 0x02, // code section, 2 bodies
        0x08, 0x02, 0x03, 0x7F, 0x81, 0x01, 0x7C, 0x01, 0x0B, // 3 i32, 129 f64; nop, end
        0x03, 0x00, 0x01, 0x0B, // no locals; nop, end
    ];
    let mut pos = 0;
    assert_eq!(
        read_code_section(&bytes, &mut pos, 2),
        Ok(vec![
            Code {
                locals: vec![
                    LocalDecl { count: 3, val_type: ValType::I32 },
                    LocalDecl { count: 129, val_type: ValType::F64 },
                ],
                body: vec![0x01, 0x0B],
            },
            Code { locals: vec![], body: vec![0x01, 0x0B] },
        ])
    );
    assert_eq!(pos, bytes.len());
}

#[test]
fn reads_an_empty_code_section() {
    let mut pos = 0;
    assert_eq!(read_code_section(&[0x0A, 0x01, 0x00], &mut pos, 0), Ok(vec![]));
    assert_eq!(pos, 3);
}

#[test]
fn rejects_a_number_of_bodies_that_is_not_the_number_of_functions() {
    let bytes = [0x0A, 0x04, 0x01, 0x02, 0x00, 0x0B];
    for func_count in [0, 2, 3] {
        let mut pos = 0;
        assert_eq!(
            read_code_section(&bytes, &mut pos, func_count),
            Err(ParseError { offset: 2, kind: ParseErrorKind::FunctionCodeMismatch })
        );
    }
    let mut pos = 0;
    assert!(read_code_section(&bytes, &mut pos, 1).is_ok());
}

#[test]
fn rejects_a_body_that_overruns_the_input() {
    let mut pos = 0;
    assert_eq!(
        read_code_section(&[0x0A, 0x04, 0x01, 0x03, 0x00, 0x0B], &mut pos, 1),
        Err(ParseError { offset: 6, kind: ParseErrorKind::UnexpectedEof })
    );
}

#[test]
fn rejects_locals_that_overrun_their_body() {
    let mut pos = 0;
    assert_eq!(
        read_code_section(&[0x0A, 0x06, 0x01, 0x02, 0x01, 0x01, 0x7F, 0x0B], &mut pos, 1),
        Err(ParseError { offset: 7, kind: ParseErrorKind::SectionSizeMismatch })
    );
}

#[test]
fn rejects_a_local_of_no_value_type() {
    let mut pos = 0;
    assert_eq!(
        read_code_section(&[0x0A, 0x06, 0x01, 0x04, 0x01, 0x01, 0x40, 0x0B], &mut pos, 1),
        Err(ParseError { offset: 6, kind: ParseErrorKind::InvalidValType })
    );
}

#[test]
fn rejects_a_code_section_with_bytes_left_over() {
    let mut pos = 0;
    assert_eq!(
        read_code_section(&[0x0A, 0x05, 0x01, 0x02, 0x00, 0x0B, 0x00], &mut pos, 1),
        Err(ParseError { offset: 6, kind: ParseErrorKind::SectionSizeMismatch })
    );
}

#[test]
fn every_truncation_of_a_code_section_is_an_error() {
    let bytes = [0x0A, 0x06, 0x01, 0x04, 0x01, 0x01, 0x7F, 0x0B];
    let mut pos = 0;
    assert!(read_code_section(&bytes, &mut pos, 1).is_ok());
    for len in 0..bytes.len() {
        let mut pos = 0;
        assert!(read_code_section(&bytes[..len], &mut pos, 1).is_err());
    }
}

#[test]
fn reads_a_custom_section_for_its_name() {
    let bytes = [0xEE, 0x00, 0x05, 0x02, b'h', b'i', 0xFF, 0xFF, 0x01];
    let mut pos = 1;
    assert_eq!(read_custom_section(&bytes, &mut pos), Ok("hi".to_string()));
    assert_eq!(pos, 8);
}

#[test]
fn reads_names_of_more_than_one_byte_per_character() {
    // Two, three and four bytes per character.
    let name = "\u{e9}\u{20ac}\u{1d11e}";
    let mut bytes = vec![0x00, 0x0A, 0x09];
    bytes.extend_from_slice(name.as_bytes());
    let mut pos = 0;
    assert_eq!(read_custom_section(&bytes, &mut pos), Ok(name.to_string()));
    assert_eq!(pos, bytes.len());
}

#[test]
fn rejects_names_that_are_not_utf8() {
    let invalid: [&[u8]; 5] = [
        &[0x80],                   // a continuation byte first
        &[0xC3],                   // a character cut off
        &[0xC0, 0x80],             // not the shortest form
        &[0xED, 0xA0, 0x80],       // a surrogate
        &[0xF4, 0x90, 0x80, 0x80], // past the last code point
    ];
    for name in invalid {
        let mut bytes = vec![0x00, name.len() as u8 + 1, name.len() as u8];
        bytes.extend_from_slice(name);
        let mut pos = 0;
        assert_eq!(
            read_custom_section(&bytes, &mut pos),
            Err(ParseError { offset: 3, kind: ParseErrorKind::InvalidUtf8 })
        );
    }
}

#[test]
fn rejects_a_name_that_overruns_its_custom_section() {
    let mut pos = 0;
    assert_eq!(
        read_custom_section(&[0x00, 0x02, 0x02, b'h', b'i'], &mut pos),
        Err(ParseError { offset: 5, kind: ParseErrorKind::SectionSizeMismatch })
    );
}

#[test]
fn rejects_a_custom_section_with_another_id() {
    let mut pos = 0;
    assert_eq!(
        read_custom_section(&[0x01, 0x01, 0x00], &mut pos),
        Err(ParseError { offset: 0, kind: ParseErrorKind::UnknownSectionId })
    );
}

#[test]
fn skips_a_section_by_its_declared_size() {
    let bytes = [0x05, 0x03, 0xAA, 0xBB, 0xCC, 0x07];
    let mut pos = 0;
    assert_eq!(skip_section(&bytes, &mut pos), Ok(5));
    assert_eq!(pos, 5);
    let mut pos = 0;
    assert_eq!(
        skip_section(&bytes[..4], &mut pos),
        Err(ParseError { offset: 4, kind: ParseErrorKind::UnexpectedEof })
    );
}

#[test]
fn reads_limits_with_and_without_a_maximum() {
    let bytes = [
        0x02, 0x10, 0x02,
        0x01, b'a', 0x01, b'b', 0x02, 0x01, 0x02, 0x02, // memory, at least 2 and at most 2
        0x00, 0x00, 0x02, 0x00, 0x80, 0x01, // memory, at least 128
    ];
    let mut bytes = bytes.to_vec();
    bytes[1] = bytes.len() as u8 - 2;
    let mut pos = 0;
    assert_eq!(
        read_import_section(&bytes, &mut pos, 0),
        Ok(vec![
            Import {
                module: "a".to_string(),
                name: "b".to_string(),
                desc: ImportDesc::Memory(Limits { min: 2, max: Some(2) }),
            },
            Import {
                module: "".to_string(),
                name: "".to_string(),
                desc: ImportDesc::Memory(Limits { min: 128, max: None }),
            },
        ])
    );
}
