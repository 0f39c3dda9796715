//! Exports name things that the module has.

use wasm_module::binary::{Export, ExportDesc, ParseError, ParseErrorKind};
use wasm_module::{parse, Module};

const TYPE: [u8; 6] = [0x01, 0x04, 0x01, 0x60, 0x00, 0x00];
const FUNCTION: [u8; 4] = [0x03, 0x02, 0x01, 0x00];
const CODE: [u8; 6] = [0x0A, 0x04, 0x01, 0x02, 0x00, 0x0B];
const TABLE: [u8; 6] = [0x04, 0x04, 0x01, 0x70, 0x00, 0x00];
const MEMORY: [u8; 5] = [0x05, 0x03, 0x01, 0x00, 0x01];
const GLOBAL: [u8; 3] = [0x06, 0x01, 0x00];

/// Two funcs, a table, a memory and a global, all without names.
const IMPORT: [u8; 27] = [
    0x02, 0x19, 0x05, // import section, 5 imports
    0x00, 0x00, 0x00, 0x00, // func of type 0
    0x00, 0x00, 0x02, 0x00, 0x01, // memory
    0x00, 0x00, 0x01, 0x70, 0x00, 0x01, // table
    0x00, 0x00, 0x03, 0x7F, 0x00, // global
    0x00, 0x00, 0x00, 0x00, // func of type 0
];

/// An export section with one export, called "f".
fn export(kind: u8, index: u8) -> Vec<u8> {
    vec![0x07, 0x05, 0x01, 0x01, b'f', kind, index]
}

/// Parses the header and then these sections.
fn parse_sections(sections: &[&[u8]]) -> (Result<Module, ParseError>, usize) {
    let mut bytes = vec![0x00, 0x61, 0x73, 0x6D, 0x01, 0x00, 0x00, 0x00];
    for section in sections {
        bytes.extend_from_slice(section);
    }
    (parse(&bytes), bytes.len())
}

/// Checks that the exports of a module with these sections, all accepted, are
/// exactly this one.
fn check_accepted(sections: &[&[u8]], desc: ExportDesc) {
    let (res, _) = parse_sections(sections);
    assert_eq!(res.unwrap().exports, vec![Export { name: "f".to_string(), desc }]);
}

/// Checks that these sections are rejected for an export, at the end of the input.
fn check_rejected(sections: &[&[u8]]) {
    let (res, len) = parse_sections(sections);
    assert_eq!(res, Err(ParseError { offset: len, kind: ParseErrorKind::ExportIndexOutOfRange }));
}

#[test]
fn rejects_a_func_export_without_any_function() {
    let bytes = [0x00, 0x61, 0x73, 0x6D, 1, 0, 0, 0, 7, 5, 1, 1, 0x66, 0, 0];
    assert_eq!(
        parse(&bytes),
        Err(ParseError { offset: 15, kind: ParseErrorKind::ExportIndexOutOfRange })
    );
}

#[test]
fn a_func_export_names_an_imported_or_a_local_function() {
    for index in 0..3 {
        check_accepted(
            &[&TYPE, &IMPORT, &FUNCTION, &export(0, index), &CODE],
            ExportDesc::Func(index as u32),
        );
    }
    check_rejected(&[&TYPE, &IMPORT, &FUNCTION, &export(0, 3), &CODE]);
}

#[test]
fn a_func_export_may_name_an_imported_function_alone() {
    check_accepted(&[&TYPE, &IMPORT, &export(0, 1)], ExportDesc::Func(1));
    check_rejected(&[&TYPE, &IMPORT, &export(0, 2)]);
}

#[test]
fn other_exports_name_what_is_imported() {
    check_accepted(&[&TYPE, &IMPORT, &export(1, 0)], ExportDesc::Table(0));
    check_accepted(&[&TYPE, &IMPORT, &export(2, 0)], ExportDesc::Memory(0));
    check_accepted(&[&TYPE, &IMPORT, &export(3, 0)], ExportDesc::Global(0));
    for kind in 1..4 {
        check_rejected(&[&TYPE, &IMPORT, &export(kind, 1)]);
        check_rejected(&[&export(kind, 0)]);
    }
}

#[test]
fn an_index_into_a_skipped_section_is_left_open() {
    check_accepted(&[&TABLE, &export(1, 9)], ExportDesc::Table(9));
    check_accepted(&[&MEMORY, &export(2, 9)], ExportDesc::Memory(9));
    check_accepted(&[&GLOBAL, &export(3, 9)], ExportDesc::Global(9));
    // A section of another kind leaves nothing open.
    check_rejected(&[&TABLE, &export(2, 0)]);
    check_rejected(&[&MEMORY, &export(3, 0)]);
    check_rejected(&[&GLOBAL, &export(1, 0)]);
    check_rejected(&[&TABLE, &MEMORY, &GLOBAL, &export(0, 0)]);
}

#[test]
fn one_bad_export_among_good_ones_is_enough() {
    let exports = [0x07, 0x07, 0x02, 0x00, 0x00, 0x00, 0x00, 0x00, 0x02];
    check_rejected(&[&TYPE, &IMPORT, &exports]);
}

#[test]
fn exports_are_judged_last() {
    let (res, _) = parse_sections(&[&export(0, 0), &[0x0D, 0x00]]);
    assert_eq!(res, Err(ParseError { offset: 15, kind: ParseErrorKind::UnknownSectionId }));
    let (res, _) = parse_sections(&[&TYPE, &FUNCTION, &export(0, 9)]);
    assert_eq!(res, Err(ParseError { offset: 25, kind: ParseErrorKind::FunctionCodeMismatch }));
}
