//! Whole modules.

use wasm_module::binary;
use wasm_module::binary::{
    Export, ExportDesc, FuncType, ImportDesc, ParseError, ParseErrorKind, ValType,
};
use wasm_module::{parse, Func};

// (module (func (export "square") (param i32) (result i32)
//   local.get 0  local.get 0  i32.mul))
const SQUARE: [u8; 43] = [
    0x00, 0x61, 0x73, 0x6D, 0x01, 0x00, 0x00, 0x00,
    0x01, 0x06, 0x01, 0x60, 0x01, 0x7F, 0x01, 0x7F,
    0x03, 0x02, 0x01, 0x00,
    0x07, 0x0A, 0x01, 0x06, 0x73, 0x71, 0x75, 0x61, 0x72, 0x65, 0x00, 0x00,
    0x0A, 0x09, 0x01, 0x07, 0x00, 0x20, 0x00, 0x20, 0x00, 0x6C, 0x0B,
];

#[test]
fn parses_the_readme_square_example() {
    let module = parse(&SQUARE).unwrap();
    assert_eq!(
        module.types,
        vec![FuncType { params: vec![ValType::I32], results: vec![ValType::I32] }]
    );
    assert_eq!(module.imports, vec![]);
    assert_eq!(
        module.funcs,
        vec![Func { type_index: 0, locals: vec![], body: vec![0x20, 0x00, 0x20, 0x00, 0x6C, 0x0B] }]
    );
    assert_eq!(
        module.exports,
        vec![Export { name: "square".to_string(), desc: ExportDesc::Func(0) }]
    );
    assert_eq!(module.start, None);
    assert_eq!(module.skipped_sections, vec![]);
}

#[test]
fn parses_a_module_with_only_a_header() {
    let bytes = [0x00, 0x61, 0x73, 0x6D, 0x01, 0x00, 0x00, 0x00];
    let module = parse(&bytes).unwrap();
    assert_eq!(module.types, vec![]);
    assert_eq!(module.imports, vec![]);
    assert_eq!(module.funcs, vec![]);
    assert_eq!(module.exports, vec![]);
    assert_eq!(module.start, None);
}

#[test]
fn parses_an_imported_function_alongside_a_local_one() {
    // (import "env" "double" (func (param i32) (result i32)))
    // (func (export "run") (param i32) (result i32) local.get 0 end)
    let bytes = [
        0x00, 0x61, 0x73, 0x6D, 0x01, 0x00, 0x00, 0x00,
        0x01, 0x06, 0x01, 0x60, 0x01, 0x7F, 0x01, 0x7F, // type 0: (i32) -> i32
        0x02, 0x0E, 0x01, // import section, 1 import
        0x03, b'e', b'n', b'v', 0x06, b'd', b'o', b'u', b'b', b'l', b'e', 0x00, 0x00,
        0x03, 0x02, 0x01, 0x00, // function section: 1 func, type 0
        0x07, 0x07, 0x01, 0x03, b'r', b'u', b'n', 0x00, 0x01, // export "run" -> func 1
        0x0A, 0x06, 0x01, 0x04, 0x00, 0x20, 0x00, 0x0B, // code: no locals, local.get 0, end
    ];
    let module = parse(&bytes).unwrap();
    assert_eq!(
        module.imports,
        vec![binary::Import {
            module: "env".to_string(),
            name: "double".to_string(),
            desc: ImportDesc::Func(0),
        }]
    );
    assert_eq!(module.funcs, vec![Func { type_index: 0, locals: vec![], body: vec![0x20, 0x00, 0x0B] }]);
    assert_eq!(module.exports, vec![Export { name: "run".to_string(), desc: ExportDesc::Func(1) }]);
}

#[test]
fn parses_a_module_with_skippable_sections_and_a_start_function() {
    let bytes = [
        0x00, 0x61, 0x73, 0x6D, 0x01, 0x00, 0x00, 0x00,
        0x04, 0x04, 0x01, 0x70, 0x00, 0x00, // table: funcref, limits {min:0}
        0x05, 0x03, 0x01, 0x00, 0x01, // memory: limits {min:1}
        0x08, 0x01, 0x00, // start: func 0
        0x0B, 0x02, 0x00, 0x00, // data: 1 entry, elided contents
    ];
    let module = parse(&bytes).unwrap();
    assert_eq!(module.start, Some(0));
    assert_eq!(
        module.skipped_sections,
        vec![binary::SECTION_ID_TABLE, binary::SECTION_ID_MEMORY, binary::SECTION_ID_DATA]
    );
}

#[test]
fn collects_a_custom_section_name_before_the_type_section() {
    let mut bytes = vec![0x00, 0x61, 0x73, 0x6D, 0x01, 0x00, 0x00, 0x00];
    bytes.extend_from_slice(&[0x00, 0x05, 0x04, b'n', b'a', b'm', b'e']); // custom "name"
    let module = parse(&bytes).unwrap();
    assert_eq!(module.custom_sections, vec!["name".to_string()]);
    assert_eq!(module.skipped_sections, Vec::<u8>::new());
}

#[test]
fn collects_custom_sections_interspersed_between_every_other_section() {
    let bytes = [
        0x00, 0x61, 0x73, 0x6D, 0x01, 0x00, 0x00, 0x00,
        0x00, 0x04, 0x03, b'p', b'r', b'e', // custom "pre", before the type section
        0x01, 0x04, 0x01, 0x60, 0x00, 0x00, // type 0: () -> ()
        0x00, 0x04, 0x03, b'm', b'i', b'd', // custom "mid", between type and function
        0x03, 0x02, 0x01, 0x00, // function section: 1 func, type 0
        0x00, 0x05, 0x04, b'p', b'o', b's', b't', // custom "post", after function
        0x0A, 0x04, 0x01, 0x02, 0x00, 0x0B, // code: no locals, end
    ];
    let module = parse(&bytes).unwrap();
    assert_eq!(
        module.custom_sections,
        vec!["pre".to_string(), "mid".to_string(), "post".to_string()]
    );
}

#[test]
fn collects_a_run_of_consecutive_custom_sections() {
    let mut bytes = vec![0x00, 0x61, 0x73, 0x6D, 0x01, 0x00, 0x00, 0x00];
    bytes.extend_from_slice(&[0x00, 0x02, 0x01, b'a']); // custom "a"
    bytes.extend_from_slice(&[0x00, 0x02, 0x01, b'b']); // custom "b"
    let module = parse(&bytes).unwrap();
    assert_eq!(module.custom_sections, vec!["a".to_string(), "b".to_string()]);
}

#[test]
fn rejects_a_bad_header_before_looking_at_any_sections() {
    assert_eq!(
        parse(b"not wasm"),
        Err(ParseError { offset: 0, kind: ParseErrorKind::NotWasm })
    );
}

#[test]
fn rejects_a_function_section_with_no_matching_code_section() {
    let bytes = [
        0x00, 0x61, 0x73, 0x6D, 0x01, 0x00, 0x00, 0x00,
        0x01, 0x04, 0x01, 0x60, 0x00, 0x00, // type 0: () -> ()
        0x03, 0x02, 0x01, 0x00, // function section: 1 func, type 0, no code section follows
    ];
    assert_eq!(
        parse(&bytes),
        Err(ParseError { offset: 18, kind: ParseErrorKind::FunctionCodeMismatch })
    );
}

#[test]
fn rejects_trailing_bytes_that_are_not_a_recognized_section() {
    let mut bytes = vec![0x00, 0x61, 0x73, 0x6D, 0x01, 0x00, 0x00, 0x00];
    bytes.extend_from_slice(&[0x0D, 0x01, 0xAB]); // section id 13 - not a real section id
    assert_eq!(
        parse(&bytes),
        Err(ParseError { offset: 8, kind: ParseErrorKind::UnknownSectionId })
    );
}
