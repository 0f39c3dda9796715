//! The section readers, one section at a time.

use wasm_module::binary::{
    read_export_section, read_function_section, read_header, read_import_section,
    read_start_section, read_type_section, Export, ExportDesc, FuncType, Import, ImportDesc,
    Limits, ParseError, ParseErrorKind, ValType,
};

// The header from the `square` module in the README example.
const VALID: [u8; 8] = [0x00, 0x61, 0x73, 0x6D, 0x01, 0x00, 0x00, 0x00];

#[test]
fn accepts_a_well_formed_header() {
    assert_eq!(read_header(&VALID), Ok(1));
}

#[test]
fn accepts_trailing_bytes_after_the_header() {
    let mut bytes = VALID.to_vec();
    bytes.extend_from_slice(&[0x01, 0x00, 0x00, 0x00, 0x00]); // a section start
    assert_eq!(read_header(&bytes), Ok(1));
}

#[test]
fn rejects_wrong_magic() {
    let mut bytes = VALID;
    bytes[0] = 0x01;
    assert_eq!(
        read_header(&bytes),
        Err(ParseError { offset: 0, kind: ParseErrorKind::NotWasm })
    );
}

#[test]
fn rejects_text_input() {
    assert_eq!(
        read_header(b"(module)"),
        Err(ParseError { offset: 0, kind: ParseErrorKind::NotWasm })
    );
}

#[test]
fn rejects_unsupported_version() {
    let mut bytes = VALID;
    bytes[4] = 0x02;
    assert_eq!(
        read_header(&bytes),
        Err(ParseError { offset: 4, kind: ParseErrorKind::UnsupportedVersion })
    );
}

#[test]
fn rejects_truncated_magic() {
    assert_eq!(
        read_header(&VALID[..2]),
        Err(ParseError { offset: 2, kind: ParseErrorKind::UnexpectedEof })
    );
}

#[test]
fn rejects_truncated_version() {
    assert_eq!(
        read_header(&VALID[..6]),
        Err(ParseError { offset: 6, kind: ParseErrorKind::UnexpectedEof })
    );
}

#[test]
fn rejects_empty_input() {
    assert_eq!(
        read_header(&[]),
        Err(ParseError { offset: 0, kind: ParseErrorKind::UnexpectedEof })
    );
}

// (type (func (param i32 i32) (result i32)))
const ONE_TYPE: [u8; 9] = [
    0x01, 0x07, // section id 1, size 7
    0x01, // 1 type
    0x60, 0x02, 0x7F, 0x7F, // func, 2 params: i32 i32
    0x01, 0x7F, // 1 result: i32
];

#[test]
fn reads_a_single_func_type() {
    let mut pos = 0;
    assert_eq!(
        read_type_section(&ONE_TYPE, &mut pos),
        Ok(vec![FuncType { params: vec![ValType::I32, ValType::I32], results: vec![ValType::I32] }])
    );
    assert_eq!(pos, ONE_TYPE.len());
}

#[test]
fn reads_an_empty_type_section() {
    let bytes = [0x01, 0x01, 0x00]; // id 1, size 1, count 0
    let mut pos = 0;
    assert_eq!(read_type_section(&bytes, &mut pos), Ok(vec![]));
    assert_eq!(pos, bytes.len());
}

#[test]
fn reads_more_than_one_type() {
    // type 0: () -> (), type 1: (i32) -> (i64)
    let bytes = [
        0x01, 0x09, // section id 1, size 9
        0x02, // 2 types
        0x60, 0x00, 0x00, // func, no params, no results
        0x60, 0x01, 0x7F, 0x01, 0x7E, // func, 1 param i32, 1 result i64
    ];
    let mut pos = 0;
    assert_eq!(
        read_type_section(&bytes, &mut pos),
        Ok(vec![
            FuncType { params: vec![], results: vec![] },
            FuncType { params: vec![ValType::I32], results: vec![ValType::I64] },
        ])
    );
    assert_eq!(pos, bytes.len());
}

#[test]
fn rejects_a_section_id_that_is_not_type() {
    let mut bytes = ONE_TYPE;
    bytes[0] = 0x02; // import section id, not type
    let mut pos = 0;
    assert_eq!(
        read_type_section(&bytes, &mut pos),
        Err(ParseError { offset: 0, kind: ParseErrorKind::UnknownSectionId })
    );
}

#[test]
fn rejects_a_func_type_missing_its_tag() {
    let bytes = [0x01, 0x04, 0x01, 0x61, 0x00, 0x00]; // tag 0x61 instead of 0x60
    let mut pos = 0;
    assert_eq!(
        read_type_section(&bytes, &mut pos),
        Err(ParseError { offset: 3, kind: ParseErrorKind::InvalidFuncType })
    );
}

#[test]
fn rejects_an_invalid_val_type() {
    let bytes = [0x01, 0x05, 0x01, 0x60, 0x01, 0x7B, 0x00]; // 0x7B is not a value type
    let mut pos = 0;
    assert_eq!(
        read_type_section(&bytes, &mut pos),
        Err(ParseError { offset: 5, kind: ParseErrorKind::InvalidValType })
    );
}

#[test]
fn rejects_a_declared_size_that_is_too_small() {
    let bytes = [0x01, 0x02, 0x00, 0xFF]; // size says 2 bytes, count only takes 1
    let mut pos = 0;
    assert_eq!(
        read_type_section(&bytes, &mut pos),
        Err(ParseError { offset: 3, kind: ParseErrorKind::SectionSizeMismatch })
    );
}

#[test]
fn rejects_a_declared_size_that_overruns_the_input() {
    let bytes = [0x01, 0x05, 0x00]; // size says 5 bytes, only 1 remains
    let mut pos = 0;
    assert_eq!(
        read_type_section(&bytes, &mut pos),
        Err(ParseError { offset: bytes.len(), kind: ParseErrorKind::UnexpectedEof })
    );
}

#[test]
fn rejects_a_truncated_count() {
    let bytes = [0x01, 0x01, 0x80]; // count byte has its continuation bit set with no follow-up
    let mut pos = 0;
    assert_eq!(
        read_type_section(&bytes, &mut pos),
        Err(ParseError { offset: 2, kind: ParseErrorKind::Leb })
    );
}

#[test]
fn rejects_a_truncated_size() {
    let bytes = [0x01, 0x80]; // size byte has its continuation bit set with no follow-up
    let mut pos = 0;
    assert_eq!(
        read_type_section(&bytes, &mut pos),
        Err(ParseError { offset: 1, kind: ParseErrorKind::Leb })
    );
}

#[test]
fn every_single_byte_corruption_of_one_type_is_an_error_not_a_panic() {
    for i in 0..ONE_TYPE.len() {
        for bad in [0x00u8, 0xFFu8] {
            let mut bytes = ONE_TYPE;
            if bytes[i] == bad {
                continue;
            }
            bytes[i] = bad;
            let mut pos = 0;
            let _ = read_type_section(&bytes, &mut pos); // must not panic
        }
    }
}

#[test]
fn every_truncation_of_one_type_is_an_error_not_a_panic() {
    for i in 0..ONE_TYPE.len() {
        let mut pos = 0;
        let result = read_type_section(&ONE_TYPE[..i], &mut pos);
        assert!(result.is_err(), "truncation to {i} bytes should not parse");
    }
}

// (import "env" "double" (func (param i32) (result i32)))
const ONE_FUNC_IMPORT: [u8; 16] = [
    0x02, 0x0E, // section id 2, size 14
    0x01, // 1 import
    0x03, b'e', b'n', b'v', // module "env"
    0x06, b'd', b'o', b'u', b'b', b'l', b'e', // name "double"
    0x00, 0x00, // kind func, type index 0
];

#[test]
fn reads_a_single_func_import() {
    let mut pos = 0;
    assert_eq!(
        read_import_section(&ONE_FUNC_IMPORT, &mut pos, 1),
        Ok(vec![Import {
            module: "env".to_string(),
            name: "double".to_string(),
            desc: ImportDesc::Func(0),
        }])
    );
    assert_eq!(pos, ONE_FUNC_IMPORT.len());
}

#[test]
fn reads_table_memory_and_global_imports() {
    let bytes = [
        0x02, 0x18, // section id 2, size 24
        0x03, // 3 imports
        0x01, b'w', 0x01, b't', // module "w", name "t"
        0x01, 0x70, 0x00, 0x01, // table: funcref, limits {min:1, max:none}
        0x01, b'w', 0x01, b'm', // module "w", name "m"
        0x02, 0x01, 0x01, 0x02, // memory: limits {min:1, max:2}
        0x01, b'w', 0x01, b'g', // module "w", name "g"
        0x03, 0x7F, 0x01, // global: i32, mutable
    ];
    let mut pos = 0;
    assert_eq!(
        read_import_section(&bytes, &mut pos, 0),
        Ok(vec![
            Import {
                module: "w".to_string(),
                name: "t".to_string(),
                desc: ImportDesc::Table { element_type: 0x70, limits: Limits { min: 1, max: None } },
            },
            Import {
                module: "w".to_string(),
                name: "m".to_string(),
                desc: ImportDesc::Memory(Limits { min: 1, max: Some(2) }),
            },
            Import {
                module: "w".to_string(),
                name: "g".to_string(),
                desc: ImportDesc::Global { val_type: ValType::I32, mutable: true },
            },
        ])
    );
    assert_eq!(pos, bytes.len());
}

#[test]
fn rejects_an_unknown_import_kind() {
    let mut bytes = ONE_FUNC_IMPORT;
    bytes[14] = 0x04; // no such extern kind
    let mut pos = 0;
    assert_eq!(
        read_import_section(&bytes, &mut pos, 1),
        Err(ParseError { offset: 14, kind: ParseErrorKind::InvalidExternKind })
    );
}

#[test]
fn rejects_a_func_import_with_an_out_of_range_type_index() {
    let mut pos = 0;
    assert_eq!(
        read_import_section(&ONE_FUNC_IMPORT, &mut pos, 0), // no types declared
        Err(ParseError { offset: 15, kind: ParseErrorKind::TypeIndexOutOfRange })
    );
}

#[test]
fn rejects_limits_with_a_max_below_the_min() {
    let bytes = [
        0x02, 0x09, // section id 2, size 9
        0x01, // 1 import
        0x01, b'w', 0x01, b'm', // module "w", name "m"
        0x02, 0x01, 0x05, 0x01, // memory: limits {min:5, max:1}
    ];
    let mut pos = 0;
    assert_eq!(
        read_import_section(&bytes, &mut pos, 0),
        Err(ParseError { offset: 10, kind: ParseErrorKind::InvalidLimits })
    );
}

#[test]
fn rejects_a_name_that_is_not_utf8() {
    let bytes = [
        0x02, 0x07, // section id 2, size 7
        0x01, // 1 import
        0x01, 0xFF, // module: 1 byte, not valid utf-8
        0x01, b'x', // name "x"
        0x00, 0x00, // kind func, type index 0
    ];
    let mut pos = 0;
    assert_eq!(
        read_import_section(&bytes, &mut pos, 1),
        Err(ParseError { offset: 4, kind: ParseErrorKind::InvalidUtf8 })
    );
}

#[test]
fn every_single_byte_corruption_of_one_func_import_is_an_error_not_a_panic() {
    for i in 0..ONE_FUNC_IMPORT.len() {
        for bad in [0x00u8, 0xFFu8] {
            let mut bytes = ONE_FUNC_IMPORT;
            if bytes[i] == bad {
                continue;
            }
            bytes[i] = bad;
            let mut pos = 0;
            let _ = read_import_section(&bytes, &mut pos, 1); // must not panic
        }
    }
}

#[test]
fn every_truncation_of_one_func_import_is_an_error_not_a_panic() {
    for i in 0..ONE_FUNC_IMPORT.len() {
        let mut pos = 0;
        let result = read_import_section(&ONE_FUNC_IMPORT[..i], &mut pos, 1);
        assert!(result.is_err(), "truncation to {i} bytes should not parse");
    }
}

#[test]
fn reads_function_section_entries() {
    let bytes = [
        0x03, 0x03, // section id 3, size 3
        0x02, // 2 functions
        0x00, 0x01, // type indices 0 and 1
    ];
    let mut pos = 0;
    assert_eq!(read_function_section(&bytes, &mut pos, 2), Ok(vec![0, 1]));
    assert_eq!(pos, bytes.len());
}

#[test]
fn reads_an_empty_function_section() {
    let bytes = [0x03, 0x01, 0x00]; // id 3, size 1, count 0
    let mut pos = 0;
    assert_eq!(read_function_section(&bytes, &mut pos, 0), Ok(vec![]));
    assert_eq!(pos, bytes.len());
}

#[test]
fn rejects_a_function_section_type_index_out_of_range() {
    let bytes = [0x03, 0x02, 0x01, 0x00]; // 1 function, type index 0, but 0 types exist
    let mut pos = 0;
    assert_eq!(
        read_function_section(&bytes, &mut pos, 0),
        Err(ParseError { offset: 3, kind: ParseErrorKind::TypeIndexOutOfRange })
    );
}

#[test]
fn rejects_a_function_section_id_that_is_not_function() {
    let bytes = [0x02, 0x01, 0x00]; // import section id, not function
    let mut pos = 0;
    assert_eq!(
        read_function_section(&bytes, &mut pos, 0),
        Err(ParseError { offset: 0, kind: ParseErrorKind::UnknownSectionId })
    );
}

#[test]
fn every_truncation_of_two_funcs_is_an_error_not_a_panic() {
    let bytes = [0x03, 0x03, 0x02, 0x00, 0x01];
    for i in 0..bytes.len() {
        let mut pos = 0;
        let result = read_function_section(&bytes[..i], &mut pos, 2);
        assert!(result.is_err(), "truncation to {i} bytes should not parse");
    }
}

// (export "square" (func 0))
const ONE_FUNC_EXPORT: [u8; 12] = [
    0x07, 0x0A, // section id 7, size 10
    0x01, // 1 export
    0x06, b's', b'q', b'u', b'a', b'r', b'e', // name "square"
    0x00, 0x00, // kind func, index 0
];

#[test]
fn reads_a_single_func_export() {
    let mut pos = 0;
    assert_eq!(
        read_export_section(&ONE_FUNC_EXPORT, &mut pos),
        Ok(vec![Export { name: "square".to_string(), desc: ExportDesc::Func(0) }])
    );
    assert_eq!(pos, ONE_FUNC_EXPORT.len());
}

#[test]
fn reads_table_memory_and_global_exports() {
    let bytes = [
        0x07, 0x0D, // section id 7, size 13
        0x03, // 3 exports
        0x01, b't', 0x01, 0x00, // name "t", kind table, index 0
        0x01, b'm', 0x02, 0x00, // name "m", kind memory, index 0
        0x01, b'g', 0x03, 0x01, // name "g", kind global, index 1
    ];
    let mut pos = 0;
    assert_eq!(
        read_export_section(&bytes, &mut pos),
        Ok(vec![
            Export { name: "t".to_string(), desc: ExportDesc::Table(0) },
            Export { name: "m".to_string(), desc: ExportDesc::Memory(0) },
            Export { name: "g".to_string(), desc: ExportDesc::Global(1) },
        ])
    );
    assert_eq!(pos, bytes.len());
}

#[test]
fn reads_an_empty_export_section() {
    let bytes = [0x07, 0x01, 0x00]; // id 7, size 1, count 0
    let mut pos = 0;
    assert_eq!(read_export_section(&bytes, &mut pos), Ok(vec![]));
    assert_eq!(pos, bytes.len());
}

#[test]
fn rejects_an_unknown_export_kind() {
    let mut bytes = ONE_FUNC_EXPORT;
    bytes[10] = 0x04; // no such extern kind
    let mut pos = 0;
    assert_eq!(
        read_export_section(&bytes, &mut pos),
        Err(ParseError { offset: 10, kind: ParseErrorKind::InvalidExternKind })
    );
}

#[test]
fn rejects_an_export_section_id_that_is_not_export() {
    let bytes = [0x03, 0x01, 0x00]; // function section id, not export
    let mut pos = 0;
    assert_eq!(
        read_export_section(&bytes, &mut pos),
        Err(ParseError { offset: 0, kind: ParseErrorKind::UnknownSectionId })
    );
}

#[test]
fn every_single_byte_corruption_of_one_func_export_is_an_error_not_a_panic() {
    for i in 0..ONE_FUNC_EXPORT.len() {
        for bad in [0x00u8, 0xFFu8] {
            let mut bytes = ONE_FUNC_EXPORT;
            if bytes[i] == bad {
                continue;
            }
            bytes[i] = bad;
            let mut pos = 0;
            let _ = read_export_section(&bytes, &mut pos); // must not panic
        }
    }
}

#[test]
fn every_truncation_of_one_func_export_is_an_error_not_a_panic() {
    for i in 0..ONE_FUNC_EXPORT.len() {
        let mut pos = 0;
        let result = read_export_section(&ONE_FUNC_EXPORT[..i], &mut pos);
        assert!(result.is_err(), "truncation to {i} bytes should not parse");
    }
}

#[test]
fn reads_a_start_section() {
    let bytes = [0x08, 0x01, 0x02]; // section id 8, size 1, function index 2
    let mut pos = 0;
    assert_eq!(read_start_section(&bytes, &mut pos), Ok(2));
    assert_eq!(pos, bytes.len());
}

#[test]
fn rejects_a_start_section_id_that_is_not_start() {
    let bytes = [0x07, 0x01, 0x00]; // export section id, not start
    let mut pos = 0;
    assert_eq!(
        read_start_section(&bytes, &mut pos),
        Err(ParseError { offset: 0, kind: ParseErrorKind::UnknownSectionId })
    );
}

#[test]
fn rejects_a_start_section_size_that_does_not_match_its_index() {
    let bytes = [0x08, 0x02, 0x00, 0x00]; // size says 2 bytes, index only takes 1
    let mut pos = 0;
    assert_eq!(
        read_start_section(&bytes, &mut pos),
        Err(ParseError { offset: 3, kind: ParseErrorKind::SectionSizeMismatch })
    );
}

#[test]
fn every_truncation_of_a_start_section_is_an_error_not_a_panic() {
    let bytes = [0x08, 0x01, 0x02];
    for i in 0..bytes.len() {
        let mut pos = 0;
        let result = read_start_section(&bytes[..i], &mut pos);
        assert!(result.is_err(), "truncation to {i} bytes should not parse");
    }
}
