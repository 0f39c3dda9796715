//! What holds of the library as a whole, on concrete inputs.

use wasm_module::binary::{
    read_code_section, read_custom_section, read_export_section, read_function_section,
    read_header, read_import_section, read_start_section, read_type_section, skip_section,
    ImportDesc, ParseError, ParseErrorKind,
};
use wasm_module::{parse, Module};

const HEADER: [u8; 8] = [0x00, 0x61, 0x73, 0x6D, 0x01, 0x00, 0x00, 0x00];

const TYPE: [u8; 6] = [0x01, 0x04, 0x01, 0x60, 0x00, 0x00];
const IMPORT: [u8; 8] = [0x02, 0x06, 0x01, 0x01, b'm', 0x00, 0x00, 0x00];
const FUNCTION: [u8; 4] = [0x03, 0x02, 0x01, 0x00];
const TABLE: [u8; 6] = [0x04, 0x04, 0x01, 0x70, 0x00, 0x00];
const MEMORY: [u8; 5] = [0x05, 0x03, 0x01, 0x00, 0x01];
const GLOBAL: [u8; 3] = [0x06, 0x01, 0x00];
const EXPORT: [u8; 7] = [0x07, 0x05, 0x01, 0x01, b'e', 0x00, 0x01];
const START: [u8; 3] = [0x08, 0x01, 0x01];
const ELEMENT: [u8; 3] = [0x09, 0x01, 0x00];
const DATA_COUNT: [u8; 3] = [0x0C, 0x01, 0x00];
const CODE: [u8; 6] = [0x0A, 0x04, 0x01, 0x02, 0x00, 0x0B];
const DATA: [u8; 3] = [0x0B, 0x01, 0x00];
const CUSTOM: [u8; 5] = [0x00, 0x03, 0x01, b'c', 0xFF];

/// Every section but custom ones, in the format's order.
fn all_sections() -> Vec<Vec<u8>> {
    vec![
        TYPE.to_vec(),
        IMPORT.to_vec(),
        FUNCTION.to_vec(),
        TABLE.to_vec(),
        MEMORY.to_vec(),
        GLOBAL.to_vec(),
        EXPORT.to_vec(),
        START.to_vec(),
        ELEMENT.to_vec(),
        DATA_COUNT.to_vec(),
        CODE.to_vec(),
        DATA.to_vec(),
    ]
}

/// The header and then these sections.
fn module_of(sections: &[Vec<u8>]) -> Vec<u8> {
    let mut bytes = HEADER.to_vec();
    for section in sections {
        bytes.extend_from_slice(section);
    }
    bytes
}

/// Checks that a section reads the same wherever it stands, and is an error when
/// it is cut off.
fn check_section<T: PartialEq + std::fmt::Debug>(
    section: &[u8],
    read: fn(&[u8], &mut usize) -> Result<T, ParseError>,
) {
    let mut pos = 0;
    let alone = read(section, &mut pos).unwrap();
    assert_eq!(pos, section.len());

    let mut longer = vec![0xEE, 0xEE, 0xEE];
    longer.extend_from_slice(section);
    longer.extend_from_slice(&[0xDD, 0xDD]);
    let mut pos = 3;
    assert_eq!(read(&longer, &mut pos), Ok(alone));
    assert_eq!(pos, 3 + section.len());

    for len in 0..section.len() {
        let mut pos = 0;
        let error = read(&section[..len], &mut pos).unwrap_err();
        assert!(error.offset <= len);
        assert!(pos <= len);
    }
}

#[test]
fn the_header_is_judged_by_its_eight_bytes() {
    for rest in [&[][..], &[0xFF], &[0x01, 0x00]] {
        let mut bytes = HEADER.to_vec();
        bytes.extend_from_slice(rest);
        assert_eq!(read_header(&bytes), Ok(1));
    }
}

#[test]
fn a_bad_header_comes_before_bad_sections() {
    let mut bytes = vec![0x00, 0x61, 0x73, 0x6D, 0x02, 0x00, 0x00, 0x00];
    bytes.extend_from_slice(&[0xFF, 0xFF]);
    assert_eq!(
        parse(&bytes),
        Err(ParseError { offset: 4, kind: ParseErrorKind::UnsupportedVersion })
    );
}

#[test]
fn sections_depend_on_their_own_bytes_only_and_fail_when_cut_off() {
    check_section(&TYPE, read_type_section);
    check_section(&IMPORT, |bytes, pos| read_import_section(bytes, pos, 1));
    check_section(&FUNCTION, |bytes, pos| read_function_section(bytes, pos, 1));
    check_section(&EXPORT, read_export_section);
    check_section(&START, read_start_section);
    check_section(&CODE, |bytes, pos| read_code_section(bytes, pos, 1));
    check_section(&CUSTOM, read_custom_section);
    check_section(&TABLE, skip_section);
}

#[test]
fn all_sections_in_order_make_a_module() {
    let module = parse(&module_of(&all_sections())).unwrap();
    assert_eq!(module.types.len(), 1);
    assert_eq!(module.imports.len(), 1);
    assert_eq!(module.funcs.len(), 1);
    assert_eq!(module.exports.len(), 1);
    assert_eq!(module.start, Some(1));
    assert_eq!(module.skipped_sections, vec![4, 5, 6, 9, 12, 11]);
    assert_eq!(module.custom_sections, Vec::<String>::new());
}

#[test]
fn sections_out_of_order_are_rejected() {
    // Any two neighbours swapped, with nothing declared that needs code.
    let sections: Vec<Vec<u8>> = vec![
        vec![0x01, 0x01, 0x00],
        vec![0x02, 0x01, 0x00],
        vec![0x03, 0x01, 0x00],
        TABLE.to_vec(),
        MEMORY.to_vec(),
        GLOBAL.to_vec(),
        vec![0x07, 0x01, 0x00],
        START.to_vec(),
        ELEMENT.to_vec(),
        DATA_COUNT.to_vec(),
        vec![0x0A, 0x01, 0x00],
        DATA.to_vec(),
    ];
    assert!(parse(&module_of(&sections)).is_ok());
    for i in 0..sections.len() - 1 {
        let mut swapped = sections.clone();
        swapped.swap(i, i + 1);
        let offset = module_of(&swapped[..i + 1]).len();
        assert_eq!(
            parse(&module_of(&swapped)),
            Err(ParseError { offset, kind: ParseErrorKind::UnknownSectionId })
        );
    }
}

#[test]
fn a_decoded_section_comes_once() {
    let repeated = [TYPE.to_vec(), TYPE.to_vec()];
    assert_eq!(
        parse(&module_of(&repeated)),
        Err(ParseError { offset: 14, kind: ParseErrorKind::UnknownSectionId })
    );
}

#[test]
fn a_skipped_section_may_be_repeated_in_its_place() {
    let repeated = [
        TABLE.to_vec(),
        CUSTOM.to_vec(),
        TABLE.to_vec(),
        MEMORY.to_vec(),
        DATA.to_vec(),
        DATA.to_vec(),
    ];
    let module = parse(&module_of(&repeated)).unwrap();
    assert_eq!(module.skipped_sections, vec![4, 4, 5, 11, 11]);
    assert_eq!(module.custom_sections, vec!["c".to_string()]);
}

#[test]
fn every_section_is_optional() {
    for section in [TYPE.to_vec(), TABLE.to_vec(), START.to_vec(), DATA.to_vec(), CUSTOM.to_vec()] {
        assert!(parse(&module_of(&[section])).is_ok());
    }
}

#[test]
fn a_custom_section_may_stand_anywhere() {
    let sections = all_sections();
    let module = parse(&module_of(&sections)).unwrap();
    for i in 0..sections.len() + 1 {
        let mut longer = sections.clone();
        longer.insert(i, CUSTOM.to_vec());
        let expected = Module { custom_sections: vec!["c".to_string()], ..module.clone() };
        assert_eq!(parse(&module_of(&longer)), Ok(expected));
    }
}

#[test]
fn a_custom_section_takes_its_place_among_the_names() {
    let named = |name: u8| vec![0x00, 0x02, 0x01, name];
    let sections =
        [named(b'x'), TYPE.to_vec(), named(b'y'), named(b'z'), MEMORY.to_vec(), named(b'w')];
    let module = parse(&module_of(&sections)).unwrap();
    assert_eq!(module.custom_sections, vec!["x", "y", "z", "w"]);
}

#[test]
fn a_custom_section_does_not_help_a_bad_module() {
    let sections = [FUNCTION.to_vec()];
    let longer = [FUNCTION.to_vec(), CUSTOM.to_vec()];
    assert!(parse(&module_of(&sections)).is_err());
    assert!(parse(&module_of(&longer)).is_err());
}

#[test]
fn skipped_contents_do_not_matter() {
    let other = vec![0x04, 0x04, 0xFF, 0xFF, 0xFF, 0xFF];
    assert_eq!(parse(&module_of(&[other])), parse(&module_of(&[TABLE.to_vec()])));
}

#[test]
fn custom_contents_do_not_matter() {
    let other = vec![0x00, 0x03, 0x01, b'c', 0x00];
    assert_eq!(parse(&module_of(&[other])), parse(&module_of(&[CUSTOM.to_vec()])));
}

#[test]
fn types_are_in_range() {
    let module = parse(&module_of(&all_sections())).unwrap();
    for import in &module.imports {
        if let ImportDesc::Func(type_index) = import.desc {
            assert!((type_index as usize) < module.types.len());
        }
    }
    for func in &module.funcs {
        assert!((func.type_index as usize) < module.types.len());
    }
    // Without the type section the import and the function name no type.
    assert_eq!(
        parse(&module_of(&[IMPORT.to_vec()])),
        Err(ParseError { offset: 15, kind: ParseErrorKind::TypeIndexOutOfRange })
    );
    assert_eq!(
        parse(&module_of(&[FUNCTION.to_vec()])),
        Err(ParseError { offset: 11, kind: ParseErrorKind::TypeIndexOutOfRange })
    );
}

#[test]
fn functions_need_code_before_any_data() {
    let sections =
        [TYPE.to_vec(), FUNCTION.to_vec(), ELEMENT.to_vec(), DATA.to_vec(), CODE.to_vec()];
    assert_eq!(
        parse(&module_of(&sections)),
        Err(ParseError { offset: 21, kind: ParseErrorKind::FunctionCodeMismatch })
    );
}

#[test]
fn code_needs_functions() {
    assert_eq!(
        parse(&module_of(&[CODE.to_vec()])),
        Err(ParseError { offset: 10, kind: ParseErrorKind::FunctionCodeMismatch })
    );
}

#[test]
fn errors_lie_in_the_input() {
    let bytes = module_of(&all_sections());
    for len in 0..bytes.len() {
        if let Err(error) = parse(&bytes[..len]) {
            assert!(error.offset <= len);
        }
    }
    for i in 0..bytes.len() {
        let mut corrupted = bytes.clone();
        corrupted[i] ^= 0xFF;
        if let Err(error) = parse(&corrupted) {
            assert!(error.offset <= bytes.len());
        }
    }
}
