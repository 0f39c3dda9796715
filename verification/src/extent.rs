//! How far reads reach: they end, or break off, inside the input.

use crate::grammar;
use crate::grammar::Outcome;
use crate::leb;
use vstd::prelude::*;

verus! {

/// A read at `pos` ends, or breaks off, between there and the end of an input
/// of this length.
pub open spec fn in_bounds<T>(outcome: Outcome<T>, pos: int, len: nat) -> bool {
    match outcome {
        Outcome::Read { end, .. } => pos <= end <= len,
        Outcome::Failed { offset, stop, .. } => pos <= offset <= len && pos <= stop <= len,
    }
}

/// A read at `pos` that succeeds takes at least one byte.
pub open spec fn makes_progress<T>(outcome: Outcome<T>, pos: int) -> bool {
    outcome matches Outcome::Read { end, .. } ==> pos < end
}

/// Every read that starts inside an input of this length stays inside it.
pub open spec fn stays_within<T>(read: spec_fn(int) -> Outcome<T>, len: nat) -> bool {
    forall|pos: int| 0 <= pos <= len ==> in_bounds(#[trigger] read(pos), pos, len)
}

// One lemma for each kind of item: reads of it stay inside the input, and those
// that succeed make progress.

pub(crate) proof fn lemma_u32_bounds(bytes: Seq<u8>, pos: int)
    requires
        0 <= pos <= bytes.len(),
    ensures
        in_bounds(grammar::u32_at(bytes, pos), pos, bytes.len()),
        makes_progress(grammar::u32_at(bytes, pos), pos),
{
    leb::lemma_decode_bounds(bytes, pos, leb::MAX_U32_BYTES as nat);
}

pub(crate) proof fn lemma_items_bounds<T>(
    bytes: Seq<u8>,
    item: spec_fn(int) -> Outcome<T>,
    pos: int,
    count: nat,
)
    requires
        0 <= pos <= bytes.len(),
        stays_within(item, bytes.len()),
    ensures
        in_bounds(grammar::items_at(item, pos, count), pos, bytes.len()),
    decreases count,
{
    if count > 0 {
        lemma_items_bounds(bytes, item, pos, (count - 1) as nat);
        if let Outcome::Read { end, .. } = grammar::items_at(item, pos, (count - 1) as nat) {
            assert(in_bounds(item(end), end, bytes.len()));
        }
    }
}

pub(crate) proof fn lemma_vec_bounds<T>(bytes: Seq<u8>, item: spec_fn(int) -> Outcome<T>, pos: int)
    requires
        0 <= pos <= bytes.len(),
        stays_within(item, bytes.len()),
    ensures
        in_bounds(grammar::vec_at(bytes, item, pos), pos, bytes.len()),
        makes_progress(grammar::vec_at(bytes, item, pos), pos),
{
    lemma_u32_bounds(bytes, pos);
    if let Outcome::Read { value: count, end } = grammar::u32_at(bytes, pos) {
        lemma_items_bounds(bytes, item, end, count as nat);
    }
}

pub(crate) proof fn lemma_name_bounds(bytes: Seq<u8>, pos: int)
    requires
        0 <= pos <= bytes.len(),
    ensures
        in_bounds(grammar::name_at(bytes, pos), pos, bytes.len()),
        makes_progress(grammar::name_at(bytes, pos), pos),
{
    lemma_u32_bounds(bytes, pos);
}

pub(crate) proof fn lemma_val_type_bounds(bytes: Seq<u8>, pos: int)
    requires
        0 <= pos <= bytes.len(),
    ensures
        in_bounds(grammar::val_type_at(bytes, pos), pos, bytes.len()),
        makes_progress(grammar::val_type_at(bytes, pos), pos),
{
}

pub(crate) proof fn lemma_val_types_bounds(bytes: Seq<u8>, pos: int)
    requires
        0 <= pos <= bytes.len(),
    ensures
        in_bounds(grammar::val_types_at(bytes, pos), pos, bytes.len()),
        makes_progress(grammar::val_types_at(bytes, pos), pos),
{
    assert(stays_within(grammar::val_type_reader(bytes), bytes.len())) by {
        assert forall|at: int| 0 <= at <= bytes.len() implies in_bounds(
            #[trigger] grammar::val_type_reader(bytes)(at),
            at,
            bytes.len(),
        ) by {
            lemma_val_type_bounds(bytes, at);
        }
    }
    lemma_vec_bounds(bytes, grammar::val_type_reader(bytes), pos);
}

pub(crate) proof fn lemma_func_type_bounds(bytes: Seq<u8>, pos: int)
    requires
        0 <= pos <= bytes.len(),
    ensures
        in_bounds(grammar::func_type_at(bytes, pos), pos, bytes.len()),
        makes_progress(grammar::func_type_at(bytes, pos), pos),
{
    if pos < bytes.len() {
        lemma_val_types_bounds(bytes, pos + 1);
        if let Outcome::Read { end, .. } = grammar::val_types_at(bytes, pos + 1) {
            lemma_val_types_bounds(bytes, end);
        }
    }
}

pub(crate) proof fn lemma_limits_bounds(bytes: Seq<u8>, pos: int)
    requires
        0 <= pos <= bytes.len(),
    ensures
        in_bounds(grammar::limits_at(bytes, pos), pos, bytes.len()),
        makes_progress(grammar::limits_at(bytes, pos), pos),
{
    if pos < bytes.len() {
        lemma_u32_bounds(bytes, pos + 1);
        if let Outcome::Read { end, .. } = grammar::u32_at(bytes, pos + 1) {
            lemma_u32_bounds(bytes, end);
        }
    }
}

pub(crate) proof fn lemma_type_index_bounds(bytes: Seq<u8>, pos: int, type_count: nat)
    requires
        0 <= pos <= bytes.len(),
    ensures
        in_bounds(grammar::type_index_at(bytes, pos, type_count), pos, bytes.len()),
        makes_progress(grammar::type_index_at(bytes, pos, type_count), pos),
{
    lemma_u32_bounds(bytes, pos);
}

pub(crate) proof fn lemma_import_desc_bounds(bytes: Seq<u8>, pos: int, type_count: nat)
    requires
        0 <= pos <= bytes.len(),
    ensures
        in_bounds(grammar::import_desc_at(bytes, pos, type_count), pos, bytes.len()),
        makes_progress(grammar::import_desc_at(bytes, pos, type_count), pos),
{
    if pos < bytes.len() {
        lemma_type_index_bounds(bytes, pos + 1, type_count);
        lemma_limits_bounds(bytes, pos + 1);
        lemma_val_type_bounds(bytes, pos + 1);
        if pos + 1 < bytes.len() {
            lemma_limits_bounds(bytes, pos + 2);
        }
    }
}

pub(crate) proof fn lemma_import_bounds(bytes: Seq<u8>, pos: int, type_count: nat)
    requires
        0 <= pos <= bytes.len(),
    ensures
        in_bounds(grammar::import_at(bytes, pos, type_count), pos, bytes.len()),
        makes_progress(grammar::import_at(bytes, pos, type_count), pos),
{
    lemma_name_bounds(bytes, pos);
    if let Outcome::Read { end: end1, .. } = grammar::name_at(bytes, pos) {
        lemma_name_bounds(bytes, end1);
        if let Outcome::Read { end: end2, .. } = grammar::name_at(bytes, end1) {
            lemma_import_desc_bounds(bytes, end2, type_count);
        }
    }
}

pub(crate) proof fn lemma_export_bounds(bytes: Seq<u8>, pos: int)
    requires
        0 <= pos <= bytes.len(),
    ensures
        in_bounds(grammar::export_at(bytes, pos), pos, bytes.len()),
        makes_progress(grammar::export_at(bytes, pos), pos),
{
    lemma_name_bounds(bytes, pos);
    if let Outcome::Read { end, .. } = grammar::name_at(bytes, pos) {
        if end < bytes.len() {
            lemma_u32_bounds(bytes, end + 1);
        }
    }
}

pub(crate) proof fn lemma_local_decl_bounds(bytes: Seq<u8>, pos: int)
    requires
        0 <= pos <= bytes.len(),
    ensures
        in_bounds(grammar::local_decl_at(bytes, pos), pos, bytes.len()),
        makes_progress(grammar::local_decl_at(bytes, pos), pos),
{
    lemma_u32_bounds(bytes, pos);
    if let Outcome::Read { end: end1, .. } = grammar::u32_at(bytes, pos) {
        lemma_val_type_bounds(bytes, end1);
    }
}

pub(crate) proof fn lemma_code_bounds(bytes: Seq<u8>, pos: int)
    requires
        0 <= pos <= bytes.len(),
    ensures
        in_bounds(grammar::code_at(bytes, pos), pos, bytes.len()),
        makes_progress(grammar::code_at(bytes, pos), pos),
{
    assert(stays_within(grammar::local_decl_reader(bytes), bytes.len())) by {
        assert forall|at: int| 0 <= at <= bytes.len() implies in_bounds(
            #[trigger] grammar::local_decl_reader(bytes)(at),
            at,
            bytes.len(),
        ) by {
            lemma_local_decl_bounds(bytes, at);
        }
    }
    lemma_u32_bounds(bytes, pos);
    if let Outcome::Read { end: end1, .. } = grammar::u32_at(bytes, pos) {
        lemma_vec_bounds(bytes, grammar::local_decl_reader(bytes), end1);
    }
}

pub(crate) proof fn lemma_section_header_bounds(bytes: Seq<u8>, pos: int)
    requires
        0 <= pos <= bytes.len(),
    ensures
        in_bounds(grammar::section_header_at(bytes, pos), pos, bytes.len()),
        makes_progress(grammar::section_header_at(bytes, pos), pos),
{
    if pos < bytes.len() {
        lemma_u32_bounds(bytes, pos + 1);
    }
}

/// A section that opens has its header and its whole extent inside the input.
pub(crate) proof fn lemma_section_start_bounds(bytes: Seq<u8>, pos: int, id: u8)
    requires
        0 <= pos <= bytes.len(),
    ensures
        in_bounds(grammar::section_start_at(bytes, pos, id), pos, bytes.len()),
        grammar::section_start_at(bytes, pos, id) matches Outcome::Read { value, end } ==> pos < end
            <= value <= bytes.len(),
{
    lemma_section_header_bounds(bytes, pos);
}

pub(crate) proof fn lemma_section_bounds<T>(
    bytes: Seq<u8>,
    pos: int,
    id: u8,
    content: spec_fn(int) -> Outcome<T>,
)
    requires
        0 <= pos <= bytes.len(),
        stays_within(content, bytes.len()),
    ensures
        in_bounds(grammar::section_at(bytes, pos, id, content), pos, bytes.len()),
        makes_progress(grammar::section_at(bytes, pos, id, content), pos),
{
    lemma_section_start_bounds(bytes, pos, id);
    if let Outcome::Read { end: start, .. } = grammar::section_start_at(bytes, pos, id) {
        assert(in_bounds(content(start), start, bytes.len()));
    }
}

pub(crate) proof fn lemma_type_section_bounds(bytes: Seq<u8>, pos: int)
    requires
        0 <= pos <= bytes.len(),
    ensures
        in_bounds(grammar::type_section_at(bytes, pos), pos, bytes.len()),
        makes_progress(grammar::type_section_at(bytes, pos), pos),
{
    assert(stays_within(grammar::func_type_reader(bytes), bytes.len())) by {
        assert forall|at: int| 0 <= at <= bytes.len() implies in_bounds(
            #[trigger] grammar::func_type_reader(bytes)(at),
            at,
            bytes.len(),
        ) by {
            lemma_func_type_bounds(bytes, at);
        }
    }
    let content = |start: int| grammar::vec_at(bytes, grammar::func_type_reader(bytes), start);
    assert forall|at: int| 0 <= at <= bytes.len() implies in_bounds(
        #[trigger] content(at),
        at,
        bytes.len(),
    ) by {
        lemma_vec_bounds(bytes, grammar::func_type_reader(bytes), at);
    }
    lemma_section_bounds(bytes, pos, grammar::SECTION_ID_TYPE, content);
}

pub(crate) proof fn lemma_import_section_bounds(bytes: Seq<u8>, pos: int, type_count: nat)
    requires
        0 <= pos <= bytes.len(),
    ensures
        in_bounds(grammar::import_section_at(bytes, pos, type_count), pos, bytes.len()),
        makes_progress(grammar::import_section_at(bytes, pos, type_count), pos),
{
    assert(stays_within(grammar::import_reader(bytes, type_count), bytes.len())) by {
        assert forall|at: int| 0 <= at <= bytes.len() implies in_bounds(
            #[trigger] grammar::import_reader(bytes, type_count)(at),
            at,
            bytes.len(),
        ) by {
            lemma_import_bounds(bytes, at, type_count);
        }
    }
    let content = |start: int|
        grammar::vec_at(bytes, grammar::import_reader(bytes, type_count), start);
    assert forall|at: int| 0 <= at <= bytes.len() implies in_bounds(
        #[trigger] content(at),
        at,
        bytes.len(),
    ) by {
        lemma_vec_bounds(bytes, grammar::import_reader(bytes, type_count), at);
    }
    lemma_section_bounds(bytes, pos, grammar::SECTION_ID_IMPORT, content);
}

pub(crate) proof fn lemma_function_section_bounds(bytes: Seq<u8>, pos: int, type_count: nat)
    requires
        0 <= pos <= bytes.len(),
    ensures
        in_bounds(grammar::function_section_at(bytes, pos, type_count), pos, bytes.len()),
        makes_progress(grammar::function_section_at(bytes, pos, type_count), pos),
{
    assert(stays_within(grammar::type_index_reader(bytes, type_count), bytes.len())) by {
        assert forall|at: int| 0 <= at <= bytes.len() implies in_bounds(
            #[trigger] grammar::type_index_reader(bytes, type_count)(at),
            at,
            bytes.len(),
        ) by {
            lemma_type_index_bounds(bytes, at, type_count);
        }
    }
    let content = |start: int|
        grammar::vec_at(bytes, grammar::type_index_reader(bytes, type_count), start);
    assert forall|at: int| 0 <= at <= bytes.len() implies in_bounds(
        #[trigger] content(at),
        at,
        bytes.len(),
    ) by {
        lemma_vec_bounds(bytes, grammar::type_index_reader(bytes, type_count), at);
    }
    lemma_section_bounds(bytes, pos, grammar::SECTION_ID_FUNCTION, content);
}

pub(crate) proof fn lemma_export_section_bounds(bytes: Seq<u8>, pos: int)
    requires
        0 <= pos <= bytes.len(),
    ensures
        in_bounds(grammar::export_section_at(bytes, pos), pos, bytes.len()),
        makes_progress(grammar::export_section_at(bytes, pos), pos),
{
    assert(stays_within(grammar::export_reader(bytes), bytes.len())) by {
        assert forall|at: int| 0 <= at <= bytes.len() implies in_bounds(
            #[trigger] grammar::export_reader(bytes)(at),
            at,
            bytes.len(),
        ) by {
            lemma_export_bounds(bytes, at);
        }
    }
    let content = |start: int| grammar::vec_at(bytes, grammar::export_reader(bytes), start);
    assert forall|at: int| 0 <= at <= bytes.len() implies in_bounds(
        #[trigger] content(at),
        at,
        bytes.len(),
    ) by {
        lemma_vec_bounds(bytes, grammar::export_reader(bytes), at);
    }
    lemma_section_bounds(bytes, pos, grammar::SECTION_ID_EXPORT, content);
}

pub(crate) proof fn lemma_start_section_bounds(bytes: Seq<u8>, pos: int)
    requires
        0 <= pos <= bytes.len(),
    ensures
        in_bounds(grammar::start_section_at(bytes, pos), pos, bytes.len()),
        makes_progress(grammar::start_section_at(bytes, pos), pos),
{
    let content = |start: int| grammar::u32_at(bytes, start);
    assert forall|at: int| 0 <= at <= bytes.len() implies in_bounds(
        #[trigger] content(at),
        at,
        bytes.len(),
    ) by {
        lemma_u32_bounds(bytes, at);
    }
    lemma_section_bounds(bytes, pos, grammar::SECTION_ID_START, content);
}

pub(crate) proof fn lemma_codes_bounds(bytes: Seq<u8>, pos: int, func_count: nat)
    requires
        0 <= pos <= bytes.len(),
    ensures
        in_bounds(grammar::codes_at(bytes, pos, func_count), pos, bytes.len()),
        makes_progress(grammar::codes_at(bytes, pos, func_count), pos),
{
    assert(stays_within(grammar::code_reader(bytes), bytes.len())) by {
        assert forall|at: int| 0 <= at <= bytes.len() implies in_bounds(
            #[trigger] grammar::code_reader(bytes)(at),
            at,
            bytes.len(),
        ) by {
            lemma_code_bounds(bytes, at);
        }
    }
    lemma_u32_bounds(bytes, pos);
    if let Outcome::Read { value: count, end } = grammar::u32_at(bytes, pos) {
        lemma_items_bounds(bytes, grammar::code_reader(bytes), end, count as nat);
    }
}

pub(crate) proof fn lemma_code_section_bounds(bytes: Seq<u8>, pos: int, func_count: nat)
    requires
        0 <= pos <= bytes.len(),
    ensures
        in_bounds(grammar::code_section_at(bytes, pos, func_count), pos, bytes.len()),
        makes_progress(grammar::code_section_at(bytes, pos, func_count), pos),
{
    let content = |start: int| grammar::codes_at(bytes, start, func_count);
    assert forall|at: int| 0 <= at <= bytes.len() implies in_bounds(
        #[trigger] content(at),
        at,
        bytes.len(),
    ) by {
        lemma_codes_bounds(bytes, at, func_count);
    }
    lemma_section_bounds(bytes, pos, grammar::SECTION_ID_CODE, content);
}

pub(crate) proof fn lemma_custom_section_bounds(bytes: Seq<u8>, pos: int)
    requires
        0 <= pos <= bytes.len(),
    ensures
        in_bounds(grammar::custom_section_at(bytes, pos), pos, bytes.len()),
        makes_progress(grammar::custom_section_at(bytes, pos), pos),
{
    lemma_section_start_bounds(bytes, pos, grammar::SECTION_ID_CUSTOM);
    if let Outcome::Read { end: start, .. } = grammar::section_start_at(
        bytes,
        pos,
        grammar::SECTION_ID_CUSTOM,
    ) {
        lemma_name_bounds(bytes, start);
    }
}

pub(crate) proof fn lemma_any_section_bounds(bytes: Seq<u8>, pos: int)
    requires
        0 <= pos <= bytes.len(),
    ensures
        in_bounds(grammar::any_section_at(bytes, pos), pos, bytes.len()),
        makes_progress(grammar::any_section_at(bytes, pos), pos),
{
    lemma_section_header_bounds(bytes, pos);
}

} // verus!
