//! What holds of the library as a whole.
//!
//! Each law is stated over the functions that the contracts of the readers and
//! of [`crate::parse`] are stated over, so it holds of what they return.

use crate::extent;
use crate::grammar;
use crate::grammar::Outcome;
use crate::locality;
use crate::module;
use crate::module::ModuleView;
use vstd::prelude::*;

verus! {

/// The header is judged by its eight bytes alone: whatever follows them makes no
/// difference.
pub proof fn law_header_ignores_what_follows(header: Seq<u8>, rest: Seq<u8>)
    requires
        header.len() >= 8,
    ensures
        grammar::header_of(header + rest) == grammar::header_of(header),
{
    assert((header + rest).take(4) =~= header.take(4));
}

/// A module with a bad header is rejected for its header, before any section is
/// looked at.
pub proof fn law_bad_header_comes_first(bytes: Seq<u8>)
    requires
        grammar::header_of(bytes) is Failed,
    ensures
        module::module_of(bytes) == grammar::header_of(bytes).failure::<ModuleView>(),
{
}

/// A type section is read from its own bytes alone: wherever they stand, in
/// whatever input, the same is read there.
pub proof fn law_type_section_depends_on_its_bytes_only(
    old_bytes: Seq<u8>,
    new_bytes: Seq<u8>,
    shift: int,
    pos: int,
)
    requires
        locality::taken(
            grammar::type_section_at(old_bytes, pos),
            old_bytes,
            new_bytes,
            shift,
            pos,
        ),
    ensures
        grammar::type_section_at(new_bytes, pos + shift) == locality::shifted(
            grammar::type_section_at(old_bytes, pos),
            shift,
        ),
{
    locality::lemma_type_section_moves(old_bytes, new_bytes, shift, pos);
}

/// A type section that is cut off anywhere before its end is an error.
pub proof fn law_truncated_type_section_fails(bytes: Seq<u8>, pos: int, len: int)
    requires
        grammar::type_section_at(bytes, pos) matches Outcome::Read { end, .. } && 0 <= len
            < end,
    ensures
        grammar::type_section_at(bytes.take(len), pos) is Failed,
{
    let cut = bytes.take(len);
    extent::lemma_type_section_bounds(bytes, pos);
    if pos <= len && grammar::type_section_at(cut, pos) is Read {
        extent::lemma_type_section_bounds(cut, pos);
        locality::lemma_type_section_moves(cut, bytes, 0, pos);
    }
}

/// An import section is read from its own bytes alone: wherever they stand, in
/// whatever input, the same is read there.
pub proof fn law_import_section_depends_on_its_bytes_only(
    old_bytes: Seq<u8>,
    new_bytes: Seq<u8>,
    shift: int,
    pos: int,
    type_count: nat,
)
    requires
        locality::taken(
            grammar::import_section_at(old_bytes, pos, type_count),
            old_bytes,
            new_bytes,
            shift,
            pos,
        ),
    ensures
        grammar::import_section_at(new_bytes, pos + shift, type_count) == locality::shifted(
            grammar::import_section_at(old_bytes, pos, type_count),
            shift,
        ),
{
    locality::lemma_import_section_moves(old_bytes, new_bytes, shift, pos, type_count);
}

/// An import section that is cut off anywhere before its end is an error.
pub proof fn law_truncated_import_section_fails(bytes: Seq<u8>, pos: int, type_count: nat, len: int)
    requires
        grammar::import_section_at(bytes, pos, type_count) matches Outcome::Read { end, .. }
            && 0 <= len < end,
    ensures
        grammar::import_section_at(bytes.take(len), pos, type_count) is Failed,
{
    let cut = bytes.take(len);
    extent::lemma_import_section_bounds(bytes, pos, type_count);
    if pos <= len && grammar::import_section_at(cut, pos, type_count) is Read {
        extent::lemma_import_section_bounds(cut, pos, type_count);
        locality::lemma_import_section_moves(cut, bytes, 0, pos, type_count);
    }
}

/// A function section is read from its own bytes alone: wherever they stand, in
/// whatever input, the same is read there.
pub proof fn law_function_section_depends_on_its_bytes_only(
    old_bytes: Seq<u8>,
    new_bytes: Seq<u8>,
    shift: int,
    pos: int,
    type_count: nat,
)
    requires
        locality::taken(
            grammar::function_section_at(old_bytes, pos, type_count),
            old_bytes,
            new_bytes,
            shift,
            pos,
        ),
    ensures
        grammar::function_section_at(new_bytes, pos + shift, type_count) == locality::shifted(
            grammar::function_section_at(old_bytes, pos, type_count),
            shift,
        ),
{
    locality::lemma_function_section_moves(old_bytes, new_bytes, shift, pos, type_count);
}

/// A function section that is cut off anywhere before its end is an error.
pub proof fn law_truncated_function_section_fails(
    bytes: Seq<u8>,
    pos: int,
    type_count: nat,
    len: int,
)
    requires
        grammar::function_section_at(bytes, pos, type_count) matches Outcome::Read { end, .. }
            && 0 <= len < end,
    ensures
        grammar::function_section_at(bytes.take(len), pos, type_count) is Failed,
{
    let cut = bytes.take(len);
    extent::lemma_function_section_bounds(bytes, pos, type_count);
    if pos <= len && grammar::function_section_at(cut, pos, type_count) is Read {
        extent::lemma_function_section_bounds(cut, pos, type_count);
        locality::lemma_function_section_moves(cut, bytes, 0, pos, type_count);
    }
}

/// An export section is read from its own bytes alone: wherever they stand, in
/// whatever input, the same is read there.
pub proof fn law_export_section_depends_on_its_bytes_only(
    old_bytes: Seq<u8>,
    new_bytes: Seq<u8>,
    shift: int,
    pos: int,
)
    requires
        locality::taken(
            grammar::export_section_at(old_bytes, pos),
            old_bytes,
            new_bytes,
            shift,
            pos,
        ),
    ensures
        grammar::export_section_at(new_bytes, pos + shift) == locality::shifted(
            grammar::export_section_at(old_bytes, pos),
            shift,
        ),
{
    locality::lemma_export_section_moves(old_bytes, new_bytes, shift, pos);
}

/// An export section that is cut off anywhere before its end is an error.
pub proof fn law_truncated_export_section_fails(bytes: Seq<u8>, pos: int, len: int)
    requires
        grammar::export_section_at(bytes, pos) matches Outcome::Read { end, .. } && 0 <= len
            < end,
    ensures
        grammar::export_section_at(bytes.take(len), pos) is Failed,
{
    let cut = bytes.take(len);
    extent::lemma_export_section_bounds(bytes, pos);
    if pos <= len && grammar::export_section_at(cut, pos) is Read {
        extent::lemma_export_section_bounds(cut, pos);
        locality::lemma_export_section_moves(cut, bytes, 0, pos);
    }
}

/// A start section is read from its own bytes alone: wherever they stand, in
/// whatever input, the same is read there.
pub proof fn law_start_section_depends_on_its_bytes_only(
    old_bytes: Seq<u8>,
    new_bytes: Seq<u8>,
    shift: int,
    pos: int,
)
    requires
        locality::taken(
            grammar::start_section_at(old_bytes, pos),
            old_bytes,
            new_bytes,
            shift,
            pos,
        ),
    ensures
        grammar::start_section_at(new_bytes, pos + shift) == locality::shifted(
            grammar::start_section_at(old_bytes, pos),
            shift,
        ),
{
    locality::lemma_start_section_moves(old_bytes, new_bytes, shift, pos);
}

/// A start section that is cut off anywhere before its end is an error.
pub proof fn law_truncated_start_section_fails(bytes: Seq<u8>, pos: int, len: int)
    requires
        grammar::start_section_at(bytes, pos) matches Outcome::Read { end, .. } && 0 <= len
            < end,
    ensures
        grammar::start_section_at(bytes.take(len), pos) is Failed,
{
    let cut = bytes.take(len);
    extent::lemma_start_section_bounds(bytes, pos);
    if pos <= len && grammar::start_section_at(cut, pos) is Read {
        extent::lemma_start_section_bounds(cut, pos);
        locality::lemma_start_section_moves(cut, bytes, 0, pos);
    }
}

/// A code section is read from its own bytes alone: wherever they stand, in
/// whatever input, the same is read there.
pub proof fn law_code_section_depends_on_its_bytes_only(
    old_bytes: Seq<u8>,
    new_bytes: Seq<u8>,
    shift: int,
    pos: int,
    func_count: nat,
)
    requires
        locality::taken(
            grammar::code_section_at(old_bytes, pos, func_count),
            old_bytes,
            new_bytes,
            shift,
            pos,
        ),
    ensures
        grammar::code_section_at(new_bytes, pos + shift, func_count) == locality::shifted(
            grammar::code_section_at(old_bytes, pos, func_count),
            shift,
        ),
{
    locality::lemma_code_section_moves(old_bytes, new_bytes, shift, pos, func_count);
}

/// A code section that is cut off anywhere before its end is an error.
pub proof fn law_truncated_code_section_fails(bytes: Seq<u8>, pos: int, func_count: nat, len: int)
    requires
        grammar::code_section_at(bytes, pos, func_count) matches Outcome::Read { end, .. }
            && 0 <= len < end,
    ensures
        grammar::code_section_at(bytes.take(len), pos, func_count) is Failed,
{
    let cut = bytes.take(len);
    extent::lemma_code_section_bounds(bytes, pos, func_count);
    if pos <= len && grammar::code_section_at(cut, pos, func_count) is Read {
        extent::lemma_code_section_bounds(cut, pos, func_count);
        locality::lemma_code_section_moves(cut, bytes, 0, pos, func_count);
    }
}

/// A custom section is read from its own bytes alone: wherever they stand, in
/// whatever input, the same is read there.
pub proof fn law_custom_section_depends_on_its_bytes_only(
    old_bytes: Seq<u8>,
    new_bytes: Seq<u8>,
    shift: int,
    pos: int,
)
    requires
        locality::taken(
            grammar::custom_section_at(old_bytes, pos),
            old_bytes,
            new_bytes,
            shift,
            pos,
        ),
    ensures
        grammar::custom_section_at(new_bytes, pos + shift) == locality::shifted(
            grammar::custom_section_at(old_bytes, pos),
            shift,
        ),
{
    locality::lemma_custom_section_moves(old_bytes, new_bytes, shift, pos);
}

/// A custom section that is cut off anywhere before its end is an error.
pub proof fn law_truncated_custom_section_fails(bytes: Seq<u8>, pos: int, len: int)
    requires
        grammar::custom_section_at(bytes, pos) matches Outcome::Read { end, .. } && 0 <= len
            < end,
    ensures
        grammar::custom_section_at(bytes.take(len), pos) is Failed,
{
    let cut = bytes.take(len);
    extent::lemma_custom_section_bounds(bytes, pos);
    if pos <= len && grammar::custom_section_at(cut, pos) is Read {
        extent::lemma_custom_section_bounds(cut, pos);
        locality::lemma_custom_section_moves(cut, bytes, 0, pos);
    }
}

/// A skipped section is read from its own bytes alone: wherever they stand, in
/// whatever input, the same is read there.
pub proof fn law_skipped_section_depends_on_its_bytes_only(
    old_bytes: Seq<u8>,
    new_bytes: Seq<u8>,
    shift: int,
    pos: int,
)
    requires
        locality::taken(
            grammar::any_section_at(old_bytes, pos),
            old_bytes,
            new_bytes,
            shift,
            pos,
        ),
    ensures
        grammar::any_section_at(new_bytes, pos + shift) == locality::shifted(
            grammar::any_section_at(old_bytes, pos),
            shift,
        ),
{
    locality::lemma_any_section_moves(old_bytes, new_bytes, shift, pos);
}

/// A skipped section that is cut off anywhere before its end is an error.
pub proof fn law_truncated_skipped_section_fails(bytes: Seq<u8>, pos: int, len: int)
    requires
        grammar::any_section_at(bytes, pos) matches Outcome::Read { end, .. } && 0 <= len
            < end,
    ensures
        grammar::any_section_at(bytes.take(len), pos) is Failed,
{
    let cut = bytes.take(len);
    extent::lemma_any_section_bounds(bytes, pos);
    if pos <= len && grammar::any_section_at(cut, pos) is Read {
        extent::lemma_any_section_bounds(cut, pos);
        locality::lemma_any_section_moves(cut, bytes, 0, pos);
    }
}

/// Every section takes at least one byte and lies inside the input, and an error
/// in one names an offset between the section's start and the end of the input.
pub proof fn law_section_reads_stay_in_the_input(
    bytes: Seq<u8>,
    pos: int,
    type_count: nat,
    func_count: nat,
)
    requires
        0 <= pos <= bytes.len(),
    ensures
        extent::in_bounds(grammar::type_section_at(bytes, pos), pos, bytes.len()),
        extent::makes_progress(grammar::type_section_at(bytes, pos), pos),
        extent::in_bounds(grammar::import_section_at(bytes, pos, type_count), pos, bytes.len()),
        extent::makes_progress(grammar::import_section_at(bytes, pos, type_count), pos),
        extent::in_bounds(grammar::function_section_at(bytes, pos, type_count), pos, bytes.len()),
        extent::makes_progress(grammar::function_section_at(bytes, pos, type_count), pos),
        extent::in_bounds(grammar::export_section_at(bytes, pos), pos, bytes.len()),
        extent::makes_progress(grammar::export_section_at(bytes, pos), pos),
        extent::in_bounds(grammar::start_section_at(bytes, pos), pos, bytes.len()),
        extent::makes_progress(grammar::start_section_at(bytes, pos), pos),
        extent::in_bounds(grammar::code_section_at(bytes, pos, func_count), pos, bytes.len()),
        extent::makes_progress(grammar::code_section_at(bytes, pos, func_count), pos),
        extent::in_bounds(grammar::custom_section_at(bytes, pos), pos, bytes.len()),
        extent::makes_progress(grammar::custom_section_at(bytes, pos), pos),
        extent::in_bounds(grammar::any_section_at(bytes, pos), pos, bytes.len()),
        extent::makes_progress(grammar::any_section_at(bytes, pos), pos),
{
    extent::lemma_type_section_bounds(bytes, pos);
    extent::lemma_import_section_bounds(bytes, pos, type_count);
    extent::lemma_function_section_bounds(bytes, pos, type_count);
    extent::lemma_export_section_bounds(bytes, pos);
    extent::lemma_start_section_bounds(bytes, pos);
    extent::lemma_code_section_bounds(bytes, pos, func_count);
    extent::lemma_custom_section_bounds(bytes, pos);
    extent::lemma_any_section_bounds(bytes, pos);
}

/// The read succeeds only on a section with this id, and ends just past the size
/// that the section's header declares.
pub open spec fn fills_its_section<T>(
    outcome: Outcome<T>,
    bytes: Seq<u8>,
    pos: int,
    id: u8,
) -> bool {
    outcome matches Outcome::Read { end, .. } ==> grammar::any_section_at(bytes, pos)
        == (Outcome::Read { value: id, end })
}

/// A section that is read is left just past its declared size.
pub proof fn law_sections_end_at_their_declared_size(
    bytes: Seq<u8>,
    pos: int,
    type_count: nat,
    func_count: nat,
)
    ensures
        fills_its_section(
            grammar::type_section_at(bytes, pos),
            bytes,
            pos,
            grammar::SECTION_ID_TYPE,
        ),
        fills_its_section(
            grammar::import_section_at(bytes, pos, type_count),
            bytes,
            pos,
            grammar::SECTION_ID_IMPORT,
        ),
        fills_its_section(
            grammar::function_section_at(bytes, pos, type_count),
            bytes,
            pos,
            grammar::SECTION_ID_FUNCTION,
        ),
        fills_its_section(
            grammar::export_section_at(bytes, pos),
            bytes,
            pos,
            grammar::SECTION_ID_EXPORT,
        ),
        fills_its_section(
            grammar::start_section_at(bytes, pos),
            bytes,
            pos,
            grammar::SECTION_ID_START,
        ),
        fills_its_section(
            grammar::code_section_at(bytes, pos, func_count),
            bytes,
            pos,
            grammar::SECTION_ID_CODE,
        ),
        fills_its_section(
            grammar::custom_section_at(bytes, pos),
            bytes,
            pos,
            grammar::SECTION_ID_CUSTOM,
        ),
{
}

/// Every item read is one that `item` reads somewhere.
proof fn lemma_items_hold<T>(
    item: spec_fn(int) -> Outcome<T>,
    pos: int,
    count: nat,
    good: spec_fn(T) -> bool,
)
    requires
        forall|at: int| (#[trigger] item(at)) matches Outcome::Read { value, .. } ==> good(value),
    ensures
        grammar::items_at(item, pos, count) matches Outcome::Read { value, .. } ==> forall|i: int|
            0 <= i < value.len() ==> good(#[trigger] value[i]),
    decreases count,
{
    if count > 0 {
        lemma_items_hold(item, pos, (count - 1) as nat, good);
        if let Outcome::Read { end, .. } = grammar::items_at(item, pos, (count - 1) as nat) {
            assert(item(end) matches Outcome::Read { value, .. } ==> good(value));
        }
    }
}

/// Every import that is read is well-formed: a func import names one of the
/// `type_count` types, and no maximum is below its minimum.
pub proof fn law_imports_are_well_formed(bytes: Seq<u8>, pos: int, type_count: nat)
    ensures
        grammar::import_section_at(bytes, pos, type_count) matches Outcome::Read { value, .. }
            ==> forall|i: int|
            0 <= i < value.len() ==> (#[trigger] value[i]).desc.well_formed(type_count),
{
    let item = grammar::import_reader(bytes, type_count);
    let good = |import: crate::types::ImportView| import.desc.well_formed(type_count);
    if let Outcome::Read { end: start, .. } = grammar::section_start_at(
        bytes,
        pos,
        grammar::SECTION_ID_IMPORT,
    ) {
        if let Outcome::Read { value: count, end } = grammar::u32_at(bytes, start) {
            lemma_items_hold(item, end, count as nat, good);
            if let Outcome::Read { value, .. } = grammar::items_at(item, end, count as nat) {
                assert forall|i: int| 0 <= i < value.len() implies (
                #[trigger] value[i]).desc.well_formed(type_count) by {
                    assert(good(value[i]));
                }
            }
        }
    }
}

/// Every type index that the function section gives is the index of one of the
/// `type_count` types.
pub proof fn law_function_types_are_in_range(bytes: Seq<u8>, pos: int, type_count: nat)
    ensures
        grammar::function_section_at(bytes, pos, type_count) matches Outcome::Read { value, .. }
            ==> forall|i: int| 0 <= i < value.len() ==> (#[trigger] value[i]) < type_count,
{
    let item = grammar::type_index_reader(bytes, type_count);
    let good = |index: u32| index < type_count;
    if let Outcome::Read { end: start, .. } = grammar::section_start_at(
        bytes,
        pos,
        grammar::SECTION_ID_FUNCTION,
    ) {
        if let Outcome::Read { value: count, end } = grammar::u32_at(bytes, start) {
            lemma_items_hold(item, end, count as nat, good);
            if let Outcome::Read { value, .. } = grammar::items_at(item, end, count as nat) {
                assert forall|i: int| 0 <= i < value.len() implies (#[trigger] value[i])
                    < type_count by {
                    assert(good(value[i]));
                }
            }
        }
    }
}

} // verus!
