//! What a read depends on: the bytes it takes, and nothing else.
//!
//! If the bytes that a successful read takes stand at another place, or in
//! another input, the same value is read there.

use crate::extent;
use crate::grammar;
use crate::grammar::Outcome;
use crate::leb;
use vstd::prelude::*;

verus! {

/// The bytes of `old_bytes` from `lo` up to `hi` stand in `new_bytes` too,
/// `shift` places further on.
pub open spec fn same_bytes(
    old_bytes: Seq<u8>,
    new_bytes: Seq<u8>,
    shift: int,
    lo: int,
    hi: int,
) -> bool {
    &&& 0 <= lo
    &&& hi <= old_bytes.len()
    &&& 0 <= lo + shift
    &&& hi + shift <= new_bytes.len()
    &&& forall|i: int| lo <= i < hi ==> #[trigger] old_bytes[i] == new_bytes[i + shift]
}

/// A read that ends `shift` places further on.
pub open spec fn shifted<T>(outcome: Outcome<T>, shift: int) -> Outcome<T> {
    match outcome {
        Outcome::Read { value, end } => Outcome::Read { value, end: end + shift },
        failed => failed,
    }
}

/// The read at `pos` succeeds, and the bytes it takes stand in `new_bytes` too,
/// `shift` places further on.
pub open spec fn taken<T>(
    outcome: Outcome<T>,
    old_bytes: Seq<u8>,
    new_bytes: Seq<u8>,
    shift: int,
    pos: int,
) -> bool {
    outcome matches Outcome::Read { end, .. } && same_bytes(old_bytes, new_bytes, shift, pos, end)
}

/// Wherever the bytes of a successful read stand in the new input, the same is
/// read there.
pub open spec fn carries_over<T>(
    old_bytes: Seq<u8>,
    new_bytes: Seq<u8>,
    shift: int,
    old_read: spec_fn(int) -> Outcome<T>,
    new_read: spec_fn(int) -> Outcome<T>,
) -> bool {
    forall|pos: int|
        0 <= pos <= old_bytes.len() && taken(
            #[trigger] old_read(pos),
            old_bytes,
            new_bytes,
            shift,
            pos,
        ) ==> new_read(pos + shift) == shifted(old_read(pos), shift)
}

// One lemma for each kind of item: reads of it carry over.

pub(crate) proof fn lemma_decode_moves(
    old_bytes: Seq<u8>,
    new_bytes: Seq<u8>,
    shift: int,
    pos: int,
    limit: nat,
)
    requires
        leb::decode(old_bytes, pos, limit) matches Ok((_, end)) && same_bytes(
            old_bytes,
            new_bytes,
            shift,
            pos,
            end,
        ),
    ensures
        leb::decode(new_bytes, pos + shift, limit) == Ok::<(nat, int), leb::LebError>(
            (
                leb::decode(old_bytes, pos, limit)->Ok_0.0,
                leb::decode(old_bytes, pos, limit)->Ok_0.1 + shift,
            ),
        ),
    decreases limit,
{
    leb::lemma_decode_bounds(old_bytes, pos, limit);
    assert(old_bytes[pos] == new_bytes[pos + shift]);
    if old_bytes[pos] >= 0x80 {
        lemma_decode_moves(old_bytes, new_bytes, shift, pos + 1, (limit - 1) as nat);
    }
}

pub(crate) proof fn lemma_byte_moves(
    old_bytes: Seq<u8>,
    new_bytes: Seq<u8>,
    shift: int,
    pos: int,
)
    requires
        0 <= pos <= old_bytes.len(),
        taken(grammar::byte_at(old_bytes, pos), old_bytes, new_bytes, shift, pos),
    ensures
        grammar::byte_at(new_bytes, pos + shift) == shifted(
            grammar::byte_at(old_bytes, pos),
            shift,
        ),
{
    assert(old_bytes[pos] == new_bytes[pos + shift]);
}

pub(crate) proof fn lemma_u32_moves(
    old_bytes: Seq<u8>,
    new_bytes: Seq<u8>,
    shift: int,
    pos: int,
)
    requires
        0 <= pos <= old_bytes.len(),
        taken(grammar::u32_at(old_bytes, pos), old_bytes, new_bytes, shift, pos),
    ensures
        grammar::u32_at(new_bytes, pos + shift) == shifted(
            grammar::u32_at(old_bytes, pos),
            shift,
        ),
{
    lemma_decode_moves(old_bytes, new_bytes, shift, pos, leb::MAX_U32_BYTES as nat);
}

pub(crate) proof fn lemma_name_moves(
    old_bytes: Seq<u8>,
    new_bytes: Seq<u8>,
    shift: int,
    pos: int,
)
    requires
        0 <= pos <= old_bytes.len(),
        taken(grammar::name_at(old_bytes, pos), old_bytes, new_bytes, shift, pos),
    ensures
        grammar::name_at(new_bytes, pos + shift) == shifted(
            grammar::name_at(old_bytes, pos),
            shift,
        ),
{
    extent::lemma_u32_bounds(old_bytes, pos);
    lemma_u32_moves(old_bytes, new_bytes, shift, pos);
    if let Outcome::Read { value: len, end: start } = grammar::u32_at(old_bytes, pos) {
        assert(old_bytes.subrange(start, start + len) =~= new_bytes.subrange(
            start + shift,
            start + shift + len,
        ));
    }
}

pub(crate) proof fn lemma_val_type_moves(
    old_bytes: Seq<u8>,
    new_bytes: Seq<u8>,
    shift: int,
    pos: int,
)
    requires
        0 <= pos <= old_bytes.len(),
        taken(grammar::val_type_at(old_bytes, pos), old_bytes, new_bytes, shift, pos),
    ensures
        grammar::val_type_at(new_bytes, pos + shift) == shifted(
            grammar::val_type_at(old_bytes, pos),
            shift,
        ),
{
    lemma_byte_moves(old_bytes, new_bytes, shift, pos);
}

pub(crate) proof fn lemma_items_moves<T>(
    old_bytes: Seq<u8>,
    new_bytes: Seq<u8>,
    shift: int,
    old_item: spec_fn(int) -> Outcome<T>,
    new_item: spec_fn(int) -> Outcome<T>,
    pos: int,
    count: nat,
)
    requires
        0 <= pos <= old_bytes.len(),
        extent::stays_within(old_item, old_bytes.len()),
        carries_over(old_bytes, new_bytes, shift, old_item, new_item),
        taken(grammar::items_at(old_item, pos, count), old_bytes, new_bytes, shift, pos),
    ensures
        grammar::items_at(new_item, pos + shift, count) == shifted(
            grammar::items_at(old_item, pos, count),
            shift,
        ),
    decreases count,
{
    if count > 0 {
        extent::lemma_items_bounds(old_bytes, old_item, pos, (count - 1) as nat);
        if let Outcome::Read { end, .. } = grammar::items_at(old_item, pos, (count - 1) as nat) {
            assert(extent::in_bounds(old_item(end), end, old_bytes.len()));
            lemma_items_moves(
                old_bytes,
                new_bytes,
                shift,
                old_item,
                new_item,
                pos,
                (count - 1) as nat,
            );
        }
    }
}

pub(crate) proof fn lemma_vec_moves<T>(
    old_bytes: Seq<u8>,
    new_bytes: Seq<u8>,
    shift: int,
    old_item: spec_fn(int) -> Outcome<T>,
    new_item: spec_fn(int) -> Outcome<T>,
    pos: int,
)
    requires
        0 <= pos <= old_bytes.len(),
        extent::stays_within(old_item, old_bytes.len()),
        carries_over(old_bytes, new_bytes, shift, old_item, new_item),
        taken(grammar::vec_at(old_bytes, old_item, pos), old_bytes, new_bytes, shift, pos),
    ensures
        grammar::vec_at(new_bytes, new_item, pos + shift) == shifted(
            grammar::vec_at(old_bytes, old_item, pos),
            shift,
        ),
{
    extent::lemma_u32_bounds(old_bytes, pos);
    if let Outcome::Read { value: count, end } = grammar::u32_at(old_bytes, pos) {
        extent::lemma_items_bounds(old_bytes, old_item, end, count as nat);
        lemma_u32_moves(old_bytes, new_bytes, shift, pos);
        lemma_items_moves(
            old_bytes,
            new_bytes,
            shift,
            old_item,
            new_item,
            end,
            count as nat,
        );
    }
}

pub(crate) proof fn lemma_val_type_reader(
    old_bytes: Seq<u8>,
    new_bytes: Seq<u8>,
    shift: int,
)
    ensures
        extent::stays_within(grammar::val_type_reader(old_bytes), old_bytes.len()),
        carries_over(
            old_bytes,
            new_bytes,
            shift,
            grammar::val_type_reader(old_bytes),
            grammar::val_type_reader(new_bytes),
        ),
{
    let old_read = grammar::val_type_reader(old_bytes);
    let new_read = grammar::val_type_reader(new_bytes);
    assert forall|pos: int| 0 <= pos <= old_bytes.len() implies extent::in_bounds(
        #[trigger] old_read(pos),
        pos,
        old_bytes.len(),
    ) by {
        extent::lemma_val_type_bounds(old_bytes, pos);
    }
    assert forall|pos: int|
        0 <= pos <= old_bytes.len() && taken(
            #[trigger] old_read(pos),
            old_bytes,
            new_bytes,
            shift,
            pos,
        ) implies new_read(pos + shift) == shifted(old_read(pos), shift) by {
        lemma_val_type_moves(old_bytes, new_bytes, shift, pos);
    }
}

pub(crate) proof fn lemma_val_types_moves(
    old_bytes: Seq<u8>,
    new_bytes: Seq<u8>,
    shift: int,
    pos: int,
)
    requires
        0 <= pos <= old_bytes.len(),
        taken(grammar::val_types_at(old_bytes, pos), old_bytes, new_bytes, shift, pos),
    ensures
        grammar::val_types_at(new_bytes, pos + shift) == shifted(
            grammar::val_types_at(old_bytes, pos),
            shift,
        ),
{
    lemma_val_type_reader(old_bytes, new_bytes, shift);
    lemma_vec_moves(
        old_bytes,
        new_bytes,
        shift,
        grammar::val_type_reader(old_bytes),
        grammar::val_type_reader(new_bytes),
        pos,
    );
}

pub(crate) proof fn lemma_func_type_moves(
    old_bytes: Seq<u8>,
    new_bytes: Seq<u8>,
    shift: int,
    pos: int,
)
    requires
        0 <= pos <= old_bytes.len(),
        taken(grammar::func_type_at(old_bytes, pos), old_bytes, new_bytes, shift, pos),
    ensures
        grammar::func_type_at(new_bytes, pos + shift) == shifted(
            grammar::func_type_at(old_bytes, pos),
            shift,
        ),
{
    extent::lemma_func_type_bounds(old_bytes, pos);
    lemma_byte_moves(old_bytes, new_bytes, shift, pos);
    extent::lemma_val_types_bounds(old_bytes, pos + 1);
    if let Outcome::Read { end, .. } = grammar::val_types_at(old_bytes, pos + 1) {
        extent::lemma_val_types_bounds(old_bytes, end);
        lemma_val_types_moves(old_bytes, new_bytes, shift, pos + 1);
        lemma_val_types_moves(old_bytes, new_bytes, shift, end);
    }
}

pub(crate) proof fn lemma_func_type_reader(
    old_bytes: Seq<u8>,
    new_bytes: Seq<u8>,
    shift: int,
)
    ensures
        extent::stays_within(grammar::func_type_reader(old_bytes), old_bytes.len()),
        carries_over(
            old_bytes,
            new_bytes,
            shift,
            grammar::func_type_reader(old_bytes),
            grammar::func_type_reader(new_bytes),
        ),
{
    let old_read = grammar::func_type_reader(old_bytes);
    let new_read = grammar::func_type_reader(new_bytes);
    assert forall|pos: int| 0 <= pos <= old_bytes.len() implies extent::in_bounds(
        #[trigger] old_read(pos),
        pos,
        old_bytes.len(),
    ) by {
        extent::lemma_func_type_bounds(old_bytes, pos);
    }
    assert forall|pos: int|
        0 <= pos <= old_bytes.len() && taken(
            #[trigger] old_read(pos),
            old_bytes,
            new_bytes,
            shift,
            pos,
        ) implies new_read(pos + shift) == shifted(old_read(pos), shift) by {
        lemma_func_type_moves(old_bytes, new_bytes, shift, pos);
    }
}

pub(crate) proof fn lemma_limits_moves(
    old_bytes: Seq<u8>,
    new_bytes: Seq<u8>,
    shift: int,
    pos: int,
)
    requires
        0 <= pos <= old_bytes.len(),
        taken(grammar::limits_at(old_bytes, pos), old_bytes, new_bytes, shift, pos),
    ensures
        grammar::limits_at(new_bytes, pos + shift) == shifted(
            grammar::limits_at(old_bytes, pos),
            shift,
        ),
{
    extent::lemma_limits_bounds(old_bytes, pos);
    lemma_byte_moves(old_bytes, new_bytes, shift, pos);
    extent::lemma_u32_bounds(old_bytes, pos + 1);
    if let Outcome::Read { end, .. } = grammar::u32_at(old_bytes, pos + 1) {
        extent::lemma_u32_bounds(old_bytes, end);
        lemma_u32_moves(old_bytes, new_bytes, shift, pos + 1);
        if old_bytes[pos] == 0x01 {
            lemma_u32_moves(old_bytes, new_bytes, shift, end);
        }
    }
}

pub(crate) proof fn lemma_type_index_moves(
    old_bytes: Seq<u8>,
    new_bytes: Seq<u8>,
    shift: int,
    pos: int,
    type_count: nat,
)
    requires
        0 <= pos <= old_bytes.len(),
        taken(
            grammar::type_index_at(old_bytes, pos, type_count),
            old_bytes,
            new_bytes,
            shift,
            pos,
        ),
    ensures
        grammar::type_index_at(new_bytes, pos + shift, type_count) == shifted(
            grammar::type_index_at(old_bytes, pos, type_count),
            shift,
        ),
{
    lemma_u32_moves(old_bytes, new_bytes, shift, pos);
}

pub(crate) proof fn lemma_type_index_reader(
    old_bytes: Seq<u8>,
    new_bytes: Seq<u8>,
    shift: int,
    type_count: nat,
)
    ensures
        extent::stays_within(grammar::type_index_reader(old_bytes, type_count), old_bytes.len()),
        carries_over(
            old_bytes,
            new_bytes,
            shift,
            grammar::type_index_reader(old_bytes, type_count),
            grammar::type_index_reader(new_bytes, type_count),
        ),
{
    let old_read = grammar::type_index_reader(old_bytes, type_count);
    let new_read = grammar::type_index_reader(new_bytes, type_count);
    assert forall|pos: int| 0 <= pos <= old_bytes.len() implies extent::in_bounds(
        #[trigger] old_read(pos),
        pos,
        old_bytes.len(),
    ) by {
        extent::lemma_type_index_bounds(old_bytes, pos, type_count);
    }
    assert forall|pos: int|
        0 <= pos <= old_bytes.len() && taken(
            #[trigger] old_read(pos),
            old_bytes,
            new_bytes,
            shift,
            pos,
        ) implies new_read(pos + shift) == shifted(old_read(pos), shift) by {
        lemma_type_index_moves(old_bytes, new_bytes, shift, pos, type_count);
    }
}

pub(crate) proof fn lemma_global_moves(
    old_bytes: Seq<u8>,
    new_bytes: Seq<u8>,
    shift: int,
    pos: int,
)
    requires
        0 <= pos <= old_bytes.len(),
        taken(grammar::global_at(old_bytes, pos), old_bytes, new_bytes, shift, pos),
    ensures
        grammar::global_at(new_bytes, pos + shift) == shifted(
            grammar::global_at(old_bytes, pos),
            shift,
        ),
{
    extent::lemma_val_type_bounds(old_bytes, pos);
    lemma_val_type_moves(old_bytes, new_bytes, shift, pos);
    lemma_byte_moves(old_bytes, new_bytes, shift, pos + 1);
}

pub(crate) proof fn lemma_table_moves(
    old_bytes: Seq<u8>,
    new_bytes: Seq<u8>,
    shift: int,
    pos: int,
)
    requires
        0 <= pos <= old_bytes.len(),
        taken(grammar::table_at(old_bytes, pos), old_bytes, new_bytes, shift, pos),
    ensures
        grammar::table_at(new_bytes, pos + shift) == shifted(
            grammar::table_at(old_bytes, pos),
            shift,
        ),
{
    extent::lemma_limits_bounds(old_bytes, pos + 1);
    lemma_byte_moves(old_bytes, new_bytes, shift, pos);
    lemma_limits_moves(old_bytes, new_bytes, shift, pos + 1);
}

pub(crate) proof fn lemma_import_desc_moves(
    old_bytes: Seq<u8>,
    new_bytes: Seq<u8>,
    shift: int,
    pos: int,
    type_count: nat,
)
    requires
        0 <= pos <= old_bytes.len(),
        taken(
            grammar::import_desc_at(old_bytes, pos, type_count),
            old_bytes,
            new_bytes,
            shift,
            pos,
        ),
    ensures
        grammar::import_desc_at(new_bytes, pos + shift, type_count) == shifted(
            grammar::import_desc_at(old_bytes, pos, type_count),
            shift,
        ),
{
    extent::lemma_import_desc_bounds(old_bytes, pos, type_count);
    lemma_byte_moves(old_bytes, new_bytes, shift, pos);
    if old_bytes[pos] == 0x00 {
        lemma_type_index_moves(old_bytes, new_bytes, shift, pos + 1, type_count);
    } else if old_bytes[pos] == 0x01 {
        lemma_table_moves(old_bytes, new_bytes, shift, pos + 1);
    } else if old_bytes[pos] == 0x02 {
        lemma_limits_moves(old_bytes, new_bytes, shift, pos + 1);
    } else {
        lemma_global_moves(old_bytes, new_bytes, shift, pos + 1);
    }
}

pub(crate) proof fn lemma_import_moves(
    old_bytes: Seq<u8>,
    new_bytes: Seq<u8>,
    shift: int,
    pos: int,
    type_count: nat,
)
    requires
        0 <= pos <= old_bytes.len(),
        taken(
            grammar::import_at(old_bytes, pos, type_count),
            old_bytes,
            new_bytes,
            shift,
            pos,
        ),
    ensures
        grammar::import_at(new_bytes, pos + shift, type_count) == shifted(
            grammar::import_at(old_bytes, pos, type_count),
            shift,
        ),
{
    extent::lemma_name_bounds(old_bytes, pos);
    if let Outcome::Read { end: module_end, .. } = grammar::name_at(old_bytes, pos) {
        extent::lemma_name_bounds(old_bytes, module_end);
        if let Outcome::Read { end: name_end, .. } = grammar::name_at(old_bytes, module_end) {
            extent::lemma_import_desc_bounds(old_bytes, name_end, type_count);
            lemma_name_moves(old_bytes, new_bytes, shift, pos);
            lemma_name_moves(old_bytes, new_bytes, shift, module_end);
            lemma_import_desc_moves(old_bytes, new_bytes, shift, name_end, type_count);
        }
    }
}

pub(crate) proof fn lemma_import_reader(
    old_bytes: Seq<u8>,
    new_bytes: Seq<u8>,
    shift: int,
    type_count: nat,
)
    ensures
        extent::stays_within(grammar::import_reader(old_bytes, type_count), old_bytes.len()),
        carries_over(
            old_bytes,
            new_bytes,
            shift,
            grammar::import_reader(old_bytes, type_count),
            grammar::import_reader(new_bytes, type_count),
        ),
{
    let old_read = grammar::import_reader(old_bytes, type_count);
    let new_read = grammar::import_reader(new_bytes, type_count);
    assert forall|pos: int| 0 <= pos <= old_bytes.len() implies extent::in_bounds(
        #[trigger] old_read(pos),
        pos,
        old_bytes.len(),
    ) by {
        extent::lemma_import_bounds(old_bytes, pos, type_count);
    }
    assert forall|pos: int|
        0 <= pos <= old_bytes.len() && taken(
            #[trigger] old_read(pos),
            old_bytes,
            new_bytes,
            shift,
            pos,
        ) implies new_read(pos + shift) == shifted(old_read(pos), shift) by {
        lemma_import_moves(old_bytes, new_bytes, shift, pos, type_count);
    }
}

pub(crate) proof fn lemma_export_moves(
    old_bytes: Seq<u8>,
    new_bytes: Seq<u8>,
    shift: int,
    pos: int,
)
    requires
        0 <= pos <= old_bytes.len(),
        taken(grammar::export_at(old_bytes, pos), old_bytes, new_bytes, shift, pos),
    ensures
        grammar::export_at(new_bytes, pos + shift) == shifted(
            grammar::export_at(old_bytes, pos),
            shift,
        ),
{
    extent::lemma_name_bounds(old_bytes, pos);
    if let Outcome::Read { end, .. } = grammar::name_at(old_bytes, pos) {
        extent::lemma_u32_bounds(old_bytes, end + 1);
        lemma_name_moves(old_bytes, new_bytes, shift, pos);
        lemma_byte_moves(old_bytes, new_bytes, shift, end);
        lemma_u32_moves(old_bytes, new_bytes, shift, end + 1);
    }
}

pub(crate) proof fn lemma_export_reader(
    old_bytes: Seq<u8>,
    new_bytes: Seq<u8>,
    shift: int,
)
    ensures
        extent::stays_within(grammar::export_reader(old_bytes), old_bytes.len()),
        carries_over(
            old_bytes,
            new_bytes,
            shift,
            grammar::export_reader(old_bytes),
            grammar::export_reader(new_bytes),
        ),
{
    let old_read = grammar::export_reader(old_bytes);
    let new_read = grammar::export_reader(new_bytes);
    assert forall|pos: int| 0 <= pos <= old_bytes.len() implies extent::in_bounds(
        #[trigger] old_read(pos),
        pos,
        old_bytes.len(),
    ) by {
        extent::lemma_export_bounds(old_bytes, pos);
    }
    assert forall|pos: int|
        0 <= pos <= old_bytes.len() && taken(
            #[trigger] old_read(pos),
            old_bytes,
            new_bytes,
            shift,
            pos,
        ) implies new_read(pos + shift) == shifted(old_read(pos), shift) by {
        lemma_export_moves(old_bytes, new_bytes, shift, pos);
    }
}

pub(crate) proof fn lemma_local_decl_moves(
    old_bytes: Seq<u8>,
    new_bytes: Seq<u8>,
    shift: int,
    pos: int,
)
    requires
        0 <= pos <= old_bytes.len(),
        taken(grammar::local_decl_at(old_bytes, pos), old_bytes, new_bytes, shift, pos),
    ensures
        grammar::local_decl_at(new_bytes, pos + shift) == shifted(
            grammar::local_decl_at(old_bytes, pos),
            shift,
        ),
{
    extent::lemma_u32_bounds(old_bytes, pos);
    if let Outcome::Read { end, .. } = grammar::u32_at(old_bytes, pos) {
        extent::lemma_val_type_bounds(old_bytes, end);
        lemma_u32_moves(old_bytes, new_bytes, shift, pos);
        lemma_val_type_moves(old_bytes, new_bytes, shift, end);
    }
}

pub(crate) proof fn lemma_local_decl_reader(
    old_bytes: Seq<u8>,
    new_bytes: Seq<u8>,
    shift: int,
)
    ensures
        extent::stays_within(grammar::local_decl_reader(old_bytes), old_bytes.len()),
        carries_over(
            old_bytes,
            new_bytes,
            shift,
            grammar::local_decl_reader(old_bytes),
            grammar::local_decl_reader(new_bytes),
        ),
{
    let old_read = grammar::local_decl_reader(old_bytes);
    let new_read = grammar::local_decl_reader(new_bytes);
    assert forall|pos: int| 0 <= pos <= old_bytes.len() implies extent::in_bounds(
        #[trigger] old_read(pos),
        pos,
        old_bytes.len(),
    ) by {
        extent::lemma_local_decl_bounds(old_bytes, pos);
    }
    assert forall|pos: int|
        0 <= pos <= old_bytes.len() && taken(
            #[trigger] old_read(pos),
            old_bytes,
            new_bytes,
            shift,
            pos,
        ) implies new_read(pos + shift) == shifted(old_read(pos), shift) by {
        lemma_local_decl_moves(old_bytes, new_bytes, shift, pos);
    }
}

pub(crate) proof fn lemma_code_moves(
    old_bytes: Seq<u8>,
    new_bytes: Seq<u8>,
    shift: int,
    pos: int,
)
    requires
        0 <= pos <= old_bytes.len(),
        taken(grammar::code_at(old_bytes, pos), old_bytes, new_bytes, shift, pos),
    ensures
        grammar::code_at(new_bytes, pos + shift) == shifted(
            grammar::code_at(old_bytes, pos),
            shift,
        ),
{
    extent::lemma_u32_bounds(old_bytes, pos);
    if let Outcome::Read { value: size, end: start } = grammar::u32_at(old_bytes, pos) {
        let old_item = grammar::local_decl_reader(old_bytes);
        let new_item = grammar::local_decl_reader(new_bytes);
        lemma_u32_moves(old_bytes, new_bytes, shift, pos);
        lemma_local_decl_reader(old_bytes, new_bytes, shift);
        extent::lemma_vec_bounds(old_bytes, old_item, start);
        lemma_vec_moves(old_bytes, new_bytes, shift, old_item, new_item, start);
        if let Outcome::Read { end, .. } = grammar::vec_at(old_bytes, old_item, start) {
            assert(old_bytes.subrange(end, start + size) =~= new_bytes.subrange(
                end + shift,
                start + shift + size,
            ));
        }
    }
}

pub(crate) proof fn lemma_code_reader(
    old_bytes: Seq<u8>,
    new_bytes: Seq<u8>,
    shift: int,
)
    ensures
        extent::stays_within(grammar::code_reader(old_bytes), old_bytes.len()),
        carries_over(
            old_bytes,
            new_bytes,
            shift,
            grammar::code_reader(old_bytes),
            grammar::code_reader(new_bytes),
        ),
{
    let old_read = grammar::code_reader(old_bytes);
    let new_read = grammar::code_reader(new_bytes);
    assert forall|pos: int| 0 <= pos <= old_bytes.len() implies extent::in_bounds(
        #[trigger] old_read(pos),
        pos,
        old_bytes.len(),
    ) by {
        extent::lemma_code_bounds(old_bytes, pos);
    }
    assert forall|pos: int|
        0 <= pos <= old_bytes.len() && taken(
            #[trigger] old_read(pos),
            old_bytes,
            new_bytes,
            shift,
            pos,
        ) implies new_read(pos + shift) == shifted(old_read(pos), shift) by {
        lemma_code_moves(old_bytes, new_bytes, shift, pos);
    }
}

pub(crate) proof fn lemma_codes_moves(
    old_bytes: Seq<u8>,
    new_bytes: Seq<u8>,
    shift: int,
    pos: int,
    func_count: nat,
)
    requires
        0 <= pos <= old_bytes.len(),
        taken(
            grammar::codes_at(old_bytes, pos, func_count),
            old_bytes,
            new_bytes,
            shift,
            pos,
        ),
    ensures
        grammar::codes_at(new_bytes, pos + shift, func_count) == shifted(
            grammar::codes_at(old_bytes, pos, func_count),
            shift,
        ),
{
    extent::lemma_u32_bounds(old_bytes, pos);
    if let Outcome::Read { value: count, end } = grammar::u32_at(old_bytes, pos) {
        let old_item = grammar::code_reader(old_bytes);
        let new_item = grammar::code_reader(new_bytes);
        lemma_code_reader(old_bytes, new_bytes, shift);
        extent::lemma_items_bounds(old_bytes, old_item, end, count as nat);
        lemma_u32_moves(old_bytes, new_bytes, shift, pos);
        lemma_items_moves(old_bytes, new_bytes, shift, old_item, new_item, end, count as nat);
    }
}

pub(crate) proof fn lemma_section_header_moves(
    old_bytes: Seq<u8>,
    new_bytes: Seq<u8>,
    shift: int,
    pos: int,
)
    requires
        0 <= pos <= old_bytes.len(),
        taken(grammar::section_header_at(old_bytes, pos), old_bytes, new_bytes, shift, pos),
    ensures
        grammar::section_header_at(new_bytes, pos + shift) == shifted(
            grammar::section_header_at(old_bytes, pos),
            shift,
        ),
{
    extent::lemma_u32_bounds(old_bytes, pos + 1);
    lemma_byte_moves(old_bytes, new_bytes, shift, pos);
    lemma_u32_moves(old_bytes, new_bytes, shift, pos + 1);
}

/// A section that opens, and whose whole extent stands in the new input, opens
/// there too.
pub(crate) proof fn lemma_section_start_moves(
    old_bytes: Seq<u8>,
    new_bytes: Seq<u8>,
    shift: int,
    pos: int,
    id: u8,
)
    requires
        0 <= pos <= old_bytes.len(),
        grammar::section_start_at(old_bytes, pos, id) matches Outcome::Read { value, .. }
            && same_bytes(old_bytes, new_bytes, shift, pos, value),
    ensures
        grammar::section_start_at(new_bytes, pos + shift, id) == (Outcome::Read {
            value: grammar::section_start_at(old_bytes, pos, id)->value + shift,
            end: grammar::section_start_at(old_bytes, pos, id)->end + shift,
        }),
{
    extent::lemma_section_start_bounds(old_bytes, pos, id);
    lemma_section_header_moves(old_bytes, new_bytes, shift, pos);
}

pub(crate) proof fn lemma_section_moves<T>(
    old_bytes: Seq<u8>,
    new_bytes: Seq<u8>,
    shift: int,
    pos: int,
    id: u8,
    old_content: spec_fn(int) -> Outcome<T>,
    new_content: spec_fn(int) -> Outcome<T>,
)
    requires
        0 <= pos <= old_bytes.len(),
        carries_over(old_bytes, new_bytes, shift, old_content, new_content),
        taken(
            grammar::section_at(old_bytes, pos, id, old_content),
            old_bytes,
            new_bytes,
            shift,
            pos,
        ),
    ensures
        grammar::section_at(new_bytes, pos + shift, id, new_content) == shifted(
            grammar::section_at(old_bytes, pos, id, old_content),
            shift,
        ),
{
    extent::lemma_section_start_bounds(old_bytes, pos, id);
    lemma_section_start_moves(old_bytes, new_bytes, shift, pos, id);
    if let Outcome::Read { end: start, .. } = grammar::section_start_at(old_bytes, pos, id) {
        assert(taken(old_content(start), old_bytes, new_bytes, shift, start));
    }
}

pub(crate) proof fn lemma_type_section_moves(
    old_bytes: Seq<u8>,
    new_bytes: Seq<u8>,
    shift: int,
    pos: int,
)
    requires
        0 <= pos <= old_bytes.len(),
        taken(grammar::type_section_at(old_bytes, pos), old_bytes, new_bytes, shift, pos),
    ensures
        grammar::type_section_at(new_bytes, pos + shift) == shifted(
            grammar::type_section_at(old_bytes, pos),
            shift,
        ),
{
    let old_item = grammar::func_type_reader(old_bytes);
    let new_item = grammar::func_type_reader(new_bytes);
    let old_content = |start: int| grammar::vec_at(old_bytes, old_item, start);
    let new_content = |start: int| grammar::vec_at(new_bytes, new_item, start);
    lemma_func_type_reader(old_bytes, new_bytes, shift);
    assert forall|at: int|
        0 <= at <= old_bytes.len() && taken(
            #[trigger] old_content(at),
            old_bytes,
            new_bytes,
            shift,
            at,
        ) implies new_content(at + shift) == shifted(old_content(at), shift) by {
        lemma_vec_moves(old_bytes, new_bytes, shift, old_item, new_item, at);
    }
    lemma_section_moves(
        old_bytes,
        new_bytes,
        shift,
        pos,
        grammar::SECTION_ID_TYPE,
        old_content,
        new_content,
    );
}

pub(crate) proof fn lemma_import_section_moves(
    old_bytes: Seq<u8>,
    new_bytes: Seq<u8>,
    shift: int,
    pos: int,
    type_count: nat,
)
    requires
        0 <= pos <= old_bytes.len(),
        taken(
            grammar::import_section_at(old_bytes, pos, type_count),
            old_bytes,
            new_bytes,
            shift,
            pos,
        ),
    ensures
        grammar::import_section_at(new_bytes, pos + shift, type_count) == shifted(
            grammar::import_section_at(old_bytes, pos, type_count),
            shift,
        ),
{
    let old_item = grammar::import_reader(old_bytes, type_count);
    let new_item = grammar::import_reader(new_bytes, type_count);
    let old_content = |start: int| grammar::vec_at(old_bytes, old_item, start);
    let new_content = |start: int| grammar::vec_at(new_bytes, new_item, start);
    lemma_import_reader(old_bytes, new_bytes, shift, type_count);
    assert forall|at: int|
        0 <= at <= old_bytes.len() && taken(
            #[trigger] old_content(at),
            old_bytes,
            new_bytes,
            shift,
            at,
        ) implies new_content(at + shift) == shifted(old_content(at), shift) by {
        lemma_vec_moves(old_bytes, new_bytes, shift, old_item, new_item, at);
    }
    lemma_section_moves(
        old_bytes,
        new_bytes,
        shift,
        pos,
        grammar::SECTION_ID_IMPORT,
        old_content,
        new_content,
    );
}

pub(crate) proof fn lemma_function_section_moves(
    old_bytes: Seq<u8>,
    new_bytes: Seq<u8>,
    shift: int,
    pos: int,
    type_count: nat,
)
    requires
        0 <= pos <= old_bytes.len(),
        taken(
            grammar::function_section_at(old_bytes, pos, type_count),
            old_bytes,
            new_bytes,
            shift,
            pos,
        ),
    ensures
        grammar::function_section_at(new_bytes, pos + shift, type_count) == shifted(
            grammar::function_section_at(old_bytes, pos, type_count),
            shift,
        ),
{
    let old_item = grammar::type_index_reader(old_bytes, type_count);
    let new_item = grammar::type_index_reader(new_bytes, type_count);
    let old_content = |start: int| grammar::vec_at(old_bytes, old_item, start);
    let new_content = |start: int| grammar::vec_at(new_bytes, new_item, start);
    lemma_type_index_reader(old_bytes, new_bytes, shift, type_count);
    assert forall|at: int|
        0 <= at <= old_bytes.len() && taken(
            #[trigger] old_content(at),
            old_bytes,
            new_bytes,
            shift,
            at,
        ) implies new_content(at + shift) == shifted(old_content(at), shift) by {
        lemma_vec_moves(old_bytes, new_bytes, shift, old_item, new_item, at);
    }
    lemma_section_moves(
        old_bytes,
        new_bytes,
        shift,
        pos,
        grammar::SECTION_ID_FUNCTION,
        old_content,
        new_content,
    );
}

pub(crate) proof fn lemma_export_section_moves(
    old_bytes: Seq<u8>,
    new_bytes: Seq<u8>,
    shift: int,
    pos: int,
)
    requires
        0 <= pos <= old_bytes.len(),
        taken(grammar::export_section_at(old_bytes, pos), old_bytes, new_bytes, shift, pos),
    ensures
        grammar::export_section_at(new_bytes, pos + shift) == shifted(
            grammar::export_section_at(old_bytes, pos),
            shift,
        ),
{
    let old_item = grammar::export_reader(old_bytes);
    let new_item = grammar::export_reader(new_bytes);
    let old_content = |start: int| grammar::vec_at(old_bytes, old_item, start);
    let new_content = |start: int| grammar::vec_at(new_bytes, new_item, start);
    lemma_export_reader(old_bytes, new_bytes, shift);
    assert forall|at: int|
        0 <= at <= old_bytes.len() && taken(
            #[trigger] old_content(at),
            old_bytes,
            new_bytes,
            shift,
            at,
        ) implies new_content(at + shift) == shifted(old_content(at), shift) by {
        lemma_vec_moves(old_bytes, new_bytes, shift, old_item, new_item, at);
    }
    lemma_section_moves(
        old_bytes,
        new_bytes,
        shift,
        pos,
        grammar::SECTION_ID_EXPORT,
        old_content,
        new_content,
    );
}

pub(crate) proof fn lemma_start_section_moves(
    old_bytes: Seq<u8>,
    new_bytes: Seq<u8>,
    shift: int,
    pos: int,
)
    requires
        0 <= pos <= old_bytes.len(),
        taken(grammar::start_section_at(old_bytes, pos), old_bytes, new_bytes, shift, pos),
    ensures
        grammar::start_section_at(new_bytes, pos + shift) == shifted(
            grammar::start_section_at(old_bytes, pos),
            shift,
        ),
{
    let old_content = |start: int| grammar::u32_at(old_bytes, start);
    let new_content = |start: int| grammar::u32_at(new_bytes, start);
    assert forall|at: int|
        0 <= at <= old_bytes.len() && taken(
            #[trigger] old_content(at),
            old_bytes,
            new_bytes,
            shift,
            at,
        ) implies new_content(at + shift) == shifted(old_content(at), shift) by {
        lemma_u32_moves(old_bytes, new_bytes, shift, at);
    }
    lemma_section_moves(
        old_bytes,
        new_bytes,
        shift,
        pos,
        grammar::SECTION_ID_START,
        old_content,
        new_content,
    );
}

pub(crate) proof fn lemma_code_section_moves(
    old_bytes: Seq<u8>,
    new_bytes: Seq<u8>,
    shift: int,
    pos: int,
    func_count: nat,
)
    requires
        0 <= pos <= old_bytes.len(),
        taken(
            grammar::code_section_at(old_bytes, pos, func_count),
            old_bytes,
            new_bytes,
            shift,
            pos,
        ),
    ensures
        grammar::code_section_at(new_bytes, pos + shift, func_count) == shifted(
            grammar::code_section_at(old_bytes, pos, func_count),
            shift,
        ),
{
    let old_content = |start: int| grammar::codes_at(old_bytes, start, func_count);
    let new_content = |start: int| grammar::codes_at(new_bytes, start, func_count);
    assert forall|at: int|
        0 <= at <= old_bytes.len() && taken(
            #[trigger] old_content(at),
            old_bytes,
            new_bytes,
            shift,
            at,
        ) implies new_content(at + shift) == shifted(old_content(at), shift) by {
        lemma_codes_moves(old_bytes, new_bytes, shift, at, func_count);
    }
    lemma_section_moves(
        old_bytes,
        new_bytes,
        shift,
        pos,
        grammar::SECTION_ID_CODE,
        old_content,
        new_content,
    );
}

pub(crate) proof fn lemma_custom_section_moves(
    old_bytes: Seq<u8>,
    new_bytes: Seq<u8>,
    shift: int,
    pos: int,
)
    requires
        0 <= pos <= old_bytes.len(),
        taken(grammar::custom_section_at(old_bytes, pos), old_bytes, new_bytes, shift, pos),
    ensures
        grammar::custom_section_at(new_bytes, pos + shift) == shifted(
            grammar::custom_section_at(old_bytes, pos),
            shift,
        ),
{
    let id = grammar::SECTION_ID_CUSTOM;
    extent::lemma_section_start_bounds(old_bytes, pos, id);
    lemma_section_start_moves(old_bytes, new_bytes, shift, pos, id);
    if let Outcome::Read { end: start, .. } = grammar::section_start_at(old_bytes, pos, id) {
        extent::lemma_name_bounds(old_bytes, start);
        lemma_name_moves(old_bytes, new_bytes, shift, start);
    }
}

pub(crate) proof fn lemma_any_section_moves(
    old_bytes: Seq<u8>,
    new_bytes: Seq<u8>,
    shift: int,
    pos: int,
)
    requires
        0 <= pos <= old_bytes.len(),
        taken(grammar::any_section_at(old_bytes, pos), old_bytes, new_bytes, shift, pos),
    ensures
        grammar::any_section_at(new_bytes, pos + shift) == shifted(
            grammar::any_section_at(old_bytes, pos),
            shift,
        ),
{
    extent::lemma_section_header_bounds(old_bytes, pos);
    lemma_section_header_moves(old_bytes, new_bytes, shift, pos);
}

} // verus!
