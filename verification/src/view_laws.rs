//! What the contracts say of a value's view, they say of the value: a view shows
//! every field, in its place.

use crate::error;
use crate::error::ParseError;
use crate::grammar;
use crate::grammar::Outcome;
use crate::types::{Code, Export, FuncType, Import};
use crate::{Func, Module};
use vstd::prelude::*;

verus! {

/// A result agrees with what is stated exactly if it is the value that is read, and
/// the position the end of it, or the error and the position are those of the
/// failure.
pub proof fn law_agreement_is_exact<T: DeepView>(
    res: Result<T, ParseError>,
    pos: usize,
    outcome: Outcome<T::V>,
)
    ensures
        grammar::agrees(res, pos, outcome) <==> outcome == (match res {
            Ok(value) => Outcome::Read { value: value.deep_view(), end: pos as int },
            Err(error) => Outcome::Failed {
                kind: error.kind,
                offset: error.offset as int,
                stop: pos as int,
            },
        }),
        grammar::agrees(res, pos, outcome.stopping_at_offset()) ==> match outcome {
            Outcome::Read { value, end } => res matches Ok(found) && found.deep_view() == value
                && pos == end,
            Outcome::Failed { kind, offset, .. } => res matches Err(error) && error.kind == kind
                && error.offset == offset && pos == offset,
        },
{
}

/// The view of a signature shows its parameters and its results, each in order.
pub proof fn law_func_type_view(signature: FuncType)
    ensures
        signature.deep_view().params == signature.params@,
        signature.deep_view().results == signature.results@,
{
    assert(signature.params.deep_view() =~= signature.params@);
    assert(signature.results.deep_view() =~= signature.results@);
}

/// The view of an import shows its module, its name and what it binds.
pub proof fn law_import_view(import: Import)
    ensures
        import.deep_view().module == import.module@,
        import.deep_view().name == import.name@,
        import.deep_view().desc == import.desc,
{
}

/// The view of an export shows its name and what it binds.
pub proof fn law_export_view(export: Export)
    ensures
        export.deep_view().name == export.name@,
        export.deep_view().desc == export.desc,
{
}

/// The view of a function's code shows its locals and its instructions, each in
/// order.
pub proof fn law_code_view(code: Code)
    ensures
        code.deep_view().locals == code.locals@,
        code.deep_view().body == code.body@,
{
    assert(code.locals.deep_view() =~= code.locals@);
    assert(code.body.deep_view() =~= code.body@);
}

/// The view of a function shows its type, its locals and its instructions.
pub proof fn law_func_view(func: Func)
    ensures
        func.deep_view().type_index == func.type_index,
        func.deep_view().locals == func.locals@,
        func.deep_view().body == func.body@,
{
    assert(func.locals.deep_view() =~= func.locals@);
    assert(func.body.deep_view() =~= func.body@);
}

/// The view of a module shows everything that it holds, each list in order.
pub proof fn law_module_view(module: Module, i: int)
    ensures
        ({
            let view = module.deep_view();
            &&& view.types.len() == module.types@.len()
            &&& view.imports.len() == module.imports@.len()
            &&& view.funcs.len() == module.funcs@.len()
            &&& view.exports.len() == module.exports@.len()
            &&& view.start == module.start
            &&& view.custom_sections.len() == module.custom_sections@.len()
            &&& view.skipped_sections == module.skipped_sections@
            &&& 0 <= i < view.types.len() ==> view.types[i] == module.types@[i].deep_view()
            &&& 0 <= i < view.imports.len() ==> view.imports[i] == module.imports@[i].deep_view()
            &&& 0 <= i < view.funcs.len() ==> view.funcs[i] == module.funcs@[i].deep_view()
            &&& 0 <= i < view.exports.len() ==> view.exports[i] == module.exports@[i].deep_view()
            &&& 0 <= i < view.custom_sections.len() ==> view.custom_sections[i]
                == module.custom_sections@[i]@
        }),
{
    assert(module.skipped_sections.deep_view() =~= module.skipped_sections@);
}

/// The number that decimal digits stand for, most significant first.
pub open spec fn digits_to_number(digits: Seq<char>) -> int
    decreases digits.len(),
{
    if digits.len() == 0 {
        0
    } else {
        digits_to_number(digits.drop_last()) * 10 + (digits.last() as int - '0' as int)
    }
}

/// A number is written in decimal digits that stand for it, without a zero in front.
proof fn lemma_decimal(n: nat)
    ensures
        ({
            let digits = error::decimal(n);
            &&& digits.len() >= 1
            &&& digits_to_number(digits) == n
            &&& forall|i: int| 0 <= i < digits.len() ==> '0' <= #[trigger] digits[i] <= '9'
            &&& digits[0] == '0' ==> digits.len() == 1 && n == 0
        }),
    decreases n,
{
    let digits = error::decimal(n);
    if n < 10 {
        assert(digits.drop_last() =~= seq![]);
        assert(digits_to_number(seq![]) == 0);
    } else {
        lemma_decimal(n / 10);
        assert(digits.drop_last() =~= error::decimal(n / 10));
    }
}

/// The message of an error says what went wrong and ends in the offset, in decimal
/// digits that stand for it, without a zero in front.
pub proof fn law_messages_end_in_the_offset(error: ParseError)
    ensures
        exists|digits: Seq<char>|
            {
                &&& #[trigger] digits_to_number(digits) == error.offset
                &&& forall|i: int| 0 <= i < digits.len() ==> '0' <= #[trigger] digits[i] <= '9'
                &&& digits.len() >= 1
                &&& digits[0] == '0' ==> digits.len() == 1
                &&& error.spec_message() == error.kind.description() + " at offset "@ + digits
            },
{
    lemma_decimal(error.offset as nat);
    assert(digits_to_number(error::decimal(error.offset as nat)) == error.offset);
}

} // verus!
