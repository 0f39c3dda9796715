# wasm_module

A parser for the WebAssembly binary module format, written and proved correct in
[Verus](https://github.com/verus-lang/verus).

`parse` takes the bytes of a module and returns its types, imports, functions,
exports and start function, the names of its custom sections and the ids of the
sections that it skips (table, memory, global, element, data-count and data). An
input that is not a module gives a `ParseError` that says what is wrong and at
which byte offset.

For example, the module

    (module (func (export "square") (param i32) (result i32)
      local.get 0  local.get 0  i32.mul))

has one type, one function of that type whose body is the bytes
`20 00 20 00 6C 0B`, and one export, `square`, which is function 0.

## Layout

- `src/grammar.rs` states the format: what stands at a position, where it ends,
  and how reading it fails. `src/module.rs` states how sections follow one
  another and what they come to together. `src/leb.rs` holds the number encoding.
- `src/binary.rs` reads one section at a time, `src/progress.rs` one after the
  other, and `src/lib.rs` puts the module together. Their contracts say that they
  return exactly what the grammar says, errors and positions included.
- `src/types.rs` and `src/error.rs` hold what is returned.
- `src/laws.rs` and `src/module_laws.rs` prove what holds of the parser as a whole:
  sections are in order, custom sections may stand anywhere, what is skipped does
  not matter, truncated sections are errors, type indices are in range, and so are
  export indices, except those into tables, memories or globals whose section was
  skipped. `src/extent.rs` and `src/locality.rs` hold the lemmas that these rest on.
- `app/` gives the error the standard library's `Display` and `Error`.
- `tests/` runs the parser on concrete inputs.

## What is trusted

That `core::str::from_utf8` accepts exactly the valid UTF-8 byte strings and
returns the characters that they encode.
