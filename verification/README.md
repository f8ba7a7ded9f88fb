# wasefire_interpreter

A WebAssembly interpreter for small devices, with its logic verified by Verus.

A module goes through three stages:

- `valid::prepare` validates a module in binary format and computes its side table: for each
  function body, its type, its position and the branch table that lets execution jump without
  scanning the code.
- `valid::merge` inserts the serialized side table as a custom section after the header, and
  `valid::verify` (used by `module::Module::new`) validates the module after that section and
  compares the side table it computes with the section's content. Its contract states the header,
  the framing of the section and that its content is a serialized side table whose entries lie
  within the module, and that a module of custom sections only verifies once merged; that the
  table is the one of the module's own code in general is what the code checks.
- The contracts of `prepare` state what any module it accepts has: sections in their order, each
  at most once, with nothing after the last one; at most one memory, imported or defined; and one
  side table entry per function body, with the type index that the function section gives it.
- `exec::Store` instantiates modules, links host functions and executes threads one instruction
  at a time (`exec::Thread::step`), handing host calls back to its caller.

Layout of `src/`:

- `bit_field`, `format`, `cursor`, `parser`: bit fields, LEB128 and section encoding, and the
  binary format parser, each with its specification over byte sequences.
- `syntax`, `numeric`: the abstract syntax and the integer operators.
- `side_table`: branch table entries and the side table encoding.
- `valid`: validation (operand typing, labels, branch stitching, sections).
- `module`: a validated module and access to its sections, exports and function bodies.
- `exec`, `runtime`: instances, memories, tables, globals, threads and the store.
- `applet`: results of platform calls, keys of fragmented store entries, serial transfers.
- `error`: errors and their conversion to errors of the platform API.

`app/` holds what the library leaves to its host: the loops that run threads until they return or
call the host, and floating-point arithmetic.
