# candy

Verified pieces of the front end and runtime of the Candy programming
language, written in Verus.

- `src/string_to_rcst.rs`, `src/grammar.rs`, `src/rcst.rs`: the
  indentation-first parser from source text to the raw concrete syntax tree.
  Every parser's result is exactly what its mathematical definition gives.
- `src/trivia.rs`: whitespace, newlines and comments keep all of the source.
- `src/cst.rs`: the concrete syntax tree with IDs and spans: printing it,
  dropping whitespace and comments, and finding nodes by ID or offset.
- `src/width.rs`: the formatter's arithmetic of line widths.
- `src/mir.rs`: IDs defined, referred to and replaced in the mid-level
  intermediate representation.
- `src/object.rs`: objects on the VM's heap, their structural equality, and
  moving the pointers they hold.
- `src/object_hash.rs`: hashes of heap values, written in a byte encoding
  that is the same on every machine; equal values hash alike.
- `src/struct_fields.rs`: a struct's fields as a map from values to values,
  ordered by hash.
- `src/object_format.rs`: the text of heap values.
- `src/object_inline.rs`: objects that fit in one word, told apart by their
  tag bits.
- `src/vm.rs`: the byte-code VM: one instruction at a time as a relation
  between states, running a closure, and handing builtin calls out to its
  caller.
- `src/channels.rs`, `src/fibers.rs`: channels between fibers (buffering
  and handing over packets) and the status of a VM of several fibers.
- `src/analyzer.rs`: the phases in which the language server analyzes a
  module, as a state machine whose caller does the compiling and running.
- `src/builtin_functions.rs`, `src/utils.rs`, `src/chars.rs`: builtin
  functions, small helpers, and character classification.
- `app/main.rs`: a command line that prints the raw concrete syntax tree or the
  width of a file.
