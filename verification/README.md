# clay

The core of the clay scripting language's runtime, verified with Verus.

- `vm::runtime` — the interpreter state: the heap, the global scope, the undefined value and
  the id allocator (ids handed back are reused last-in first-out).
- `vm::heap`, `vm::gc` — the heap of objects and its mark-and-sweep collector: a round keeps
  exactly what the root scope reaches plus the objects new since the last round.
- `var::meta`, `var::call` — reading, writing, defining and calling properties of objects:
  scopes look a name up through the scopes around them, modules export names once, the void
  object outside the outermost scope refuses everything.
- `var::ctor` — the types' constructor objects, one kept per runtime, and what calling them
  makes; `VarPtr::cast` checks an object's type.
- `vm::error`, `vm::signal` — runtime errors and the ways an evaluation stops.
- `prelude` — strings (escapes and templates), methods, modules, functions, integer addition,
  and the line handling of the read-eval-print loop (`.exit`, blocks opened by `{`).
- `parse::t2c` — turning token trees into code.

`app/` holds the host: input and output, the host functions, the call loop, the
read-eval-print loop and the collector's loop.
