# stasc

A compiler from STAS scripts to SoulsTAS `.tas` action lines, verified with Verus.

- `src/` is the library. `lexer` and `parser` turn source text into a syntax tree
  (`ast`); `semantics` defines what running a program means; `interp` is the
  compiler that runs it and is proved to compute exactly that; `actions` is the
  action-line grammar; `loader` compiles whole programs and loads programs spread
  over several files (`import`), one request at a time; `laws` states and proves
  properties of the language and of loading, and `import_order` the order in
  which a diamond of imports is loaded; `text` and `number` hold string and
  number-literal helpers.
- Floating-point arithmetic is not part of the library: the compiler, the lexer
  and the action grammar ask a float unit, a function handed in by the caller,
  for every operation on a float and for the text of a float.
- `app/` is the command-line program: arguments, files, the float unit, printing.
- `tests/` runs the library on scripts and on a small in-memory file system.
