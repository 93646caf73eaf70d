# rcl_core

Tells React Server Components and Client Components apart. The library parses a JSX or TSX
module, finds the components and types that it declares, imports, exports and renders, looks the
imports up through the modules around it, and says of each usage whether it is a client or a
server component and which file declares it.

- `src/` is the library, written in Verus. Every function states in its contract what it gives;
  the parser, the JSON reader, the module resolver and the address parser stand behind small
  functions whose contracts are taken on trust.
- `tests/` runs the library on concrete sources.
- `app/` is what surrounds it: the `rcl-lsp` language server, the printer of canonical reports,
  the bindings for WebAssembly hosts, and the Zed extension.

Offsets are UTF-16 code units, and ranges are half open. Paths are text; functions that take them
apart are told whether they are those of Windows. A source may have up to `u32::MAX` bytes.
