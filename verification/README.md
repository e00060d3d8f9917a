# marisjs

The compiler core of the marisjs component framework, verified with Verus.

`src/` is the library. It holds the component model the parser front end
fills (`ast`, `script`, `jsx`, `component`, `printer`, `inspect`), the
analysis of which expressions read a signal (`reads`, over the tree swc
parses an expression into), the code
generators for client, server and API modules (`codegen`, `client`,
`server`, `api`, `generate`, `tree`), the build rules (`pipeline`, `routes`,
`paths`, `css`, `site`, `manifest`, `dotenv`, `init`, `splice`, and `assemble`, the
build step of one source file), the dev
server's request handling (`dev`, `http`) and the validation tool's result
shaping (`tool`). Every function there carries a contract that Verus proves;
the few calls into `serde_json` (writing string literals, reading the JSON
reports of Node runs), swc's expression parser, and the Unicode case mappings of `std` stand behind
trusted wrappers whose contracts are stated in their doc comments.

`app/` is the `marisjs` command: it reads component files with SWC and
hands the syntax tree to the library as its own model, walks directories, writes the
build output, runs Node for prerendering, middleware and API handlers,
watches files, serves HTTP in development, and serves the validation tool
over MCP (`marisjs mcp`).

`tests/` exercises the library on concrete inputs.
