# openapi-mcp-bridge

Serves the operations of an OpenAPI document as MCP tools. The library (`src/`) holds the
logic, verified with Verus; `app/` holds the program around it: reading the settings from
the environment, loading and parsing the document, the HTTP client and the MCP server.

## Library modules

- `json`: a JSON value of the library's own with its mathematical model, and the repair of
  numeric flags (`0` → `false`, other numbers → `true`) that some documents write where a
  boolean belongs; the repair is proved idempotent.
- `openapi`: the parts of an OpenAPI document that tools are made from; the tool for each
  operation (`method_resource_operation` names, numbered suffixes for duplicates, argument
  schema from parameters and the JSON request body); where and how a document is read.
  The decision after each parse of the document (accept, repair and retry, fail).
  Proved: one tool per operation in document order, the first tool of a base name keeps it
  bare, and names are distinct unless a base name looks like a numbered duplicate.
- `tools`: the request a call of a tool sends (method; URL from the configured base URL,
  else the document's first server; authentication and extra headers; query or body) and
  what the answer becomes.
- `handler`: which tool a call names, a listed tool's input schema, how a call's outcome is
  reported.
- `text`: character-level operations (split, trim, prefixes, decimal numerals).
- `config`, `state`: the settings and the tool type.
