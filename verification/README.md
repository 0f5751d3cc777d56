# rlsp-yaml

Editor support for YAML: a language server whose logic lives in a verified
library.

- `src/` — the library, verified with Verus: scalar classification, folding
  ranges, anchors and aliases (go-to-definition, references, rename), hover
  text with JSON-schema information, new-line indentation, the code actions
  (YAML 1.1 booleans and octals, quoted booleans, unused anchors, flow and
  block styles, block scalars, tabs), and the formatters' layout, duplicate
  key removal and comment preservation. Each function's contract states its
  result; the laws that relate several functions are proof functions named
  `law_*`.
- `app/` — the server around it: the protocol, the YAML parser and the pretty
  printer of the workspace, `.editorconfig` files, JSON schemas.
- `tests/` — tests of the library through its public functions.
