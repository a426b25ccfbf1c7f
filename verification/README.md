# nyar_mir

The verified core of the Nyar compiler's emitter and language front end, written in Verus.

- `names`, `text`, `search`: identifiers and paths, string helpers, first-match search.
- `types`, `type_rules`: platform types with their models, and the compatibility rules the
  semantic MIR contract applies to returns, fields and option aliases.
- `executable`, `contracts`, `executable_provider`: the backend-private executable function
  form, its value-type map, and the provider that maps operations to functions and resolves
  static callees.
- `layout`, `semantic_mir_contract`: aggregate and sum layouts, and the coded checks
  (`SMIR001`–`SMIR010`) a fragment submission must pass before lowering.
- `mir`, `link`: the language-level MIR with a model of each type, and the linking of reachable
  dependency functions, structs, sums and aggregate layouts into a consumer module, with its laws.
- `executable_conversion`: the conversion of language MIR functions into the executable form,
  with types concretized to platform types.
- `export_spec`, `builtin_helpers`, `hosts`, `suspend_payload`: `[export(..)]` metadata, builtin
  symbol helpers, host binding names and the (empty) suspend payloads.

Every function states its behaviour in `requires` / `ensures` and is proved by Verus, except
two trusted wrappers over the standard library (`uppercase_of` over `char::to_uppercase`,
`push_char` over `String::push`), whose contracts restate the standard library's documentation;
the tests under `tests/` run the same functions on concrete inputs.
