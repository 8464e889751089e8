# vouch

A runtime for contract-checked functions ("nodes"), and a checker that reconciles prose
against what those functions returned. Every call ends in a value that satisfied its
contracts, or a refusal with a machine-readable reason; every number an answer quotes can be
traced to a recorded result.

## Layout

- `src/` — the library, verified with Verus. Each module states its behaviour in
  `requires`/`ensures` over spec functions:
  - `json`, `decimal`, `text`, `scalar_map` — values: JSON with exact decimal numbers, read
    from text through `serde_json` (`parse_json`), text helpers, and the sorted map of
    recorded figures.
  - `schema` — JSON Schema references, numeric leaves, and validation through `jsonschema`.
  - `contracts` — CEL contracts: typing JSON into CEL values by schema, and the fail-closed
    verdict (`only_true_holds`).
  - `manifest`, `registry` — loading checks for a node, shared collection contracts, discovery.
  - `verify`, `exec` — the checks before and after a node runs, and what its exit, stdout and
    stderr come to (exit 3 is the node refusing; any other failure is a broken node). A call
    that passes had every precondition and postcondition evaluate to `true`, as `cel` can
    evaluate it with the input and result bound.
  - `ledger`, `attest` — the ledger line for a call, and attestation of prose against it
    (`matching_precedes_ignoring`, `an_exact_figure_is_accounted_for`,
    `a_figure_from_the_question_is_not_fabrication`, `more_evidence_never_unmatches`,
    `more_evidence_never_adds_unmatched`, `accounting_paths_are_ascending_keys`,
    `a_returned_figure_is_on_record`,
    `an_input_is_not_provenance`).
  - `cases`, `eval` — node fixtures, and the routing-eval loop as a state machine
    (`Session`, `a_run_passes_exactly_when_nothing_failed`).
  - `markdown`, `commands` — the routing pack, and every report the command prints.
- `app/` — the command line: argument parsing, files, subprocesses, the clock, and the
  eval loop's driver. It hands the library plain values and prints what comes back.
- `tests/` — tests of the library through its public API.
