# yutha

Attenuable capabilities and a Cedar-based constitution engine for agent
swarms, with their contracts proved by Verus.

- `src/` — the verified library.
  - Capabilities: `scope`, `caveat`, `capability`, `check`, `store`
    (issue, attenuate, revoke, the chain check), `ids`.
  - Constitutions: `engine_config`, `validate` (structural checks,
    predicate resolution, load-time bounds, depth estimate), `layer_b`
    (synthesized scoring, trigger and transition policies), `loader`,
    `matched` (looking up matched policy ids), `scoring`, `procedure`,
    `evaluator` (the evaluation pipeline and the active/shadow slots),
    `canonical` (the canonical input and evidence texts an evaluation's
    digests are taken over),
    `enforcement` (detect, coach, quarantine, evict), `sandbox`.
  - Text and numbers: `text`, `numtext`, `decimal`, `score`, `string_map`,
    `table`.
  - Conformance bookkeeping: `outcome`, `scenarios`.
  - `cedar` holds every call into `cedar-policy`; each Cedar value is
    kept with the text it was read from, and Cedar's answers are named
    as functions of those texts.
- `tests/` — tests run against the compiled library.
- `app/` — the YAML wire format of engine configs, error messages, the
  clock, and async facades (tokio locks) over the evaluator, the
  enforcement engine and the capability store.

## What is not here

- Receipts, signatures and content hashing. The engine's receipt store,
  signer, passport and hashing crates are not available, so checks and
  evaluations return their outcomes without emitting receipts, the
  capability store takes capability ids from its caller, and an
  evaluation gives the canonical texts its digests are taken over
  (`canonical::hash_input_text`, `canonical::evidence_text`) rather than
  the digests themselves.
- The end-to-end conformance scenarios (queue mode, the send path, the
  enforcement loop, shadow mode and the others). They drive those same
  unavailable crates and async stores; `scenarios` keeps their
  bookkeeping, and the tests exercise each step's library logic.
- The workload schema extensions looked up by name: their schema files
  are not part of this tree, so the tests use small stand-in schemas.
- Floating point. Scope bounds are compared as exact decimals; exponent
  notation is not read.
