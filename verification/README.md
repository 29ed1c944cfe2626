# batten

Batten's decision core as a verified Verus library: every public function in
`src/` carries a `requires`/`ensures` contract over a mathematical model (spec
functions over `Seq`, `Set`, `Multiset`, `int`), and Verus proves the code
against it.

- `src/lease/` — the landing lease: its commit body (`body`), git smart-HTTP
  framing and ref advertisements (`wire`), packfiles (`pack`), the requests
  and answers of one exchange (`exchange`), this clone's private records
  (`local`), and the decisions every verb takes over a read lease (`rules`).
- `src/land.rs` — the landing lap's records, its progress table, the ledger,
  the race between the green and stale arms, and the forge readings.
- `src/mutate.rs` — the mutation sweep: rows, judging, census, and reports.
- `src/lint.rs` — config smells, grooming receipts and admissions.
- `src/mcp.rs` — the `[mcp]` table, wiring resolution, unframing and
  reduction of a tool call's result.
- `src/mint.rs`, `src/minted.rs`, `src/landed.rs`, `src/outcome.rs`,
  `src/outputs.rs`, `src/markers.rs`, `src/main_watch.rs`, `src/patch.rs` —
  the declared tables a consumer configures and what each computes.
- `src/output.rs`, `src/exit.rs`, `src/error.rs` — the presentation ladder,
  the exit-status table, and the usage error.
- `src/json.rs`, `src/text.rs`, `src/num.rs` — the document model, text and
  integer operations with their specifications.

Calls into `gix`, `gix-packetline`, `flate2`, `sha2`, `imara-diff` and
`getrandom` stand behind small trusted wrappers whose contracts say what the
outside crate's source shows. `app/` holds the process: argument handling,
the environment, files, and the JSON parse into the library's document type.
`tests/` exercises the library with the outside crates linked.
