# uwu_infra

Infrastructure for agents that share state: conflict-free replicated data
types, an event mesh with hierarchical topics, an append-only event log,
SQL migrations, and the rule-based parts of a layered context database.

The library under `src/` is written in Verus. Its functions carry contracts
over mathematical models (sequences, sets and maps), and the laws that the
data types promise (merge is commutative, associative and idempotent; a
framed record verifies; a pattern matches what it should) are stated as
proof functions next to the code they speak of.

- `src/` — the verified library: CRDT primitives (`counter`, `vector_clock`,
  `lww_register`, `lww_map`, `or_set`, `crdt`), the document tree over Loro
  (`doc`), topics and the broker's decisions (`topic`, `broker`, `ring`,
  `dedup`, `subscriber`, `filter`, `flow`, `idempotency`), the event log
  (`record`, `log_index`, `segments`, `memory_store`, `replay`), SQL text,
  migration plans and vector-store statements (`sql_text`, `migrations`,
  `vector_sql`, `top_k`), and the context database's rules (`intent`,
  `character`, `sandbox`, `compute`, `history`, `metacog`, `federation`,
  `semantic`).
- `app/` — the asynchronous and I/O side: tokio channels, files, the model
  client, serde types; it calls the library for every decision.
- `tests/` — tests of the library on concrete values.
