# pie

The verified core of the Pie serving stack: what its servers, agents and code
generators decide and compute, written in Verus with contracts that say exactly
what each function returns.

- `src/serving`: the chat-completions surface (requests, rendering plans, content
  addresses, the visible-text filter, chunks, salvaged calls).
- `src/chat`, `src/codex`: the two servers. `drive.rs` in each is a whole turn as a
  state machine: events go in, what is to be done next comes out.
  `chat/generate.rs` is one generation on the page pool, in the same form.
- `src/gateway.rs`: admission, identities and the relay of chunks.
- `src/npr`: parallel reasoning (forking, branches, joins, attention layouts).
- `src/condense.rs`, `src/rollout.rs`, `src/autoresearch.rs`, `src/openclaw.rs`:
  the other inferlets.
- `src/metal`: Metal kernel text, streamed and wide, and K-quant matmuls.
- `src/json.rs`, `src/text.rs`, `src/format.rs`, `src/canon.rs`, `src/markup.rs`,
  `src/masks.rs`, `src/fnv.rs`: what the others share. `json.rs` holds what is
  trusted of `serde_json`.

`tests/` runs the library; `app/` holds the programs around it: the network, the
clock, floating-point sampling, and the loops that do on an engine what the
library asks for.
