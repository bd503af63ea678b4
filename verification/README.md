# smb_client

The decision logic of an SMB2 client, verified with Verus.

- `src/credits.rs`: one credit pool per connection. Requests spend credits when
  they are sent, wait in two queues (CLOSE requests and all others) when there
  are not enough, and are answered over one-shot channels.
  `src/credit_model.rs` says what a pool is and how each event changes it;
  `src/credit_laws.rs` and `src/credit_budget.rs` say what holds of it as a whole.
- `src/read_lease.rs`: receipts for uninterrupted read caching, lease breaks and
  their acknowledgements. `src/lease_model.rs` and `src/lease_laws.rs` go with it.
- `src/create_context.rs`: the chain of contexts in CREATE messages, written and
  read back.
- `src/directory_cursor.rs`: paged directory enumeration, with its laws in
  `src/cursor_laws.rs`.
- `src/wakeup.rs`: the one-shot channel of tokio, with what is believed of it.
- `src/wire.rs`, `src/types.rs`, `src/error.rs`: little-endian fields, shared
  plain values, errors.
- `app/`: locks, tasks and the network around the library. Not verified.
- `tests/`: runs the library.

What is believed without proof: that the two halves of a one-shot channel share
it, that sending on it sends what it is given, and that asking the system for
random bytes may fail. Whether an answer still finds its receiver is left open
everywhere.
