# msglog

A member's message log for a group chat, verified with Verus.

The log is a grow-only CRDT list (`crdts::glist::GList`) of message entries.
A member adds a message by scanning the list for the first entry with the
same key (instant of the signed time stamp, then sender), which refuses the
message, or with a greater key, after which the message is inserted; the insert
op goes out to other members, and their ops are applied back. Plain
texts of messages are kept apart, under a hash of sender and time stamp.
Stores are named after a hash of `name@group` and sealed under a password.

Layout:

- `src/crdt_list.rs` — the list of the `crdts` crate behind contracts over the
  sequence of identifiers it holds.
- `src/log.rs` — `LogState`: adding messages, applying ops, plain texts.
- `src/message.rs`, `src/message_order.rs` — messages, their entries, keys and
  order.
- `src/db.rs`, `src/db_order.rs` — the earlier store format `DB`.
- `src/naming.rs` — hashing with `DefaultHasher`, decimal text, file names.
- `src/stamp.rs` — reading time stamps with `chrono`.
- `src/seal.rs` — sealing store text with `magic-crypt`.
- `app/` — around the library: the JSON in which ops are exchanged and
  stores are written (list elements as message objects, `wire.rs`), adding
  and applying ops as text (`log_ops.rs`), and store files (`store.rs`,
  `db_store.rs`).
