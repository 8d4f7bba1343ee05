# collab_core

The logic of collaboration in an editor, written in Rust and verified with Verus.

- `src/channel_index`: the known channels and the paths from root channels down. `model.rs` says what
  each operation makes of an index, `laws.rs` what holds across operations.
- `src/chat_panel`: the chat panel as a state that answers each event with a list of effects, and
  what is shown of a message, of its time and of a channel.
- `src/calls.rs`: what the commands of a call ask for and report.
- `src/clock.rs`: version vectors.
- `src/order.rs`, `src/text.rs`: lexicographic order, stable sorting and decimal notation.
- `app`: the views, which carry out effects and draw. They need the editor's UI toolkit.

The local time and the calendar date of a moment come from the `time` crate. Its three functions
that the library calls are described by contracts in `src/chat_panel/timestamp.rs`.
