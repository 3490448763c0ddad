# guardian

Key material for a self-hosted guardian, verified with Verus.

- `src/` is the library. It decides everything and touches nothing: which settings are accepted,
  which file operations loading or publishing a secret takes and in which order, what a stored
  secret decodes to, which storage key a guest agent's answer gives. Each function states what it
  returns, and Verus proves it.
- `src/disk.rs` models the file system, with files that can have several names. Over it
  `src/stability.rs` and `src/race.rs` state that a secret file is never replaced and appears whole
  and private or not at all, however many processes publish in it at once and whatever their ids;
  `src/identity.rs` states that a restart or a concurrent start ends with the same key. All of this
  is said of processes that go by the steps of the library: what other programs may do to the files
  is a condition of each law.
- `app/` reads the environment, performs the file operations and asks the guest agent.
- `tests/` runs the library with the real cryptographic crates, over files held in memory.

What the library believes of other crates and of the standard library stands in small functions
marked `external_body`, in `assume_specification` items and in the declarations of outside types.
The comment above each says what is claimed.
