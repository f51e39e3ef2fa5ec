# tari_dan_models

Consensus data models of a Tari DAN validator node, written in Verus and
proved against their contracts.

- `src/` is the verified library:
  - `hash`, `common`, `command`, `block`: identifiers, small value types, the
    ordered command set and blocks, whose identifier is the Blake2b-256 hash of
    their encoded contents (`encoding`, `index_map`).
  - `state_store`: the store that the models read and write, as a
    mathematical model (`StoreModel`) with read and write operations under
    contract; `memory_store` is a verified in-memory store.
  - `block_store`, `block_transactions`, `quorum`, `foreign_send_counters`,
    `vote`, `transaction`: the operations of the models on a store, among
    them the HotStuff safeNode predicate (`Block::is_safe`) and the commit
    rule (`Block::update_nodes`), each stated over the model, with the laws
    that relate them as public proof functions.
  - `idle`: the idle state of the consensus state machine as a transition
    function from phase and input to next phase and action.
  - `generators`, `instruction`, `epoch_ending`: scaffolder options,
    transaction instructions with their hash and their text form,
    epoch-ending events.
- `app/` drives the idle state against an epoch manager and its event
  stream, reads generator options from configuration, and carries the
  serialised form of epoch-ending events.

## Hashing

Tari hashes blocks and instructions with domain-separated hashers of its
own common-types crates, over their serialised fields. Those crates are not
used here. Block identifiers and instruction hashes
are instead the Blake2b-256 digest (the `blake2` crate) of this library's
own byte encoding (`encoding`), prefixed by a label for the kind of value.
They are therefore not the identifiers a Tari node computes for the same
contents; what the library proves of them (which fields a hash depends
on, that equal contents hash alike) holds of this encoding.
- `tests/` exercises the library on concrete values.
