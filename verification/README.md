# tfn_digital_identity

A verified model of a digital identity registry: identities with personal
details, storage keys holding values, parent-child links between identities,
and the link and unlink requests that create and break them.

- `src/types.rs` — the records (`Identity`, `Value`, `IdentityLink`, requests),
  the call context and the errors, each with its abstract model.
- `src/model.rs` — the abstract registry (`RegistryModel`): its queries, its
  well-formedness, and the updates that operations make.
- `src/bytes.rs`, `src/store.rs`, `src/config.rs` — the executable storage
  (`ConfigModule`) and its queries, proved against the model.
- `src/contract.rs` — the operations (`TFNDigitalIdentityContract`): for each,
  exactly when it is refused and with which error, and what it does otherwise.
  A refused operation changes nothing, and every operation keeps the registry
  well-formed.
- `src/invariants.rs` — proofs that each update keeps the registry well-formed.
- `src/laws.rs` — properties relating several operations.
- `app/` — the MultiversX side: the records as managed values with their
  on-chain encodings, and conversions to and from the plain values above.

The sets the registry keeps (keys, modifiers, link lists) follow the chain's
unordered-set storage: an insertion appends, and a removal moves the last
element into the freed place. That storage can only be reached through the
chain's storage handles from inside a deployed contract, so the library states
this behaviour in `src/model.rs` and proves its own store against it.
