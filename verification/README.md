# snarkvm (verified core)

Verified logic of a zero-knowledge ledger and its virtual machine, written in Verus.

- `src/` is the library; every function in it is verified, except the few trusted items
  that call `rayon`, `itertools`, `aleo-std`, `num_cpus` and `std::io`, each
  documented where it stands.
  - `solutions`: the stake needed per solution and the solutions a prover may land per epoch.
  - `ledger`: remaining solutions, the solution limits of a block, epoch provers, and the
    checks that a block is a valid next block.
  - `subdag`: the quorum, atomicity and leaf checks of a block's subdag.
  - `consensus`: consensus versions by height and per-version configuration values.
  - `call_stack`, `registers`, `finalize_types`, `program`: the call stack, the registers and
    the finalize register types of program execution.
  - `lineval`: the third round of the prover (the linear-evaluation sumcheck witnesses).
  - `certificate_bytes`: the byte encoding of batch certificates and their signatures.
  - `records`: the records that hold credits.
  - `parallel`, `sorting`, `index_map`, `io_error`: execution helpers.
- Maps and sets are held as sequences. Their keys are addresses, IDs, identifiers and
  locators, structs of this library, and a contract over a hash map keyed by such a struct
  would rest on derived `Hash` and `Eq` impls that Verus does not read; a name for what an
  outside map holds cannot be generic either. So the ledger's stakes and epoch provers and the
  finalize register types are lists of entries with distinct keys, the registers hold their
  values by locator, a subdag lists its rounds in increasing order, signatures are lists
  without repeats, and the map searches take the map's values in order.
- `app/` holds what runs on rayon's thread pools, the parallel iterators over maps, and the
  error types with their messages.
- `tests/` exercises the library on concrete values.

Not part of the library: opening the ledger from storage and checking its blocks at start-up,
building test chains of blocks, and creating deployment and transfer transactions. These need
the virtual machine, the stores and the block builders, which this crate does not hold.
