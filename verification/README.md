# mpz

Memory stores, oblivious-transfer bookkeeping, garbled-circuit and
zero-knowledge parties for two-party computation, written in Verus and
proved against their contracts.

## Layout

- `src/` — the verified library.
  - `memory`, `binary`, `range_set`, `cell_store`, `visibility`, `decode`:
    slices of memory, binary values and their bit encodings, the data and
    visibility stores, and decoding operations.
  - `correlated`, `correlated_store`: blocks, the global correlation, keys
    and MACs, and the stores that hold them (MAC proofs included).
  - `gf128`: the field laws of multiplication in GF(2^128): distributivity
    over XOR, commutativity, associativity.
  - `garble`: the generator's and the evaluator's memory stores, their flush
    messages, and the semi-honest parties' call stacks.
  - `ot`: transfer identifiers, random correlated OT traits and their ideal
    functionalities, and the configuration and state of the KOS and
    Chou-Orlandi parties.
  - `circuit`, `vm`: boolean circuits and the calls of the virtual machine.
  - `zk`: the prover and the verifier of a circuit, gate by gate, with the
    proof that honest parties end with consistent outputs, and the
    consistency check over the AND gates (`zk::consistency`), computed in
    GF(2^128), with the proof that honest parties pass it.
  - `hash`, `rng`: hashing and seeded randomness.
- `tests/` — tests of the library.
- `app/` — the asynchronous traits of the virtual machine and the loops
  that await the peer: synchronizing the garbling stores, receiving garbled
  gates, and running the zero-knowledge prover and verifier over a batch of
  calls. Every decision they make is a function of the library.

## Outside crates

- Sets of memory addresses are `RangeSet`s of the `rangeset` crate: sorted,
  disjoint ranges, with union, difference, intersection and the subset and
  disjointness tests that the stores need. The library reaches them through
  small wrappers in `range_set`, whose contracts describe a set by the
  addresses it covers.
- Randomness (keys of the generator's store, the ideal OT functionalities)
  comes from `rand_chacha`'s ChaCha8, a seedable stream-cipher generator. A
  16-byte seed is extended with zeros to ChaCha's 32-byte seed (`rng`), so
  the values drawn for a seed are those of ChaCha8 for the padded seed.
- Hashing is BLAKE3 (`blake3`); decoding results travel over one-shot
  channels (`futures`).
