# lightqos

The core logic of the LightQOS quantum operating system kernel, written in Verus.
The functions in `src/` carry `requires`/`ensures` contracts that Verus proves, except
three small trusted wrappers around `uuid` and `rand` (`ids::new_uuid`,
`hio::random_below_four`, `hardware::simulator::coin_flip`): their contracts, which say
only what every random outcome satisfies, are taken on trust. What the library builds
from the random values (`PauliString::paulis_from_draws`, `tally_samples`) is verified.

## Layout

- `src/` — the verified library.
  - `snapshot`, `scheduler`, `contract`, `cache`, `tlm` — the temporal layer: bounded
    snapshot timelines with rollback, the harmonic task scheduler, temporal SLA
    contracts, the process-tensor cache.
  - `emf`, `routing` — the entanglement fabric: pair phases and recycling queue,
    lifecycle counters, the network topology and fewest-hop routes.
  - `hio`, `views`, `shadow` — Pauli strings and observables, views of commuting
    observables, classical-shadow snapshots.
  - `causal`, `spaces`, `octave`, `efal`, `numeric` — causal orders and quantum
    combs, state spaces, the octave algebra, the ether-field layer, combinatorics.
  - `hardware` — drivers for IBM, IonQ, Qblox, Zurich Instruments and a local
    simulator, and the driver registry.
  - `ids`, `text`, `table` — random identifiers (through `uuid` and `rand`),
    decimal and hexadecimal text, id-keyed tables.
- `tests/` — tests of the library on concrete values.
- `app/` — the command-line program and everything that needs floating point,
  serialisation, async traits or I/O, built on the library.

Properties of a single operation (what a rollback restores, which route is found)
stand in its `ensures`. Laws that relate several operations (what the cache gives
back after a write, that the snapshot store stays within its limit, that a managed
view stays commuting, and others) are public proof functions named `law_*` beside
the operations they speak of.
