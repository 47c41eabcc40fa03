# pq_mpc_core

A verified library for a post-quantum, MPC-style voting round: committee
selection by VRF outputs, the Sybil-pressure threshold policy, ballot
encryption and tallying with a mock threshold scheme, the decisions and
reports of simulated rounds, and a model of the threshold-parameter
governance module.

- `src/` — the library (`committee`, `policy`, `crypto`, `sim`, `governance`,
  `vrf`, `hash`, `rng`, `bytes`, `types`).
- `tests/` — tests run against the compiled library.
- `app/` — the round-simulation program: command line, timings, simulated
  latency, randomness with float parameters, and the metrics file.
