# swarm_consensus

Gnomes that form a swarm agree, turn after turn, on blocks of data and on
changes of the swarm's configuration. This crate holds the logic of one gnome,
verified with Verus: its neighbors and what it knows of them, the sanity
checks on what they send, the turn and round state machine, proposals and
their acceptance, the swarm's key, capability and policy registries and the
checks made against them, casts and their subscribers, and the byte formats
of configurations, policies, requirements, swarm names and registries.

Layout:

- `src/` the verified library; each module states its contracts over spec
  functions, and the laws that relate several functions are public proof
  functions beside them.
- `tests/` tests on concrete values.
- `app/` the threads, channels and clocks around the library: the loop that
  drives a gnome, its links to neighbors, the manager of swarms.
