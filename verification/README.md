# Drift

A deterministic space-trading simulation: content linked from mods, a spot economy with
contracts and finance, roaming fleets, running battles, and one pipeline of validated commands
through which players act on all of it.

- `src/` is the library. Every rule of the simulation is a function with a contract over
  mathematical models, and what holds of the whole (ids are never reused, a refused command
  changes nothing, the log only grows at its end, the terms of a run are kept) is proved.
- `tests/` runs it.
- `app/` is the program around it: the command line, files, the socket, and everything that
  is computed in floating point.

Real numbers cross into the library as bit patterns, which it orders and compares. A tick is a
series of steps (`world::tick`); between two of them the program supplies the numbers that it
computed.

The library calls `rand_chacha` for random draws (`rng`) and `rhai` for scripted prices
(`script`).
