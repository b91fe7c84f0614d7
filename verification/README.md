# sane

A symbolic analog network engine: SPICE-style decks are read into circuits,
circuits are assembled into the implicit residual system `F(x, x', t) = 0`, and
that system is differentiated, linearised, reduced and extended symbolically.
The library is written in Verus; every function in `src/` carries a contract that
is proved.

## Two hosts

Nothing here computes with real numbers or holds an expression graph.

- `numerics::Host` answers questions about real numbers, which the library holds
  as the bits of their machine representation.
- `symbolic::Algebra` answers questions about expressions, which the library holds
  as handles into the host's graph.

Each gives one answer to one question, so that every contract is exact: what comes
out is a function of what went in and of the hosts' answers.

Reading a deck may need files, pieces of Verilog-A or compiled libraries. Parsing
stops with a request for what is missing and starts over once it has been handed
in (`netlist::world`).

## Layout

| module | what stands there |
|---|---|
| `circuit`, `device`, `source_fn`, `waveform`, `corners` | elements, device fragments, stimuli and their corners |
| `netlist` | decks: includes, options, parameters, subcircuits, model cards, elements |
| `dae` | assembly, Jacobians, elimination, merging, pruning, linearisation, sensitivities |
| `dae::meaning`, `dae::slopes`, `dae::blocks` | what the transformations keep, under every interpretation that fits the expressions of the graph |
| `dae::symbols` | which symbols the transformed systems mention |
| `dae::terms`, `dae::cases` | graphs of terms over any field, which keep all the rules that these laws ask for |
| `index2`, `cutsets`, `forest`, `paths` | structural index, cutsets, connectivity, paths |
| `osdi` | compiled compact models: parameters, collapsed nodes, cells, lowering, evaluation |
| `export`, `scripting` | equations in LaTeX, drawing, checks on what scripts hand in |
| `text`, `table`, `numerics`, `symbolic` | what the rest is written in |

`app/` holds what talks to the outside: real arithmetic, files, and shared
libraries of compiled models. `tests/` runs the library against a host with
ordinary floating-point numbers and a small expression graph.

## What is trusted

`table.rs` states what the `rustc_hash` maps do on insertion, lookup and cloning,
and `text.rs` that `String::push` appends a character. Everything else is proved.
