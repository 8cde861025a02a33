# jamon

Render graphs for video, with exact media timing, written in Verus. The
functions in `src/` carry contracts that Verus proves, except the small
wrappers marked `#[verifier::external_body]` around calls into
`num-rational`, `museair`, `rand` and std: their contracts are trusted, and
each one's doc comment says what it claims of the call it makes.

- `src/rational.rs`, `src/text.rs`: exact rationals (through `num-rational`)
  and the text handling the rest builds on.
- `src/data.rs`, `src/node.rs`, `src/graph.rs`, `src/sketch.rs`: values,
  nodes and the first graph model.
- `src/engine/`: the graph engine: nodes, binding, acyclicity and render plans.
- `src/operations/`: operation identities (content hashes) and parameters.
- `src/media/`: stream metadata and timing, prober output parsing, frame
  reading decisions, test-video specifications, stamps and the registry.
- `src/render.rs`: frame cache and render clock.
- `src/ui/`: editor commands, palette and key handling as state machines.
- `app/`: the command-line program around the library: `ffmpeg`/`ffprobe`
  processes, files, floating-point effects.
- `tests/`: tests of the library, run against the compiled crate.
