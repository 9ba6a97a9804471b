# softgpu

A software GPU stack whose logic is proved with Verus:

- `src/code_object` — ELF64 AMDGPU code objects: header and section parsing,
  the metadata note, a bounded MessagePack reader and writer, kernel
  descriptors and loadable kernel images, plus fixture builders.
- `src/isa` — a gfx1201 compute subset: instruction words, decoding,
  disassembly, machine state, single-step execution over an abstract global
  memory, and 1-D kernel launches; a successful run or launch is stated as
  a chain of single steps from the documented start state.
- `src/device` — an HSA-shaped runtime core: generation-checked handles,
  device profiles, agents, an allocator behind regions and pools, signals,
  queues with packet observation, AQL packet parsing and replay, traces,
  executables, and the runtime session that ties them together (doorbell
  stores observe packets once and dispatch registered kernels).
- `src/functional` — a functional IR interpreter with SIMT divergence,
  workgroup barriers, a byte-shadow sanitizer, a debugger with breakpoints
  and bounded traces, and race exploration. `src/functional/model.rs`
  states what a run computes as spec functions; every run function's
  contract says that a successful run ends in the model's memory, steps
  and atomics, and (sanitizer off, passive observer) that it succeeds
  whenever the model does.

`app/` holds what stays outside the proofs: JSON documents (profiles,
programs, traces, replay bundles, reports), file reads, the process-wide
session behind a mutex, and the C entry points of the HSA adapter.

`tests/` exercises the library from outside.
