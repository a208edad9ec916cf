# symplex_engine

The engine behind a tensor runtime: it decides which operations to fuse, records and tidies
traces, writes machine code for x86-64 and PTX for GPUs, and assembles optimized blocks for a host.
The library under `src/` is written in Verus. Every function states what it returns, and Verus
proves it.

## Layout

| Path | What it holds |
| --- | --- |
| `src/types.rs` | Instructions, values and the enumerations that the other modules share. |
| `src/fusion_engine/` | Operations and shapes, recognition of fusable patterns, estimates of what a fusion saves, legality, ranking and greedy choice, exact selection as constraints, coverage, horizontal fusion, and the expressions and rules of the exploration. |
| `src/tracing_jit/` | Trace recording with value numbering, guards, inline caches, tiers, slot layout and folding of constants. |
| `src/x86_emitter/` | Programs with structured loops, their encoding, and the kernels: elementwise, matrix product, reduction, and fused chains. |
| `src/cuda_backend/` | PTX text, device descriptions and launch plans. |
| `src/ffi/` | Configuration bytes, the instruction stream, hints, and the assembly of a block. |
| `src/simd_math.rs` | Detection and pairing of loops that can share a vector loop. |
| `src/fx.rs`, `src/x86_emitter/assembler.rs`, the head of `src/fusion_engine/horizontal.rs` | The trusted edge to `rustc-hash` and `iced-x86`. |
| `app/` | Ordinary Rust around the library: mapping and running code, floating point, the C interface, GPU calls, equality saturation and the solver. |
| `tests/` | Scenarios on concrete values. |

## What is proved

Contracts pin down results; a few properties that span functions stand as public proof functions.
Among them:

- A greedy choice of fusions is disjoint and cannot be extended; a choice that meets the
  constraints is free of conflicts, and the other way round.
- A recorded trace computes what the instructions that went into it compute, and folding constants
  keeps that.
- Labels of a kernel are sound, and every kernel restores the registers that it saved.
- Kernels compute what they are for. `x86_emitter/machine.rs` gives the instructions a meaning,
  with floating-point arithmetic as a parameter. From any state in which a kernel is called, the
  processor returns, the result is in place, nothing else in memory has changed, and the registers
  of the caller are as they were. The statements are `scalar_kernel_computes`,
  `vector_kernel_computes`, `bias_relu_kernel_computes`, `wide_kernel_computes`,
  `single_kernel_computes` and `double_kernel_computes` in the modules whose names end in `_run`.
  Where the arithmetic is associative and commutative, `reduction_is_in_order` says that a
  reduction is what the elements give one by one. Where it picks the later of two numbers,
  `last_element_is_found` says that the reduction is the largest or the smallest element.
  `product_is_exact` and `compiled_kernel_multiplies` say that a product of whole numbers is exact
  as long as no number leaves the range in which the arithmetic is.
- A fused chain stores the same results in vectors and one by one (`vector_pass_is_scalar_pass`).

## What is trusted

Hash maps and sets of `rustc-hash` and the assembler of `iced-x86` are called through small
wrappers. Each says in its doc comment what it claims of the function that it calls.
The encoding that the assembler gives is named, not described: the proofs about kernels speak of
the instructions that are handed to it.
