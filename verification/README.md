# rikka

The planning core of a Vulkan renderer, written in Verus: every function in
`src/` carries a contract that Verus proves.

The library decides what a Vulkan renderer does: the barriers, rendering
states, pipeline and image descriptions, queue and swapchain choices and the
bookkeeping of frames and transfers. Making the Vulkan calls, reading scene
files and the floating-point work are left to the program that uses it; the
small program in `app/` makes no Vulkan calls and prints the plans instead.

## Layout

- `src/graph/` — the render graph: resource pools, name maps, the graph
  builder, the parser of graph descriptions, linking of inputs to outputs,
  depth-first ordering of the passes, reference counting, the images that the
  outputs need, rendering states and per-pass image barriers.
- `src/gpu/` — GPU-side planning: image barriers from resource states,
  descriptor set layouts and writes, the bindless set, pipeline descriptions
  and what a pipeline is made from, command buffer bookkeeping, the frame
  cycle, image and sampler creation, shader stages and the transfer
  scheduler.
- `src/rhi/` — device selection (physical device, queue families), swapchain
  choices (surface format, extent, image count, sharing), frame counters and
  the semaphores of a graphics submission.
- `src/renderer/` — the scene hierarchy and the order in which transforms are
  recomputed, the level-order walks that build the hierarchy of a scene
  file, the checks on its mesh primitives and the draws chosen from them, render techniques and the
  pipeline descriptions they become, and texture format mappings.
- `tests/` — tests of the library on concrete values.
- `app/` — a command-line program: it reads a render graph and a technique
  from JSON, compiles the graph, prints the images it needs and the commands
  of each pass (with numbered stand-ins for the images), and computes scene
  transforms with `nalgebra`.

Laws that span several calls (a freed pool slot is handed out again, a frame
waits for the work of the frame that last used its slot, a parent's list of
children grows by the node linked under it, and others) are public proof
functions beside the code they speak of.
