# ssimulacra2-vulkan (verified core)

SSIMULACRA 2.1 image-quality scoring with a Vulkan compute backend and a CPU
engine. The crate is split in two:

- `src/` — the library, checked by Verus: the PNG colour-management policy
  and the extraction of 8-bit sample planes, little-endian word framing
  (SPIR-V words, push constants, dump files), the 2D dispatch split, the scale
  chain, device and memory-type selection, the stage profiler, and the
  command line's decisions (modes, engine routing, batch and normalisation
  rules).
- `app/` — the program around it: file and GPU I/O through `ash`, and the
  floating-point metric (sRGB linearisation, XYB, recursive Gaussian blur,
  SSIM and edge maps, norms and the final score).
- `tests/` — tests of the library on concrete values.

At run time the GPU path reads SPIR-V binaries from `SSIMULACRA2_SHADER_DIR`
(default `shaders`) and the score weights from the metric's C++ source
(`SSIMULACRA2_ORACLE_SRC`, default `../src/ssimulacra2.cc`).
