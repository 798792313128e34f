# demucs_native

Music source separation with the Hybrid Transformer Demucs network, on the processor or on a
graphics device.

The library in `src/` is verified with Verus. It knows nothing of floating point: the numbers,
the Fourier transforms and the graphics device are traits (`arith::Arith`, `dsp::Dsp`,
`cuda_engine::Device`) of which nothing is assumed, and every contract says which of their
operations, on which operands, lead to a result.

- `metadata`, `cli`, `backend`, `error`: the catalogue of models, the command line, the choice
  of the backend.
- `json`, `file_header`, `weights`, `raw_tensor`, `loading`, `model`: from the bytes of a weight
  file to the parameters of the network.
- `ops_cpu`: the operators and layers of the network on the processor, and what holds of them
  together (`ops_cpu::laws`, `ops_cpu::adjoint`).
- `program`, `launch`, `gpu_tensor`, `gpu_model`, `gpu_loading`, `cuda_ops`: the same for the
  graphics device, where each operator writes the steps of a program.
- `chunk`, `engine`, `cpu_engine`, `cuda_engine`: long audio in overlapping chunks, and what
  becomes of one chunk; `engine_laws`: what holds of separation as a whole, whatever the network.
- `same_weights`, `same_results`, `same_programs`, `loading_laws`, `separating_laws`: what was
  loaded twice from the same bytes holds the same weights, computes the same and separates alike
  (`separating_laws::loaded_twice_separates_alike`).
- `meaning`: what programs for the device mean, and the proof that they do what the processor
  does (`meaning::engine::engines_agree`).
- `exact`: numbers without rounding, for the laws that rounding breaks.

`app/` is the program around it: files, floating point, and the device itself. It expects the
source of the kernels in `kernels/kernels.cu`.
