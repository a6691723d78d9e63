# infr

The host-side logic of an LLM inference engine, verified with Verus.

- `src/` is the library. Its parts:
  - `pager`, `gpu_pager`, `moe`: a paged cache of weights on a device, its lookup table, and the paging
    of expert banks through an upload ring
  - `pcache`: the envelope of the pipeline-cache file, and how it is put in place
  - `gguf`, `qwen35`, `weights`, `ffn`, `tensor`, `kv`: a model file's directory, the `qwen35` family,
    how weights are stored on a device and the projections that read them
  - `json`, `grammar`, `trie`: tool-call schemas, grammar-constrained decoding, and what a token trie
    can hold
  - `graph`, `backend`, `gemm`: the operation list, device capabilities, and the tiled matrix product
  - `store`, `chat`, `server`, `error`: the model store, chats, wire messages, errors
  - `bytes`, `text`: integers as bytes, pieces of text
- `tests/` runs it.
- `app/` is the engine around it: devices, files, the environment, serialization.

Floating-point numbers appear in the library as their bits. A device buffer, a file's path or an
engine's model is whatever type the caller uses; the library carries it and never looks inside.
