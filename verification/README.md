# gguf-switchboard

The verified core of a local model server for GGUF (llama.cpp) and
safetensors (vLLM) models, written in Verus.

- `src/` is the library. Every function there has a contract that Verus
  proves. It covers backend argument rewriting, the fit planner and its
  fallback ladder, GGUF header and integrity checks, the model registry
  (discovery, deduplication, priority, TOML and JSON forms), Hugging Face
  file selection, the `models` subcommands' parsing and output,
  chat/Responses/Anthropic translations, and the tool-call conformance
  checks. Laws that span several functions are public proof functions
  (`lemma_*`).
- Calls into outside crates (`serde_json`, `sha2`, `uuid`) and the few
  std functions that vstd does not specify sit behind small trusted
  wrappers. Each wrapper's doc comment says what its contract claims.
- `app/` is the command-line program around the library. It does file,
  network and process I/O and hands plain values to the library.
- `tests/` holds the tests, which run against the compiled library.
