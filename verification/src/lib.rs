//! Verified core of the gguf-switchboard model server: argument rewriting,
//! fit planning, GGUF header checks and model-registry bookkeeping.
pub mod text;
pub mod errors;
pub mod args;
pub mod paths;
pub mod batch;
pub mod context;
pub mod fit;
pub mod embedding_admission;
pub mod registry;
pub mod config;
pub mod discovery;
pub mod gguf_integrity;
pub mod gguf_metadata;
pub mod hf_download;
pub mod models_cmd;
pub mod pull;
pub mod json;
pub mod chat;
pub mod classify;
pub mod tool_probe;
pub mod battery;
pub mod conformance;
pub mod hf_sync;
pub mod vllm_meta;
pub mod fit_profile;
pub mod service;
pub mod embeddings;
pub mod model_dirs;
pub mod model_options;
pub mod models_local;
pub mod pull_vllm;
pub mod responses;
pub mod search;
pub mod sse;
pub mod anthropic;
pub mod checksum;
pub mod machine;
