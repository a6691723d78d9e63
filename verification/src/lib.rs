//! The host-side logic of an LLM inference engine.
pub mod backend;
pub mod bytes;
pub mod chat;
pub mod error;
pub mod ffn;
pub mod gemm;
pub mod gguf;
pub mod gpu_pager;
pub mod grammar;
pub mod graph;
pub mod json;
pub mod kv;
pub mod moe;
pub mod pager;
pub mod pcache;
pub mod qwen35;
pub mod server;
pub mod store;
pub mod tensor;
pub mod text;
pub mod trie;
pub mod weights;
