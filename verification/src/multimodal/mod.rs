//! Media in prompts and the encoders that turn media into embeddings.
pub mod injection;
pub mod expansion;
pub mod encoders;
pub mod attention_blocks;
pub mod vision;
pub mod gemma3;
pub mod gemma3_checks;
pub mod minicpmv;
pub mod view_batches;
pub mod qwen3_asr;
pub mod qwen3_asr_graph;
