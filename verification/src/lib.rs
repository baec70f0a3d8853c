//! The verified core of a quantised-model inference engine: wire codecs, placement and
//! scheduling decisions, media expansion, attention and position plans, audio framing, and the
//! tensor contracts of the media encoders.
pub mod text;
pub mod bytes;
pub mod bits;
pub mod values;
pub mod tables;
pub mod parallel;
pub mod distributed;
pub mod gguf;
pub mod tensors;
pub mod recurrent;
pub mod positions;
pub mod attention;
pub mod prefill;
pub mod tokenizer;
pub mod profiling;
pub mod audio;
pub mod speaker;
pub mod multimodal;
