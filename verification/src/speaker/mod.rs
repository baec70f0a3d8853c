//! Speaker embeddings: the policy of a model, its tensors, and frames in context.
pub mod policy;
pub mod encoder;
