//! Audio input: files, samples, and the features that an encoder is given.
pub mod config;
pub mod prepared;
pub mod wave;
pub mod samples;
pub mod features;
pub mod probe;
