//! Sharing the experts of a mixture-of-experts model between nodes.
pub mod protocol;
pub mod control;
pub mod activation;
pub mod experts;
pub mod shard;
pub mod transport;
pub mod placement;
pub mod shares;
pub mod planner;
pub mod plans;
pub mod resources;
pub mod coordinator;
pub mod routing;
pub mod setup;
pub mod assembly;
pub mod worker_shard;
pub mod worker_recurrent;
pub mod speculation;
pub mod selection;
pub mod worker_session;
pub mod worker_setup;
pub mod local_experts;
