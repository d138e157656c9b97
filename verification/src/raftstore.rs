//! The replicated state machine of a region and the store that schedules
//! the regions of one node.

pub mod errors;
pub mod store;
