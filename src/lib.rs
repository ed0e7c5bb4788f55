//! Resolution of layered material profiles: a profile may inherit from one
//! parent, the chain of ancestors is walked and folded into one document.
pub mod json;
pub mod merge;
pub mod finalize;
pub mod resolve;
pub mod codec;
pub mod profile;
pub mod laws;
pub mod locate;
pub mod listing;
