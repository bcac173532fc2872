//! A page judge backed by a hosted model: the wire protocol, and the policy around it.

pub mod judge;
pub mod wire;
