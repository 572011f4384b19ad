//! The text headers of the broker's native frames.

pub mod publish;
