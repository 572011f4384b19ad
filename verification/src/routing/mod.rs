//! Exchanges and the routing of published messages to queues.

pub mod topic;
pub mod exchange;
