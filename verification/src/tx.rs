//! The transaction layer: the transactional keyspace, transactional
//! partition handles, read and write transactions, and the commit oracle.

pub mod keyspace;
pub mod oracle;
pub mod partition;
pub mod read_tx;
pub mod write_tx;
