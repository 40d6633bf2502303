//! A Host-header reverse proxy core: the route table, the resolver that reads
//! it, and the per-request decisions of the dispatcher, each with a contract.
pub mod addr;
pub mod config;
pub mod proxy;
