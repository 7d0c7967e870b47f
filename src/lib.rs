//! Native governance contracts of a permissioned ledger: a height-versioned
//! snapshot store, the administrator contract, group records and the registry
//! that routes calls to reserved addresses.

pub mod address;
pub mod admin;
pub mod batch;
pub mod encoding;
pub mod factory;
pub mod group;
pub mod group_manager;
pub mod group_state;
pub mod group_contract;
pub mod ledger;
pub mod snapshot;
pub mod types;
