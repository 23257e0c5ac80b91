//! Verified core of the Pods connection list, its source-view search
//! navigation and its random container-name generator.

pub mod abort;
pub mod connection_manager;
pub mod index_map;
pub mod random_name;
pub mod search;
