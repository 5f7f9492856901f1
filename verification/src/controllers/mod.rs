//! The controllers: each decides, from stored objects and events, what to do next.
pub mod deployment;
pub mod endpoint_controller;
pub mod garbage_collector;
pub mod job;
pub mod manager;
pub mod nft_worker;
pub mod nftrules_controller;
pub mod replicaset;
pub mod rollout;
pub mod selector;
