//! The objects the control plane stores and exchanges.
pub mod config;
pub mod dict;
pub mod labels;
pub mod message;
pub mod meta;
pub mod node;
pub mod pod;
pub mod service;
pub mod value;
pub mod workload;
