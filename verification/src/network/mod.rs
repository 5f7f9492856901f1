//! Addresses, subnets and the addresses of services.
pub mod address;
pub mod annotation;
pub mod backend;
pub mod cluster_ip;
pub mod config;
pub mod init;
pub mod ip;
pub mod lease;
pub mod rebuild;
pub mod service_ip;
pub mod subnet;
