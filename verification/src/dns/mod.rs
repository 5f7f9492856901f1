//! Names of services and pods in the cluster's zone.
pub mod authority;
pub mod object_cache;
