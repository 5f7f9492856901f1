//! Access to the cluster's store.
pub mod xlinestore;
