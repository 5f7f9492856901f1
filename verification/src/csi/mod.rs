//! Volumes: how they are made, mounted and removed.
pub mod controller;
pub mod identity;
pub mod orchestrator;
pub mod volume;
pub mod volume_store;
