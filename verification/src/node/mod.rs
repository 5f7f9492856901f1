//! The connections of users and workers.
pub mod bootstrap;
pub mod cert;
pub mod dispatch;
pub mod heartbeat;
pub mod launch;
pub mod lease_sync;
pub mod local_node;
pub mod register;
pub mod registration;
pub mod registry;
pub mod report_flow;
pub mod server;
pub mod service_flow;
pub mod watcher;
pub mod write_flow;
