//! Creating and deleting pods on behalf of users.
pub mod create;
pub mod delete;
