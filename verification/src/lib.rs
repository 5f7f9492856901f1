//! Control-plane logic for a small container orchestrator.
pub mod api;
pub mod cert;
pub mod cli;
pub mod clock;
pub mod commands;
pub mod controllers;
pub mod csi;
pub mod dns;
pub mod internal;
pub mod json;
pub mod login;
pub mod network;
pub mod node;
pub mod order;
pub mod protocol;
pub mod random;
pub mod scheduler;
pub mod seqs;
pub mod text;
pub mod vault;
