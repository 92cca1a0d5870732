//! Vela turns a storage device into a small personal cloud: it lists block
//! devices, mounts them under `/mnt/`, and serves a mounted directory over HTTP
//! with token authentication.  This crate holds the decisions: paths and their
//! confinement to the served root, sessions, byte ranges, uploads, listings, the
//! device table and the commands; the program around it does the I/O.

pub mod text;
pub mod numbers;
pub mod paths;
pub mod order;
pub mod reply;
pub mod server;
pub mod range;
pub mod files;
pub mod upload;
pub mod listing;
pub mod network;
pub mod device;
pub mod cli;
