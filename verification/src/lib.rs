//! An in-memory, multi-client file service: a table of named files with
//! owner/others permission bits, a bounded table of open-file handles, a
//! registry of client accounts, and a line-oriented request protocol that
//! routes file and account operations and answers with integer status codes.

pub mod client_input_handling;
pub mod file_system;
pub mod numbers;
pub mod option_handling;
pub mod protocol;
pub mod server_handler;
