//! Keeps shell commands under short aliases, grouped by service, and turns a
//! stored command template plus run-time arguments into a shell command line.
pub mod args;
pub mod models;
pub mod queries;
pub mod template;
pub mod shell_executor;
pub mod laws;
