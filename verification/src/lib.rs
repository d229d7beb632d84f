//! The logic of a terminal coding agent: its configuration, the built-in
//! and Lua-defined tools it offers a model, what those tools compute, and
//! the decisions of the interactive session. Reading files, running
//! processes and talking to the model are left to the program around it.
pub mod bash;
pub mod config;
pub mod env;
pub mod file_ops;
pub mod highlight;
pub mod lua;
pub mod numbers;
pub mod paths;
pub mod render;
pub mod session;
pub mod text;
pub mod tools;
