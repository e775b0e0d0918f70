//! The builtin commands of the shell and the running of programs.
pub mod builtins;
