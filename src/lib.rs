//! Command-interpretation core of a small interactive shell: a quoting-aware
//! tokenizer, a command classifier with redirection extraction, and the
//! decisions of the execution engine (what text goes where).

pub mod arg_parser;
pub mod command_parser;
pub mod shell_command;
