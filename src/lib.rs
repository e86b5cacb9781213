//! Core of a line-at-a-time command shell: tokenizing input lines into
//! commands, classifying builtins, indexing executables found on the search
//! path, and deciding what each command does.
pub mod builtin;
pub mod dispatch;
pub mod export;
pub mod index;
pub mod tokenizer;
