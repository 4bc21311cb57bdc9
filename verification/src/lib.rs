//! sofka's terminal-independent core: table layout arithmetic, log-line
//! parsing and wrapping, ANSI colour runs, pretty-printed JSON records,
//! layered configuration and its validation, key bindings and the help and
//! hint texts built from them, each with its behaviour stated as a contract.

pub mod ansi;
pub mod config;
pub mod help;
pub mod hints;
pub mod keymap;
pub mod keys;
pub mod layers;
pub mod launch;
pub mod layout;
pub mod loader;
pub mod logline;
pub mod logs;
pub mod order;
pub mod pretty;
pub mod prompt;
pub mod screen;
pub mod session;
pub mod text;
pub mod wrap;
