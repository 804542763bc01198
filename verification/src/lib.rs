//! A verified core for the `redo` build system: the rules that decide
//! what is dirty, how option specs and command lines are read, where `.do`
//! files are looked for, how paths are made relative, how the jobserver
//! accounts for its tokens and how log lines are rendered.
pub mod text;
pub mod helpers;
pub mod cycles;
pub mod state;
pub mod deps;
pub mod paths;
pub mod options;
pub mod jobserver;
pub mod env;
pub mod logs;
pub mod builder;
pub mod commands;
pub mod logview;
