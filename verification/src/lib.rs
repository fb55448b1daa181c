//! A continuous, idempotent text templater: context variables resolve
//! from literals, the environment and user commands; templates are found
//! by filename matchers; outputs are written only when their content
//! changed, tracked by a digest-per-file lockfile; pre and post tasks run
//! around a render without ever recursing into one.
pub mod assoc;
pub mod cmd;
pub mod coerce;
pub mod config;
pub mod context;
pub mod decimal;
pub mod error;
pub mod filetype;
pub mod init;
pub mod lockfile;
pub mod matcher;
pub mod render;
pub mod state;
pub mod strutil;
pub mod tasks;
pub mod timing;
pub mod toml_path;
pub mod values;
pub mod walker;

