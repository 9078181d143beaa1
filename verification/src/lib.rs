//! Core logic of the Nimble launcher.
//!
//! - [`schema`]: what a command file defines.
//! - [`files`] and [`loader`]: which files are command files, the order they
//!   load in, and which commands load with which warnings.
//! - [`paths`], [`env`], [`lists`], [`scripts`]: resolving `script:` and
//!   `list:` references, layering environment variables, parsing TSV lists,
//!   and what a script run yields.
//! - [`launcher`]: URLs, clipboard text, deep links and the context state.
//! - [`watcher`], [`debug_log`], [`deploy`], [`focus`], [`migration`]: the
//!   decisions behind live reloading, the debug log, deploying the bundled
//!   skill, focus restoration and the config-directory move.
//! - [`text`]: string helpers with specifications over character sequences.

pub mod text;
pub mod env;
pub mod paths;
pub mod lists;
pub mod launcher;
pub mod scripts;
pub mod schema;
pub mod loader;
pub mod files;
pub mod watcher;
pub mod debug_log;
pub mod deploy;
pub mod focus;
pub mod migration;
