//! Core logic of a note-taking application: note-name validation, configuration
//! parsing and defaults, storage paths, backup naming, search-query sanitising and
//! ranking, note rendering, and the in-memory notes index with its commands.

pub mod text;
pub mod errors;
pub mod validation;
pub mod config;
pub mod paths;
pub mod strings;
pub mod renderer;
pub mod ordering;
pub mod index;
pub mod search;
pub mod filemap;
pub mod backups;
pub mod store;
pub mod sync;
pub mod watcher;
pub mod versions;
pub mod themes;
pub mod window;
