//! Management of a process's persistent environment variables: a store with
//! delimiter-separated list values, and the import of a declarative
//! snapshot into it.

pub mod args;
pub mod envvar;
pub mod error;
pub mod hexdump;
pub mod list_codec;
pub mod reconcile;
pub mod registry;
pub mod settings;
pub mod snapshot;
pub mod utils;
