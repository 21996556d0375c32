//! Compiles a nested configuration schema into a tree of named types, and
//! registers configuration values under path addresses.
pub mod ident;
pub mod schema;
pub mod compiler;
pub mod registry;
pub mod payload;
pub mod soundness;
pub mod text_sync;
