//! A static-site build library: content-tree ingestion, a content-addressed
//! asset store, theme loading with scripting-hook bookkeeping, per-document
//! rendering helpers and the build session.
pub mod config;
pub mod text;
pub mod asset;
pub mod store;
pub mod names;
pub mod tree;
pub mod front;
pub mod categories;
pub mod markdown;
pub mod render;
pub mod code;
pub mod paths;
pub mod files;
pub mod session;
pub mod hooks;
pub mod builder;
pub mod theme;
