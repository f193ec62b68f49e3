//! Medulla: a project-scoped knowledge engine.
pub mod text;
pub mod clock;
pub mod entity;
pub mod error;
pub mod tools;
pub mod slug;
pub mod queue;
pub mod graph;
pub mod search;
pub mod params;
pub mod lookup;
pub mod update;
pub mod request;
pub mod ops;
pub mod record;
pub mod order;
pub mod snapshot;
pub mod cache;
pub mod subscriptions;
pub mod cli;
pub mod tool;
pub mod resources;
pub mod listing;
pub mod hook;
pub mod store;
