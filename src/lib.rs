//! Control plane of a multi-tenant search server: the name resolver, the
//! per-index update logs, the index registry and the dispatch rules that
//! keep one writer per index while reads run concurrently.

pub mod name;
pub mod resolver;
pub mod updates;
pub mod index_store;
pub mod id_map;
pub mod update_actor;
pub mod index_actor;
pub mod controller;
