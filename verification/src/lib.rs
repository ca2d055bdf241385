//! Storage tier of a mail server: a registry of logical key-value subspaces,
//! settings for pooled backend connections, the relational schema derived
//! from the registry, and a store facade with a verified in-memory backend.

pub mod collection;
pub mod config;
pub mod directory;
pub mod error;
pub mod lookup;
pub mod memory;
pub mod mysql;
pub mod order;
pub mod pool;
pub mod store;
pub mod subspace;
pub mod table;
pub mod text;
