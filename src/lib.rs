//! A directory-backed vault of structured documents: the document codec,
//! the identifier index, the store's path rules and the schema registry with
//! its inheritance resolver and cache freshness rule.
pub mod error;
pub mod text;
pub mod ident;
pub mod clock;
pub mod value;
pub mod yaml;
pub mod models;
pub mod codec;
pub mod resolver;
pub mod registry;
pub mod index;
pub mod store;
pub mod cli;
pub mod config;
