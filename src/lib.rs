//! A product catalog service: connection settings, the error taxonomy, the
//! statements the store runs, and a verified model of the product store.

pub mod text;
pub mod config;
pub mod model;
pub mod error;
pub mod pagination;
pub mod service;
pub mod ids;
pub mod catalog;
pub mod laws;
pub mod statements;
pub mod health;
