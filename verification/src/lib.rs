//! Catalogue of thinking patterns (natural languages and bound forms) with
//! verified query logic: filtering, lookup by name and facet listing.

pub mod catalog;
pub mod cli;
pub mod db;
pub mod json;
pub mod like;
pub mod models;
pub mod server;
pub mod text;
