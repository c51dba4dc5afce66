//! Core library of the classical Chinese poetry API.
//!
//! The verified parts of the service live here: the daily selection,
//! the API-key check, the per-client sliding-window rate limiter, how list
//! filters become SQL text and bound values, configuration parsing, error
//! mapping and the data-set import rules.

pub mod config;
pub mod daily;
pub mod db;
pub mod error;
pub mod handlers;
pub mod import;
pub mod json;
pub mod middleware;
pub mod models;
pub mod repository;
pub mod text;
