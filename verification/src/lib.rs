//! Scraping, parsing and filtering of KronoX schedules.
pub mod client;
pub mod config;
pub mod error;
pub mod filter;
pub mod model;
pub mod outside;
pub mod pattern;
pub mod programme;
pub mod routes;
pub mod schedule;
pub mod schools;
pub mod service;
pub mod storage;
pub mod text;
pub mod time;
pub mod xml;
