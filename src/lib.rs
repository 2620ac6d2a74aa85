//! Scraping of Prometheus text exposition: a parser from scrape bodies to per-metric samples,
//! and a history that accumulates those samples across scrapes.
pub mod keyed;
pub mod laws;
pub mod logging;
pub mod model;
pub mod number;
pub mod parser;
pub mod sample_data;
pub mod scrape;
pub mod text;
