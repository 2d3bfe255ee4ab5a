//! Ingestion of the US Census Bureau's API catalog: tolerant parsing of the
//! `variables.json` and `geography.json` metadata documents, a caching fetch
//! layer in front of them, and per-endpoint upserts into a relational store.

pub mod calendar;
pub mod fetch_api_metadata;
pub mod ingest;
pub mod json;
pub mod models;
pub mod parse_geography;
pub mod parse_variables;
pub mod text;
