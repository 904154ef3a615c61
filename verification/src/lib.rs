//! Arboretum: an OpenTelemetry log and trace cache, with its record model,
//! filtering, ordering and query-building logic verified.

pub mod level;
pub mod text;
pub mod db;
pub mod json;
pub mod handlers;
pub mod config;
pub mod otlp;
pub mod tui;
pub mod web;
