//! A small library for an IP-geolocation lookup tool: it parses the tool's
//! configuration file, chooses the input mode, cleans piped input, filters and
//! deduplicates resolved addresses, builds the provider URL, extracts the
//! country from a JSON response, and formats the report lines.

pub mod config;
pub mod geo;
pub mod input;
pub mod ip;
pub mod report;
pub mod text;
