//! Reputation-lookup pipeline: identifier sanitation, declarative field
//! extraction from a rendered page, geolocation enrichment, and aggregation
//! of both into one nested record.

pub mod aggregate;
pub mod domain;
pub mod enrich;
pub mod extract;
pub mod ip;
pub mod locator;
pub mod pipeline;
pub mod record;
pub mod sanitize;
pub mod text;
