//! Markdown tables from YAML lists of flat records, and YAML back from
//! collections of named tables.

pub mod model;
pub mod text;
pub mod columns;
pub mod markdown;
pub mod aggregate;
pub mod yaml;
