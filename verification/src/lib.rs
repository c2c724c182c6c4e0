//! SPTrace: offline static analysis of SQL stored procedures.
//!
//! The library reads procedure text and extracts the procedure's name,
//! parameters, dependencies, temp tables, statements and risk findings, and
//! renders reports of them. Every function states its result in its contract.
pub mod analyzer;
pub mod guarantees;
pub mod headings;
pub mod laws;
pub mod model;
pub mod normalizer;
pub mod parser;
pub mod pattern;
pub mod report;
pub mod rules;
pub mod scan;
pub mod text;
