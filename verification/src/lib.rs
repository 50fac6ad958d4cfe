//! Cross-repository search for the `global` commands (which repositories
//! to visit, what the request asks for, how results are merged,
//! deduplicated, ranked and cut, and how the outcome is reported), plus the
//! named-entity-recognition provider configuration layer.
pub mod command;
pub mod hits;
pub mod ner;
pub mod reply;
pub mod report;
pub mod request;
pub mod targets;
pub mod text;
