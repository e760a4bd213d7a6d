//! Inspection and exploration of one YantrikDB store.

pub mod calendar;
pub mod double;
pub mod draw;
pub mod embedder;
pub mod explorer;
pub mod fixed;
pub mod inspect;
pub mod inspector;
pub mod json;
pub mod lifecycle;
pub mod namespaces;
pub mod order;
pub mod quotient;
pub mod screen;
pub mod snapshot;
pub mod text;
