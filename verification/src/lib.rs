//! CAD Studio: a verified core for stable-ID drawing models, command
//! history with undo/redo, render ordering, project-file checks and the
//! text and path rules around saving, backups and batch export.

pub mod batch;
pub mod cli;
pub mod command;
pub mod drawing;
pub mod geometry;
pub mod ids;
pub mod keys;
pub mod laws;
pub mod model;
pub mod paths;
pub mod persist;
pub mod render;
pub mod report;
pub mod text;
pub mod tool;
