//! Core engine of a project-scaffolding tool: template catalogs with
//! deterministic override semantics, variable collection into a render
//! context, and a generation engine that renders a template tree.

pub mod cli;
pub mod config;
pub mod context;
pub mod env;
pub mod error;
pub mod hayaku_context;
pub mod local_templates;
pub mod strutil;
pub mod templating;
pub mod toml_data;
