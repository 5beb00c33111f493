//! Typst toolchain support: documentation conversion (HTML to Markdown),
//! docs routing, release-asset selection and version handling.

pub mod text;
pub mod links;
pub mod route;
pub mod generate;
pub mod mdast;
pub mod render;
pub mod table;
pub mod compositor;
pub mod standard;
pub mod composite;
pub mod html;
pub mod html_to_mdast;
pub mod html_to_md;
pub mod json;
pub mod schema;
pub mod details;
pub mod render_func;
pub mod render_bodies;
pub mod github;
pub mod install;
pub mod resolve;
pub mod exec;
pub mod docs_source;
pub mod manifest;

