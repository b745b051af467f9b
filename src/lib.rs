//! A verified content database for a Markdown documentation site: manifest
//! ingestion, navigation-tree construction, page lookup, two-tier content
//! caching and Markdown-to-HTML rendering.

mod db;
mod error;
mod laws;
mod manifest;
mod registry;
mod render;
mod route;
mod tree;
mod text;

pub use db::{download_url, download_url_lowered, normalized_route, storage_key, ContentStep, JsonDb, BASE_URL};
pub use error::DataError;
pub use manifest::{plan_load, LoadOp};
pub use route::path_to_route;
pub use render::{code_blocks, markdown_to_html, rewrite_events, Emit, Highlighter, MdEvent};
pub use registry::{PageData, PageKey, Registry, Timestamp};
pub use text::html_escape;
pub use tree::{route_with, Manifest, ManifestNode, NavNode};
