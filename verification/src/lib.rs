//! A verified static-site generation library.
//!
//! The library turns frontmatter-annotated markdown documents into HTML
//! pages by composing text templates.  The algorithmic core — frontmatter
//! extraction, the fenced-code state machine, placeholder substitution and
//! page assembly — is verified; the markdown event parser and the syntax
//! highlighter are called through a small set of trusted wrappers.

pub mod date;
pub mod document;
pub mod errors;
pub mod events;
pub mod frontmatter;
pub mod markdown;
pub mod pages;
pub mod repo;
pub mod strmap;
pub mod templating;
pub mod text;

pub use date::Date;
pub use document::{render_blog, Meta};
pub use errors::{DocError, ErrMsg, FrontmatterError, RenderError};
pub use events::MdEvent;
pub use frontmatter::parse_frontmatter;
pub use pages::layout::layout_id;
pub use pages::{generate_all, Blog, Page, Renderer};
pub use strmap::StrMap;
pub use templating::{apply_placeholders, to_placeholder, process_placeholder, Placeholder};
