//! Core logic of a Typst-based static blog generator: post metadata,
//! parsing of Typst sources, index and post HTML rendering, templates.

pub mod text;
pub mod date;
pub mod config;
pub mod html;
pub mod meta;
pub mod parse;
pub mod post;
pub mod scaffold;
pub mod server;

pub use config::{site_title_from_config, SiteConfig};
pub use html::{html_escape, inject_theme_post_html, render_index_html};
pub use meta::{post_meta_from_content, post_meta_from_fields, sort_posts_desc, PostMeta};
pub use parse::{parse_article_call, parse_leading_quoted, parse_let_value};
pub use post::{validate_post_id, validate_slug};
pub use scaffold::render_template;
