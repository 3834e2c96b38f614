//! Bloggo: a static site generator library.
//!
//! The library holds the content pipeline of the generator: the dynamic
//! [`Value`] model of front matter, the front-matter parser, the post
//! normalizer, the collection assembler with its tag index, the Atom feed
//! emitter and the render plan that drives the template engine. Reading
//! and writing files is left to the caller.
pub mod atom;
pub mod collection;
pub mod config;
pub mod dates;
pub mod error;
pub mod front_matter;
pub mod helper;
pub mod json;
pub mod keys;
pub mod outside;
pub mod post;
pub mod render;
pub mod tags;
pub mod text;
pub mod value;
pub mod yaml;

pub use atom::generate_atom_feed;
pub use collection::sort_posts;
pub use config::{is_hidden, Bloggo, Builder};
pub use error::Error;
pub use front_matter::{parse_front_matter, read_until, split_document};
pub use helper::{FormatDateTimeHelper, JoinHelper};
pub use render::{index_context, post_layout, Output};
pub use tags::TagIndex;
pub use value::{Number, Value, ValueMap};
pub use yaml::{parse_yaml_data, value_from_yaml};
