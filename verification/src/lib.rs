//! A static site generator's core: markdown sources with YAML front matter
//! are described, cut into pages, and rendered into HTML templates.
pub mod builder;
pub mod model;
pub mod paginate;
pub mod parse;
pub mod pattern;
pub mod site;
pub mod template;
pub mod text;
