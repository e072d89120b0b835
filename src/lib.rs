//! A small text-templating engine: `{{ name }}` placeholders and
//! `{% for item in list %} ... {% endfor %}` blocks, with every step verified.
pub mod error;
pub mod laws;
pub mod loops;
pub mod normalize;
pub mod structure;
pub mod subst;
pub mod template;
pub mod text;
pub mod value;

pub use error::{TempelError, TempelResult};
pub use template::Template;
pub use value::{Bindings, TempelVar};
