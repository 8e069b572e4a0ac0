//! Variable substitution in string templates.
//!
//! Templates contain placeholder tokens of the form `${name}`. Given a
//! mapping from names to replacement values, the engine rewrites every
//! recognized placeholder to its value in a single left-to-right scan,
//! so the result never depends on the order in which the mapping was
//! built, and substituted values are never reinterpreted as
//! placeholders.
//!
//! To keep substitution deterministic, the characters `$`, `{` and `}`
//! are forbidden in both variable names and values; `substitute` and
//! `validate_vars` reject mappings that contain them.

mod detect;
mod engine;
mod error;
mod laws;
mod model;
mod vars;

pub use detect::is_templated;
pub use engine::substitute;
pub use engine::validate_vars;
pub use error::Error;
pub use laws::lemma_substitute_empty_mapping;
pub use laws::lemma_substitute_no_placeholders;
pub use laws::lemma_substitute_order_independent;
pub use vars::VarMap;

pub use model::clean;
pub use model::error_message;
pub use model::first_forbidden;
pub use model::forbidden;
pub use model::head_match;
pub use model::is_templated_spec;
pub use model::keys_clean;
pub use model::map_valid;
pub use model::match_at;
pub use model::occurs;
pub use model::placeholder;
pub use model::subst_map;
