//! Substitution of `${NAME}` placeholders in text, with an optional literal
//! suffix (`${NAME.ext}`, `${NAME-tail}`) that is emitted only after a
//! non-empty value.
//!
//! The placeholder grammar, the scan and the rendering rules are stated as
//! spec functions in [`grammar`]; the executable functions are proved to
//! compute exactly those, and [`laws`] proves how they fit together.

pub mod engine;
pub mod env_vars;
pub mod grammar;
pub mod laws;
pub mod scanner;
pub mod validate;

pub use engine::{is_templated, substitute};
pub use env_vars::parse_env_vars;
pub use validate::{validate, validate_vars, Error};
