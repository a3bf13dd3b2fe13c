//! Domain-specific refined types: validation rules for e-mail addresses,
//! URLs, UUIDs, phone numbers, financial identifiers, network identifiers,
//! slugs and bounded numbers, each with a rich, user-facing error.
//!
//! Every predicate offers `check`, which returns `Ok(())` or a
//! [`DomainError`] saying what was validated, the offending value, why it
//! failed and an example of a valid value, and `description`.

pub mod email;
pub mod error;
pub mod financial;
pub mod geo;
pub mod identifiers;
pub mod ipaddr;
pub mod network;
pub mod numeric;
pub mod phone;
pub mod prelude;
pub mod text;
pub mod url;
pub mod uuid;

pub use error::{DomainError, DomainErrorKind};
