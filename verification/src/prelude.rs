//! Convenient imports: the error types and every predicate.

pub use crate::email::ValidEmail;
pub use crate::error::{DomainError, DomainErrorKind};
pub use crate::financial::{ValidCreditCard, ValidIban};
pub use crate::phone::ValidPhoneNumber;
pub use crate::url::{HttpScheme, HttpsOnly, ValidUrl};
pub use crate::uuid::{UuidVersion, ValidUuid};
