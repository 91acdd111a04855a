//! Validated financial and corporate identifiers: CNPJ (Brazilian company registry number), ISIN
//! (ISO 6166), LEI (ISO 17442), CFI (ISO 10962) and ISO 3166-1 alpha-2 country codes.
//!
//! Each identifier is a small `Copy` value type that can only be obtained through validation:
//! every constructor normalizes the input (trimming, case folding, and for CNPJ stripping
//! punctuation) and then checks the identifier's rules (character classes, check digits or code
//! tables). The contracts state those rules as specification functions over the input's
//! characters, and the type invariant of each value type states that it holds a valid identifier.

pub mod order;
pub mod text;
pub mod cfi;
pub mod cnpj;
pub mod country;
pub mod isin;
pub mod lei;

pub use cfi::{Cfi, CfiError};
pub use cnpj::{Cnpj, CnpjError, FormattedCnpj};
pub use country::{CountryCode, CountryCodeError};
pub use isin::{Isin, IsinError};
pub use lei::{Lei, LeiError};
