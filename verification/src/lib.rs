//! Reading and validating the machine-readable zone of a passport.
//!
//! The zone is split on its filler character into tokens, the tokens are read
//! into a record, and the four check digits of the record are compared with
//! the digits computed by the 7-3-1 rule. The result is the verdict together
//! with the holder's name.

pub mod checksum;
pub mod digits;
pub mod extract;
pub mod join;
pub mod record;
pub mod tokenizer;
pub mod validate;
pub mod zone;

pub use checksum::compute_checksum;
pub use extract::parse_mrz;
pub use record::{MRZData, MrzError};
pub use tokenizer::tokenize;
pub use validate::{validate_checksums, validate_passport};
