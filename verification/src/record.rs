use crate::digits::{all_digits, is_all_digits};
use vstd::prelude::*;

verus! {

/// The fields of a machine-readable zone as mathematical values: the model of
/// [`MRZData`].
pub struct MrzFields {
    pub document_type: char,
    pub country_code: Seq<char>,
    pub surname: Seq<char>,
    pub given_names: Seq<Seq<char>>,
    pub passport_number: Seq<char>,
    pub passport_checksum: nat,
    pub issuing_country: Seq<char>,
    pub date_of_birth: Seq<char>,
    pub dob_checksum: nat,
    pub gender: char,
    pub expiry_date: Seq<char>,
    pub expiry_checksum: nat,
    pub final_checksum: nat,
}

impl MrzFields {
    /// The invariant of a record: the codes and the number have their fixed
    /// widths, both dates are six decimal digits, and every check digit is a
    /// single decimal digit.
    pub open spec fn wf(self) -> bool {
        &&& self.country_code.len() == 3
        &&& self.passport_number.len() == 9
        &&& self.passport_checksum <= 9
        &&& self.issuing_country.len() == 3
        &&& self.date_of_birth.len() == 6
        &&& all_digits(self.date_of_birth)
        &&& self.dob_checksum <= 9
        &&& self.expiry_date.len() == 6
        &&& all_digits(self.expiry_date)
        &&& self.expiry_checksum <= 9
        &&& self.final_checksum <= 9
    }
}

/// The record read from the machine-readable zone of a passport. It is built
/// once from the text and not changed afterwards.
#[derive(Debug)]
pub struct MRZData {
    pub document_type: char,
    pub country_code: String,
    pub surname: String,
    pub given_names: Vec<String>,
    pub passport_number: String,
    pub passport_checksum: u32,
    pub issuing_country: String,
    pub date_of_birth: String,
    pub dob_checksum: u32,
    pub gender: char,
    pub expiry_date: String,
    pub expiry_checksum: u32,
    pub final_checksum: u32,
}

impl View for MRZData {
    type V = MrzFields;

    open spec fn view(&self) -> MrzFields {
        MrzFields {
            document_type: self.document_type,
            country_code: self.country_code@,
            surname: self.surname@,
            given_names: self.given_names.deep_view(),
            passport_number: self.passport_number@,
            passport_checksum: self.passport_checksum as nat,
            issuing_country: self.issuing_country@,
            date_of_birth: self.date_of_birth@,
            dob_checksum: self.dob_checksum as nat,
            gender: self.gender,
            expiry_date: self.expiry_date@,
            expiry_checksum: self.expiry_checksum as nat,
            final_checksum: self.final_checksum as nat,
        }
    }
}

impl MRZData {
    /// Tells whether the record keeps the invariant of a record.
    pub fn is_well_formed(&self) -> (answer: bool)
        ensures
            answer == self@.wf(),
    {
        let widths = self.country_code.as_str().unicode_len() == 3
            && self.passport_number.as_str().unicode_len() == 9
            && self.issuing_country.as_str().unicode_len() == 3
            && self.date_of_birth.as_str().unicode_len() == 6
            && self.expiry_date.as_str().unicode_len() == 6;
        let dates = is_all_digits(self.date_of_birth.as_str()) && is_all_digits(
            self.expiry_date.as_str(),
        );
        let digits = self.passport_checksum <= 9 && self.dob_checksum <= 9
            && self.expiry_checksum <= 9 && self.final_checksum <= 9;
        widths && dates && digits
    }
}

/// Why a text could not be read as a machine-readable zone. A text whose check
/// digits merely disagree is no error: it is read, and found invalid.
#[derive(Clone, Copy, Debug, PartialEq, Eq, Structural)]
pub enum MrzError {
    /// The text has fewer than four tokens.
    TooFewTokens,
    /// The first token is empty, so there is no document type.
    MissingDocumentType,
    /// The second token is too short to hold a country code.
    MissingCountryCode,
    /// No token begins with the nine digits of a passport number.
    MissingFixedFields,
    /// The fixed fields end before the check digit of the expiry date.
    TruncatedFixedFields,
    /// The character after the passport number is no digit.
    InvalidPassportChecksum,
    /// The date of birth is not made of six digits.
    InvalidDateOfBirth,
    /// The character after the date of birth is no digit.
    InvalidDobChecksum,
    /// The expiry date is not made of six digits.
    InvalidExpiryDate,
    /// The character after the expiry date is no digit.
    InvalidExpiryChecksum,
    /// The last token holds no digit.
    MissingFinalChecksum,
}

impl MrzError {
    /// The words that describe the error.
    pub open spec fn message_text(self) -> Seq<char> {
        match self {
            MrzError::TooFewTokens => "Too few tokens"@,
            MrzError::MissingDocumentType => "Invalid document type"@,
            MrzError::MissingCountryCode => "Invalid country code"@,
            MrzError::MissingFixedFields => "No passport number found"@,
            MrzError::TruncatedFixedFields => "Fixed fields too short"@,
            MrzError::InvalidPassportChecksum => "Invalid passport number checksum"@,
            MrzError::InvalidDateOfBirth => "Invalid date of birth"@,
            MrzError::InvalidDobChecksum => "Invalid date of birth checksum"@,
            MrzError::InvalidExpiryDate => "Invalid expiry date"@,
            MrzError::InvalidExpiryChecksum => "Invalid expiry date checksum"@,
            MrzError::MissingFinalChecksum => "Invalid final checksum"@,
        }
    }

    /// Describes the error in words.
    pub fn message(&self) -> (text: &'static str)
        ensures
            text@ == self.message_text(),
    {
        match self {
            MrzError::TooFewTokens => "Too few tokens",
            MrzError::MissingDocumentType => "Invalid document type",
            MrzError::MissingCountryCode => "Invalid country code",
            MrzError::MissingFixedFields => "No passport number found",
            MrzError::TruncatedFixedFields => "Fixed fields too short",
            MrzError::InvalidPassportChecksum => "Invalid passport number checksum",
            MrzError::InvalidDateOfBirth => "Invalid date of birth",
            MrzError::InvalidDobChecksum => "Invalid date of birth checksum",
            MrzError::InvalidExpiryDate => "Invalid expiry date",
            MrzError::InvalidExpiryChecksum => "Invalid expiry date checksum",
            MrzError::MissingFinalChecksum => "Invalid final checksum",
        }
    }
}

} // verus!
