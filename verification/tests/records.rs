use passport_lib::{parse_mrz, validate_checksums, MRZData, MrzError};

const ZONE: &str =
    "P<UTOERIKSSON<<ANNA<MARIA<<<<<<<<<<<<<<<<<<<1234567897UTO7408122F1204159ZE184226B<<<<<16";

fn specimen() -> MRZData {
    MRZData {
        document_type: 'P',
        country_code: String::from("UTO"),
        surname: String::from("ERIKSSON"),
        given_names: vec![String::from("ANNA"), String::from("MARIA")],
        passport_number: String::from("L898902C3"),
        passport_checksum: 6,
        issuing_country: String::from("UTO"),
        date_of_birth: String::from("740812"),
        dob_checksum: 2,
        gender: 'F',
        expiry_date: String::from("120415"),
        expiry_checksum: 9,
        final_checksum: 8,
    }
}

fn error_of(text: &str) -> MrzError {
    match parse_mrz(text) {
        Ok(data) => panic!("read as {:?}", data),
        Err(error) => error,
    }
}

#[test]
fn every_field_is_read() {
    let data = parse_mrz(ZONE).unwrap();
    assert_eq!(data.document_type, 'P');
    assert_eq!(data.country_code, "UTO");
    assert_eq!(data.surname, "ERIKSSON");
    assert_eq!(data.given_names, vec!["ANNA", "MARIA"]);
    assert_eq!(data.passport_number, "123456789");
    assert_eq!(data.passport_checksum, 7);
    assert_eq!(data.issuing_country, "UTO");
    assert_eq!(data.date_of_birth, "740812");
    assert_eq!(data.dob_checksum, 2);
    assert_eq!(data.gender, 'F');
    assert_eq!(data.expiry_date, "120415");
    assert_eq!(data.expiry_checksum, 9);
    assert_eq!(data.final_checksum, 6);
    assert!(data.is_well_formed());
}

#[test]
fn document_type_is_the_first_character_only() {
    let data = parse_mrz("PM<UTOX<<A<<1234567897UTO7408122F12041596").unwrap();
    assert_eq!(data.document_type, 'P');
}

#[test]
fn surname_may_be_empty() {
    let data = parse_mrz("P<UTO<<A<<1234567897UTO7408122F12041596").unwrap();
    assert_eq!(data.country_code, "UTO");
    assert_eq!(data.surname, "");
}

#[test]
fn given_names_end_at_the_first_token_of_digits() {
    let data = parse_mrz("P<UTOX<<A<B<2024<C<<1234567897UTO7408122F12041596").unwrap();
    assert_eq!(data.given_names, vec!["A", "B"]);
    let data = parse_mrz("P<UTOX<<A<B<<C<<1234567897UTO7408122F12041596").unwrap();
    assert_eq!(data.given_names, vec!["A", "B"]);
    let data = parse_mrz("P<UTOX<<A1<B<<1234567897UTO7408122F12041596").unwrap();
    assert_eq!(data.given_names, vec!["A1", "B"]);
}

#[test]
fn third_token_is_no_given_name() {
    let data = parse_mrz("P<UTOX<Y<A<<1234567897UTO7408122F12041596").unwrap();
    assert_eq!(data.given_names, vec!["A"]);
    assert_eq!(data.surname, "X");
}

#[test]
fn fixed_fields_are_put_together_from_several_tokens() {
    let data = parse_mrz("P<UTOX<<A<<123456789<7UTO7408122F<1204159<<6").unwrap();
    assert_eq!(data.passport_number, "123456789");
    assert_eq!(data.passport_checksum, 7);
    assert_eq!(data.issuing_country, "UTO");
    assert_eq!(data.date_of_birth, "740812");
    assert_eq!(data.dob_checksum, 2);
    assert_eq!(data.gender, 'F');
    assert_eq!(data.expiry_date, "120415");
    assert_eq!(data.expiry_checksum, 9);
    assert_eq!(data.final_checksum, 6);
    assert!(validate_checksums(&data));
}

#[test]
fn fixed_fields_begin_at_the_first_token_with_nine_digits() {
    // The given name is the first such token, so the fields are cut from it.
    assert_eq!(
        error_of("P<UTOX<<123456789A<<9876543213UTO7408122F12041596"),
        MrzError::InvalidPassportChecksum
    );
    let data = parse_mrz("P<UTOX<<12345678A<<9876543213UTO7408122F12041594").unwrap();
    assert_eq!(data.passport_number, "987654321");
    assert_eq!(data.given_names, vec!["12345678A"]);
}

#[test]
fn last_check_digit_is_the_last_digit_of_the_last_token() {
    assert_eq!(parse_mrz(ZONE).unwrap().final_checksum, 6);
    let data = parse_mrz("P<UTOX<<A<<1234567897UTO7408122F1204159<<3AB4CD").unwrap();
    assert_eq!(data.final_checksum, 4);
    let data = parse_mrz("P<UTOX<<A<<1234567897UTO7408122F1204159").unwrap();
    assert_eq!(data.final_checksum, 9);
}

#[test]
fn too_few_tokens() {
    assert_eq!(error_of(""), MrzError::TooFewTokens);
    assert_eq!(error_of("P<UTOX<1234567897UTO7408122F12041596"), MrzError::TooFewTokens);
}

#[test]
fn missing_document_type() {
    assert_eq!(error_of("<UTOX<<A<<1234567897UTO7408122F12041596"), MrzError::MissingDocumentType);
}

#[test]
fn missing_country_code() {
    assert_eq!(error_of("P<UT<<A<<1234567897UTO7408122F12041596"), MrzError::MissingCountryCode);
    assert_eq!(error_of("P<<<A<<1234567897UTO7408122F12041596"), MrzError::MissingCountryCode);
}

#[test]
fn missing_fixed_fields() {
    assert_eq!(error_of("P<UTOX<<A<<<"), MrzError::MissingFixedFields);
    assert_eq!(error_of("P<UTOX<<A<<12345678<9"), MrzError::MissingFixedFields);
    assert_eq!(error_of("P<UTOX<<A<<12345678X7UTO7408122F12041596"), MrzError::MissingFixedFields);
    assert_eq!(
        error_of("P<UTOERIKSSON<<ANNA<MARIA<<L898902C36UTO7408122F1204159ZE184226B<<<<<10"),
        MrzError::MissingFixedFields
    );
}

#[test]
fn truncated_fixed_fields() {
    assert_eq!(error_of("P<UTOX<<A<<123456789"), MrzError::TruncatedFixedFields);
    assert_eq!(error_of("P<UTOX<<A<<1234567897UTO7408122F120415"), MrzError::TruncatedFixedFields);
    assert_eq!(
        error_of("P<UTOX<<A<<1234567897UTO7408122F12041<<<<"),
        MrzError::TruncatedFixedFields
    );
}

#[test]
fn invalid_passport_checksum() {
    assert_eq!(
        error_of("P<UTOX<<A<<123456789XUTO7408122F12041596"),
        MrzError::InvalidPassportChecksum
    );
}

#[test]
fn invalid_date_of_birth() {
    assert_eq!(error_of("P<UTOX<<A<<1234567897UTO74O8122F12041596"), MrzError::InvalidDateOfBirth);
}

#[test]
fn invalid_dob_checksum() {
    assert_eq!(error_of("P<UTOX<<A<<1234567897UTO740812XF12041596"), MrzError::InvalidDobChecksum);
}

#[test]
fn invalid_expiry_date() {
    assert_eq!(error_of("P<UTOX<<A<<1234567897UTO7408122F12O41596"), MrzError::InvalidExpiryDate);
}

#[test]
fn invalid_expiry_checksum() {
    assert_eq!(
        error_of("P<UTOX<<A<<1234567897UTO7408122F120415X6"),
        MrzError::InvalidExpiryChecksum
    );
}

#[test]
fn missing_final_checksum() {
    assert_eq!(
        error_of("P<UTOX<<A<<1234567897UTO7408122F1204159<"),
        MrzError::MissingFinalChecksum
    );
    assert_eq!(
        error_of("P<UTOX<<A<<1234567897UTO7408122F1204159<<<XYZ"),
        MrzError::MissingFinalChecksum
    );
}

#[test]
fn first_fault_is_the_one_reported() {
    // Both check characters are letters; the passport number's comes first.
    assert_eq!(
        error_of("P<UTOX<<A<<123456789XUTO740812XF12041596"),
        MrzError::InvalidPassportChecksum
    );
}

#[test]
fn errors_are_described() {
    assert_eq!(MrzError::TooFewTokens.message(), "Too few tokens");
    assert_eq!(MrzError::MissingDocumentType.message(), "Invalid document type");
    assert_eq!(MrzError::MissingCountryCode.message(), "Invalid country code");
    assert_eq!(MrzError::MissingFixedFields.message(), "No passport number found");
    assert_eq!(MrzError::TruncatedFixedFields.message(), "Fixed fields too short");
    assert_eq!(MrzError::InvalidPassportChecksum.message(), "Invalid passport number checksum");
    assert_eq!(MrzError::InvalidDateOfBirth.message(), "Invalid date of birth");
    assert_eq!(MrzError::InvalidDobChecksum.message(), "Invalid date of birth checksum");
    assert_eq!(MrzError::InvalidExpiryDate.message(), "Invalid expiry date");
    assert_eq!(MrzError::InvalidExpiryChecksum.message(), "Invalid expiry date checksum");
    assert_eq!(MrzError::MissingFinalChecksum.message(), "Invalid final checksum");
}

#[test]
fn record_with_letters_in_its_number_is_checked() {
    let data = specimen();
    assert!(data.is_well_formed());
    assert!(validate_checksums(&data));
}

#[test]
fn each_check_digit_counts() {
    let mut data = specimen();
    data.passport_checksum = 5;
    assert!(!validate_checksums(&data));
    let mut data = specimen();
    data.dob_checksum = 3;
    assert!(!validate_checksums(&data));
    let mut data = specimen();
    data.expiry_checksum = 0;
    assert!(!validate_checksums(&data));
    let mut data = specimen();
    data.final_checksum = 0;
    assert!(!validate_checksums(&data));
}

#[test]
fn last_check_digit_covers_the_other_three() {
    // With 5 for 6 behind the number the composite text changes, and so does
    // its digit: 8 is no longer right, and the record stays invalid with the
    // digit that is.
    let mut data = specimen();
    data.passport_checksum = 5;
    data.final_checksum = 1;
    assert_eq!(passport_lib::compute_checksum("L898902C3574081221204159"), 1);
    assert!(!validate_checksums(&data));
}

#[test]
fn names_and_codes_do_not_count() {
    let mut data = specimen();
    data.surname = String::from("OTHER");
    data.given_names = vec![];
    data.country_code = String::from("XXX");
    data.issuing_country = String::from("YYY");
    data.gender = 'M';
    data.document_type = 'V';
    assert!(validate_checksums(&data));
}

#[test]
fn ill_formed_records_are_told_apart() {
    let mut data = specimen();
    data.passport_checksum = 10;
    assert!(!data.is_well_formed());
    let mut data = specimen();
    data.date_of_birth = String::from("74O812");
    assert!(!data.is_well_formed());
    let mut data = specimen();
    data.expiry_date = String::from("1204155");
    assert!(!data.is_well_formed());
    let mut data = specimen();
    data.passport_number = String::from("L898902C");
    assert!(!data.is_well_formed());
    let mut data = specimen();
    data.country_code = String::from("UT");
    assert!(!data.is_well_formed());
    let mut data = specimen();
    data.issuing_country = String::from("UTOP");
    assert!(!data.is_well_formed());
}
