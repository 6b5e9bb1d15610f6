use passport_lib::{validate_passport, MrzError};

const LINE_ONE: &str = "P<UTOERIKSSON<<ANNA<MARIA<<<<<<<<<<<<<<<<<<<";
const LINE_TWO: &str = "1234567897UTO7408122F1204159ZE184226B<<<<<16";

fn zone(line_two: &str) -> String {
    format!("{}{}", LINE_ONE, line_two)
}

fn replace_at(text: &str, index: usize, c: char) -> String {
    text.chars().enumerate().map(|(i, old)| if i == index { c } else { old }).collect()
}

#[test]
fn consistent_zone_is_valid() {
    assert_eq!(
        validate_passport(zone(LINE_TWO)),
        Ok((true, String::from("ANNA MARIA ERIKSSON")))
    );
}

#[test]
fn validation_is_repeatable() {
    let first = validate_passport(zone(LINE_TWO));
    let second = validate_passport(zone(LINE_TWO));
    assert_eq!(first, second);
}

#[test]
fn wrong_passport_check_digit_is_invalid() {
    for digit in "012345689".chars() {
        let line_two = replace_at(LINE_TWO, 9, digit);
        assert_eq!(
            validate_passport(zone(&line_two)),
            Ok((false, String::from("ANNA MARIA ERIKSSON")))
        );
    }
}

#[test]
fn wrong_birth_check_digit_is_invalid() {
    for digit in "013456789".chars() {
        let line_two = replace_at(LINE_TWO, 19, digit);
        assert_eq!(
            validate_passport(zone(&line_two)),
            Ok((false, String::from("ANNA MARIA ERIKSSON")))
        );
    }
}

#[test]
fn wrong_expiry_check_digit_is_invalid() {
    for digit in "012345678".chars() {
        let line_two = replace_at(LINE_TWO, 27, digit);
        assert_eq!(
            validate_passport(zone(&line_two)),
            Ok((false, String::from("ANNA MARIA ERIKSSON")))
        );
    }
}

#[test]
fn wrong_final_check_digit_is_invalid() {
    for digit in "012345789".chars() {
        let line_two = replace_at(LINE_TWO, 43, digit);
        assert_eq!(
            validate_passport(zone(&line_two)),
            Ok((false, String::from("ANNA MARIA ERIKSSON")))
        );
    }
}

#[test]
fn field_digit_with_matching_final_digit_is_still_invalid() {
    // The passport check digit is wrong, and the last digit is the one
    // computed over the fields with that wrong digit in them.
    let line_two = "1234567897UTO7408122F1204159ZE184226B<<<<<16";
    assert_eq!(validate_passport(zone(line_two)).map(|(valid, _)| valid), Ok(true));
    let line_two = "1234567890UTO7408122F1204159ZE184226B<<<<<17";
    assert_eq!(
        validate_passport(zone(line_two)),
        Ok((false, String::from("ANNA MARIA ERIKSSON")))
    );
}

#[test]
fn specimen_with_letters_in_its_number_cannot_be_read() {
    // No token of this zone begins with nine digits, so the fixed fields are
    // not found.
    let line_two = "L898902C36UTO7408122F1204159ZE184226B<<<<<10";
    assert_eq!(validate_passport(zone(line_two)), Err(MrzError::MissingFixedFields));
}

#[test]
fn name_keeps_order_and_case() {
    let text = "P<UTOvan Dyk<<Maria<anna<LUISA<<<<<<<1234567897UTO7408122F1204159<<<<<<6";
    assert_eq!(
        validate_passport(String::from(text)),
        Ok((true, String::from("Maria anna LUISA van Dyk")))
    );
}

#[test]
fn name_without_given_names_begins_with_the_space() {
    let text = "P<UTOERIKSSON<<<<<<<1234567897UTO7408122F1204159<<<<<<6";
    assert_eq!(validate_passport(String::from(text)), Ok((true, String::from(" ERIKSSON"))));
}

#[test]
fn name_with_one_given_name() {
    let text = "P<UTOERIKSSON<<ANNA<<1234567897UTO7408122F1204159<<<<<<6";
    assert_eq!(validate_passport(String::from(text)), Ok((true, String::from("ANNA ERIKSSON"))));
}

#[test]
fn name_is_given_for_an_invalid_zone_too() {
    let text = "P<UTOERIKSSON<<ANNA<<1234567897UTO7408122F1204159<<<<<<5";
    assert_eq!(validate_passport(String::from(text)), Ok((false, String::from("ANNA ERIKSSON"))));
}

#[test]
fn letters_beyond_ascii_are_kept_in_the_name() {
    let text = "P<UTOMÜLLER<<ZOË<<1234567897UTO7408122F1204159<<<<<<6";
    assert_eq!(validate_passport(String::from(text)), Ok((true, String::from("ZOË MÜLLER"))));
}

#[test]
fn fewer_than_four_tokens_is_an_error() {
    assert_eq!(validate_passport(String::new()), Err(MrzError::TooFewTokens));
    assert_eq!(validate_passport(String::from("P")), Err(MrzError::TooFewTokens));
    assert_eq!(validate_passport(String::from("P<UTOERIKSSON")), Err(MrzError::TooFewTokens));
    assert_eq!(
        validate_passport(String::from("P<UTOX<1234567897UTO7408122F12041596")),
        Err(MrzError::TooFewTokens)
    );
}

#[test]
fn four_tokens_are_enough() {
    // The fourth token is not made of digits alone, so it is read as a given
    // name as well as the start of the fixed fields.
    assert_eq!(
        validate_passport(String::from("P<UTOX<<1234567897UTO7408122F12041596")),
        Ok((true, String::from("1234567897UTO7408122F12041596 X")))
    );
}

#[test]
fn missing_check_characters_are_errors_not_false() {
    let passport = replace_at(LINE_TWO, 9, 'X');
    assert_eq!(validate_passport(zone(&passport)), Err(MrzError::InvalidPassportChecksum));
    let birth = replace_at(LINE_TWO, 19, 'X');
    assert_eq!(validate_passport(zone(&birth)), Err(MrzError::InvalidDobChecksum));
    let expiry = replace_at(LINE_TWO, 27, 'X');
    assert_eq!(validate_passport(zone(&expiry)), Err(MrzError::InvalidExpiryChecksum));
    let last = replace_at(&replace_at(LINE_TWO, 43, 'X'), 42, 'X');
    assert_eq!(validate_passport(zone(&last)), Err(MrzError::MissingFinalChecksum));
}

#[test]
fn lines_may_follow_each_other_directly_or_after_fillers() {
    let direct = format!("{}{}", LINE_ONE, LINE_TWO);
    let padded = format!("{}<<{}", LINE_ONE, LINE_TWO);
    let wanted = Ok((true, String::from("ANNA MARIA ERIKSSON")));
    assert_eq!(validate_passport(direct), wanted);
    assert_eq!(validate_passport(padded), wanted);
}

#[test]
fn line_break_is_part_of_its_token() {
    // The second line's first token then begins with the line break, not with
    // nine digits.
    let text = format!("{}\n{}", LINE_ONE, LINE_TWO);
    assert_eq!(validate_passport(text), Err(MrzError::MissingFixedFields));
}

#[test]
fn full_first_line_runs_into_the_second() {
    // Without a filler at its end the first line shares a token with the
    // second, and no token begins with nine digits.
    let text = "P<UTOERIKSSON<<ANNA<MARIA<JOSEPHINE<CHARLOTTE1234567897UTO7408122F1204159<<<<<<<<<<<<<<06";
    assert_eq!(validate_passport(String::from(text)), Err(MrzError::MissingFixedFields));
}

#[test]
fn single_filler_before_the_second_line_makes_it_a_given_name() {
    let text = "P<UTOERIKSSON<<ANNA<1234567897UTO7408122F1204159<<6";
    assert_eq!(
        validate_passport(String::from(text)),
        Ok((true, String::from("ANNA 1234567897UTO7408122F1204159 ERIKSSON")))
    );
}

#[test]
fn letters_in_a_date_are_an_error() {
    let text = "P<UTOERIKSSON<<ANNA<<1234567897UTO74O8122F1204159<<<<<<6";
    assert_eq!(validate_passport(String::from(text)), Err(MrzError::InvalidDateOfBirth));
    let text = "P<UTOERIKSSON<<ANNA<<1234567897UTO7408122F12O4159<<<<<<6";
    assert_eq!(validate_passport(String::from(text)), Err(MrzError::InvalidExpiryDate));
}
