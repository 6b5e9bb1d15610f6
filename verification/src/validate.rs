use crate::checksum::{check_digit, compute_checksum};
use crate::digits::{digit_char, digit_text};
use crate::extract::{parse_fields, parse_mrz};
use crate::join::{joined, lemma_joined_push};
use crate::record::{MRZData, MrzError, MrzFields};
use crate::tokenizer::{all_free_of, free_of, lemma_split_of_join, split};
use vstd::prelude::*;
use vstd::string::StringExecFns;

verus! {

/// The text that the last check digit covers: the passport number, the date of
/// birth and the expiry date, each followed by its own check digit.
pub open spec fn composite_text(fields: MrzFields) -> Seq<char> {
    fields.passport_number + seq![digit_char(fields.passport_checksum)] + fields.date_of_birth
        + seq![digit_char(fields.dob_checksum)] + fields.expiry_date + seq![
        digit_char(fields.expiry_checksum),
    ]
}

/// Whether all four check digits of a record agree with the digits computed
/// from its fields.
pub open spec fn checksums_agree(fields: MrzFields) -> bool {
    &&& check_digit(fields.passport_number) == fields.passport_checksum
    &&& check_digit(fields.date_of_birth) == fields.dob_checksum
    &&& check_digit(fields.expiry_date) == fields.expiry_checksum
    &&& check_digit(composite_text(fields)) == fields.final_checksum
}

/// The holder's name as it is shown: the given names in their order, one space
/// between each two, then one space and the surname. No character is changed.
pub open spec fn full_name(fields: MrzFields) -> Seq<char> {
    joined(fields.given_names, seq![' ']) + seq![' '] + fields.surname
}

/// What validating a text gives: for a text that can be read, whether its
/// check digits agree, and the holder's name in either case; for any other
/// text, the reason why it cannot be read.
pub open spec fn validation_of(text: Seq<char>) -> Result<(bool, Seq<char>), MrzError> {
    match parse_fields(text) {
        Ok(fields) => Ok((checksums_agree(fields), full_name(fields))),
        Err(error) => Err(error),
    }
}

/// The model of what `validate_passport` returns.
pub open spec fn verdict_view(outcome: Result<(bool, String), MrzError>) -> Result<
    (bool, Seq<char>),
    MrzError,
> {
    match outcome {
        Ok((valid, name)) => Ok((valid, name@)),
        Err(error) => Err(error),
    }
}

/// One wrong check digit is enough: a record in which the check digit of the
/// passport number, of the date of birth or of the expiry date differs from
/// the digit computed from that field has check digits that do not agree,
/// whatever the other three are.
pub proof fn lemma_field_digit_decides(fields: MrzFields)
    requires
        fields.passport_checksum != check_digit(fields.passport_number)
            || fields.dob_checksum != check_digit(fields.date_of_birth)
            || fields.expiry_checksum != check_digit(fields.expiry_date),
    ensures
        !checksums_agree(fields),
{
}

/// Changing one check digit of a record whose check digits agree makes them
/// disagree. `changed` is `fields` with another digit in place of exactly one
/// of the three check digits of the passport number, the date of birth and the
/// expiry date.
pub proof fn lemma_changed_digit_disagrees(fields: MrzFields, changed: MrzFields)
    requires
        checksums_agree(fields),
        changed.passport_number == fields.passport_number,
        changed.date_of_birth == fields.date_of_birth,
        changed.expiry_date == fields.expiry_date,
        changed.passport_checksum != fields.passport_checksum || changed.dob_checksum
            != fields.dob_checksum || changed.expiry_checksum != fields.expiry_checksum,
    ensures
        !checksums_agree(changed),
{
}

/// The last check digit counts by itself: a record whose first three check
/// digits are right and whose last one differs from the digit computed over
/// the composite text has check digits that do not agree.
pub proof fn lemma_final_digit_decides(fields: MrzFields)
    requires
        fields.passport_checksum == check_digit(fields.passport_number),
        fields.dob_checksum == check_digit(fields.date_of_birth),
        fields.expiry_checksum == check_digit(fields.expiry_date),
        fields.final_checksum != check_digit(composite_text(fields)),
    ensures
        !checksums_agree(fields),
{
}

/// The name keeps every given name and the surname as they are, in their
/// order, with exactly one space between each two: where none of them holds a
/// space, splitting the name on the space gives the given names and then the
/// surname.
pub proof fn lemma_name_keeps_parts(fields: MrzFields)
    requires
        fields.given_names.len() >= 1,
        all_free_of(fields.given_names, ' '),
        free_of(fields.surname, ' '),
    ensures
        full_name(fields) == joined(fields.given_names.push(fields.surname), seq![' ']),
        split(full_name(fields), ' ') == fields.given_names.push(fields.surname),
{
    let parts = fields.given_names.push(fields.surname);
    lemma_joined_push(fields.given_names, fields.surname, seq![' ']);
    assert(all_free_of(parts, ' ')) by {
        assert forall|i: int| 0 <= i < parts.len() implies free_of(#[trigger] parts[i], ' ') by {
            if i < fields.given_names.len() {
                assert(parts[i] == fields.given_names[i]);
            }
        }
    }
    lemma_split_of_join(parts, ' ');
}

/// A text that cannot be read is never found merely invalid: validating it
/// gives the error that reading it gives. A text that can be read is never
/// an error, whatever its check digits are.
pub proof fn lemma_errors_are_kept(text: Seq<char>)
    ensures
        parse_fields(text) is Err ==> validation_of(text) == Err::<(bool, Seq<char>), MrzError>(
            parse_fields(text)->Err_0,
        ),
        parse_fields(text) is Ok ==> validation_of(text) is Ok,
{
}

/// Compares the four check digits of a record with the digits computed from
/// its fields. All four are computed, whatever the first comparisons give.
pub fn validate_checksums(mrz_data: &MRZData) -> (valid: bool)
    requires
        mrz_data@.wf(),
    ensures
        valid == checksums_agree(mrz_data@),
{
    let passport_checksum = compute_checksum(mrz_data.passport_number.as_str());
    let dob_checksum = compute_checksum(mrz_data.date_of_birth.as_str());
    let expiry_checksum = compute_checksum(mrz_data.expiry_date.as_str());

    let mut final_checksum_data = String::new();
    final_checksum_data.append(mrz_data.passport_number.as_str());
    final_checksum_data.append(digit_text(mrz_data.passport_checksum));
    final_checksum_data.append(mrz_data.date_of_birth.as_str());
    final_checksum_data.append(digit_text(mrz_data.dob_checksum));
    final_checksum_data.append(mrz_data.expiry_date.as_str());
    final_checksum_data.append(digit_text(mrz_data.expiry_checksum));
    proof {
        assert(final_checksum_data@ == composite_text(mrz_data@));
    }
    let final_checksum = compute_checksum(final_checksum_data.as_str());

    passport_checksum == mrz_data.passport_checksum && dob_checksum == mrz_data.dob_checksum
        && expiry_checksum == mrz_data.expiry_checksum && final_checksum
        == mrz_data.final_checksum
}

/// Puts the holder's name together from a record.
pub fn assemble_name(mrz_data: &MRZData) -> (name: String)
    ensures
        name@ == full_name(mrz_data@),
{
    proof {
        reveal_strlit(" ");
    }
    let ghost names = mrz_data.given_names.deep_view();
    let mut name = String::new();
    let mut i: usize = 0;
    while i < mrz_data.given_names.len()
        invariant
            i <= mrz_data.given_names.len(),
            names == mrz_data.given_names.deep_view(),
            " "@ == seq![' '],
            name@ == joined(names.take(i as int), seq![' ']),
        decreases mrz_data.given_names.len() - i,
    {
        if i > 0 {
            name.append(" ");
        }
        name.append(mrz_data.given_names[i].as_str());
        proof {
            assert(names.take(i + 1).drop_last() == names.take(i as int));
            assert(names.take(i + 1).last() == mrz_data.given_names[i as int]@);
            if i == 0 {
                assert(Seq::<char>::empty() + names[0] == names[0]);
            }
        }
        i = i + 1;
    }
    proof {
        assert(names.take(i as int) == names);
    }
    name.append(" ");
    name.append(mrz_data.surname.as_str());
    name
}

/// Reads the machine-readable zone `mrz`, checks its four check digits and
/// returns whether they all agree, together with the holder's name.
///
/// A text that cannot be read gives an error. A text that can be read never
/// does: check digits that disagree give `false`, and the name all the same.
pub fn validate_passport(mrz: String) -> (outcome: Result<(bool, String), MrzError>)
    ensures
        verdict_view(outcome) == validation_of(mrz@),
{
    let mrz_data = match parse_mrz(mrz.as_str()) {
        Ok(mrz_data) => mrz_data,
        Err(error) => {
            return Err(error);
        },
    };
    let is_valid = validate_checksums(&mrz_data);
    let name = assemble_name(&mrz_data);
    Ok((is_valid, name))
}

} // verus!
