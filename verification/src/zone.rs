use crate::checksum::check_digit;
use crate::digits::{all_digits, digit_char, is_digit, lemma_digit_char};
use crate::extract::{
    assemble, extract, fixed_fields_of, given_names_of, has_digit_prefix, last_digit,
    lemma_assemble_extends, lemma_names_end_is, lemma_numbered_token_is, parse_fields,
};
use crate::join::{joined, lemma_joined_concat};
use crate::record::{MrzError, MrzFields};
use crate::tokenizer::{
    all_free_of, free_of, lemma_split_around, lemma_split_len, lemma_split_of_join,
    lemma_split_prefixed, split, tokens_of, FILLER,
};
use crate::validate::{
    checksums_agree, composite_text, full_name, lemma_changed_digit_disagrees,
    lemma_field_digit_decides, lemma_final_digit_decides, validation_of,
};
use vstd::prelude::*;

verus! {

/// The parts from which the two lines of a passport's zone are written.
pub struct Zone {
    /// The text before the first filler; its first character is the document
    /// type.
    pub document_type: Seq<char>,
    pub country_code: Seq<char>,
    pub surname: Seq<char>,
    pub given_names: Seq<Seq<char>>,
    /// The number of fillers that pad the first line behind the names.
    pub padding: nat,
    pub passport_number: Seq<char>,
    pub passport_checksum: nat,
    pub issuing_country: Seq<char>,
    pub date_of_birth: Seq<char>,
    pub dob_checksum: nat,
    pub gender: char,
    pub expiry_date: Seq<char>,
    pub expiry_checksum: nat,
    /// What stands between the check digit of the expiry date and the last
    /// check digit. It may hold fillers.
    pub optional_data: Seq<char>,
    pub final_checksum: nat,
}

/// A run of `count` fillers.
pub open spec fn fillers(count: nat) -> Seq<char> {
    Seq::new(count, |i: int| FILLER)
}

/// A run of `count` empty tokens.
pub open spec fn empty_tokens(count: nat) -> Seq<Seq<char>> {
    Seq::new(count, |i: int| Seq::<char>::empty())
}

/// Whether `text` has a first character and that character is no digit.
pub open spec fn begins_without_digit(text: Seq<char>) -> bool {
    text.len() > 0 && !is_digit(text[0])
}

impl Zone {
    /// What the parts of a zone must be like for the zone to be readable: the
    /// parts of the first line hold no filler and begin with something other
    /// than a digit, at least two fillers follow the names, the passport
    /// number is nine digits, the dates are six digits each, the codes have
    /// three characters, and every check digit is a single digit.
    pub open spec fn wf(self) -> bool {
        &&& begins_without_digit(self.document_type)
        &&& free_of(self.document_type, FILLER)
        &&& self.country_code.len() == 3
        &&& begins_without_digit(self.country_code)
        &&& free_of(self.country_code, FILLER)
        &&& free_of(self.surname, FILLER)
        &&& all_free_of(self.given_names, FILLER)
        &&& forall|i: int|
            0 <= i < self.given_names.len() ==> begins_without_digit(#[trigger] self.given_names[i])
        &&& self.padding >= 2
        &&& self.passport_number.len() == 9
        &&& all_digits(self.passport_number)
        &&& self.passport_checksum <= 9
        &&& self.issuing_country.len() == 3
        &&& free_of(self.issuing_country, FILLER)
        &&& self.date_of_birth.len() == 6
        &&& all_digits(self.date_of_birth)
        &&& self.dob_checksum <= 9
        &&& self.gender != FILLER
        &&& self.expiry_date.len() == 6
        &&& all_digits(self.expiry_date)
        &&& self.expiry_checksum <= 9
        &&& self.final_checksum <= 9
    }

    /// The first line: the document type, a filler, the country code, the
    /// surname, two fillers, the given names with a filler between each two,
    /// and the padding.
    pub open spec fn first_line(self) -> Seq<char> {
        self.document_type + seq![FILLER] + self.country_code + self.surname + seq![
            FILLER,
            FILLER,
        ] + joined(self.given_names, seq![FILLER]) + fillers(self.padding)
    }

    /// The 28 characters with which the second line begins.
    pub open spec fn fixed_fields(self) -> Seq<char> {
        self.passport_number + seq![digit_char(self.passport_checksum)] + self.issuing_country
            + self.date_of_birth + seq![digit_char(self.dob_checksum)] + seq![self.gender]
            + self.expiry_date + seq![digit_char(self.expiry_checksum)]
    }

    /// The second line: the fixed fields, the optional data and the last check
    /// digit.
    pub open spec fn second_line(self) -> Seq<char> {
        self.fixed_fields() + self.optional_data + seq![digit_char(self.final_checksum)]
    }

    /// The zone as text: the first line and directly behind it the second.
    pub open spec fn text(self) -> Seq<char> {
        self.first_line() + self.second_line()
    }

    /// The tokens that the first line gives without its last filler: the
    /// document type, the country code with the surname, an empty token, the
    /// given names, and the empty tokens between the fillers of the padding.
    pub open spec fn upper_tokens(self) -> Seq<Seq<char>> {
        seq![self.document_type, self.country_code + self.surname, Seq::empty()]
            + self.given_names + empty_tokens(self.gaps())
    }

    /// The number of empty tokens behind the given names. Where there is no
    /// given name, the two fillers behind the surname and the padding run
    /// together.
    pub open spec fn gaps(self) -> nat {
        if self.given_names.len() == 0 {
            self.padding
        } else {
            (self.padding - 1) as nat
        }
    }

    /// The record that the zone stands for.
    pub open spec fn fields(self) -> MrzFields {
        MrzFields {
            document_type: self.document_type[0],
            country_code: self.country_code,
            surname: self.surname,
            given_names: self.given_names,
            passport_number: self.passport_number,
            passport_checksum: self.passport_checksum,
            issuing_country: self.issuing_country,
            date_of_birth: self.date_of_birth,
            dob_checksum: self.dob_checksum,
            gender: self.gender,
            expiry_date: self.expiry_date,
            expiry_checksum: self.expiry_checksum,
            final_checksum: self.final_checksum,
        }
    }
}

/// A text that ends with a character other than the filler has a last part
/// that ends with that character.
proof fn lemma_last_part_ends(text: Seq<char>, c: char)
    requires
        c != FILLER,
    ensures
        split(text.push(c), FILLER).last().len() > 0,
        split(text.push(c), FILLER).last().last() == c,
{
    lemma_split_len(text, FILLER);
    assert(text.push(c).drop_last() == text);
}

/// Empty tokens joined by fillers are the fillers between them.
proof fn lemma_joined_empty_tokens(count: nat)
    requires
        count >= 1,
    ensures
        joined(empty_tokens(count), seq![FILLER]) == fillers((count - 1) as nat),
    decreases count,
{
    if count == 1 {
        assert(fillers(0) == Seq::<char>::empty());
    } else {
        lemma_joined_empty_tokens((count - 1) as nat);
        assert(empty_tokens(count).drop_last() == empty_tokens((count - 1) as nat));
        assert(fillers((count - 2) as nat) + seq![FILLER] + Seq::<char>::empty() == fillers(
            (count - 1) as nat,
        ));
    }
}

/// The first line is its tokens, joined by fillers, and one more filler.
proof fn lemma_first_line(zone: Zone)
    requires
        zone.wf(),
    ensures
        zone.first_line() == joined(zone.upper_tokens(), seq![FILLER]) + seq![FILLER],
{
    let filler = seq![FILLER];
    let head = seq![zone.document_type, zone.country_code + zone.surname, Seq::empty()];
    let gaps = empty_tokens(zone.gaps());
    let opening = zone.document_type + filler + zone.country_code + zone.surname + filler;
    assert(joined(head, filler) == opening) by {
        let two = seq![zone.document_type, zone.country_code + zone.surname];
        assert(head.drop_last() == two);
        assert(two.drop_last() == seq![zone.document_type]);
        assert(joined(seq![zone.document_type], filler) == zone.document_type);
        assert(joined(two, filler) == zone.document_type + filler + (zone.country_code
            + zone.surname));
        assert(joined(head, filler) == joined(two, filler) + filler + Seq::<char>::empty());
    }
    lemma_joined_empty_tokens(zone.gaps());
    assert(fillers((zone.gaps() - 1) as nat) + filler == fillers(zone.gaps()));
    if zone.given_names.len() == 0 {
        assert(head + zone.given_names == head);
        lemma_joined_concat(head, gaps, filler);
        assert(joined(zone.given_names, filler) == Seq::<char>::empty());
        assert(zone.first_line() == opening + filler + fillers(zone.padding));
        assert(joined(zone.upper_tokens(), filler) + filler == opening + filler + (fillers(
            (zone.gaps() - 1) as nat,
        ) + filler));
    } else {
        let names = joined(zone.given_names, filler);
        lemma_joined_concat(head, zone.given_names, filler);
        lemma_joined_concat(head + zone.given_names, gaps, filler);
        assert(filler + fillers(zone.gaps()) == fillers(zone.padding));
        assert(zone.first_line() == opening + filler + names + (filler + fillers(zone.gaps())));
        assert(joined(zone.upper_tokens(), filler) + filler == opening + filler + names + (filler
            + (fillers((zone.gaps() - 1) as nat) + filler)));
    }
}

/// The tokens of a zone are the tokens of its first line and then the parts of
/// its second line.
proof fn lemma_zone_tokens(zone: Zone)
    requires
        zone.wf(),
    ensures
        tokens_of(zone.text()) == zone.upper_tokens() + split(zone.second_line(), FILLER),
{
    let upper = zone.upper_tokens();
    assert(all_free_of(upper, FILLER)) by {
        assert forall|i: int| 0 <= i < upper.len() implies free_of(#[trigger] upper[i], FILLER) by {
            if 3 <= i < 3 + zone.given_names.len() {
                assert(upper[i] == zone.given_names[i - 3]);
            }
        }
    }
    lemma_first_line(zone);
    lemma_split_of_join(upper, FILLER);
    lemma_split_around(joined(upper, seq![FILLER]), zone.second_line(), FILLER);
}

/// The first part of the second line begins with the fixed fields, and its
/// last part ends with the last check digit.
proof fn lemma_lower_parts(zone: Zone)
    requires
        zone.wf(),
    ensures
        split(zone.second_line(), FILLER).len() >= 1,
        split(zone.second_line(), FILLER)[0].len() >= 28,
        split(zone.second_line(), FILLER)[0].take(28) == zone.fixed_fields(),
        last_digit(split(zone.second_line(), FILLER).last()) == Some(zone.final_checksum),
{
    let fixed = zone.fixed_fields();
    let last = digit_char(zone.final_checksum);
    let rest = zone.optional_data + seq![last];
    lemma_digit_char(zone.passport_checksum);
    lemma_digit_char(zone.dob_checksum);
    lemma_digit_char(zone.expiry_checksum);
    lemma_digit_char(zone.final_checksum);
    assert(free_of(fixed, FILLER)) by {
        assert forall|i: int| 0 <= i < fixed.len() implies #[trigger] fixed[i] != FILLER by {
            if i < 9 {
                assert(fixed[i] == zone.passport_number[i]);
            } else if 10 <= i < 13 {
                assert(fixed[i] == zone.issuing_country[i - 10]);
            } else if 13 <= i < 19 {
                assert(fixed[i] == zone.date_of_birth[i - 13]);
            } else if 21 <= i < 27 {
                assert(fixed[i] == zone.expiry_date[i - 21]);
            }
        }
    }
    assert(zone.second_line() == fixed + rest);
    assert(rest == zone.optional_data.push(last));
    let parts = split(rest, FILLER);
    lemma_split_len(rest, FILLER);
    lemma_split_prefixed(fixed, rest, FILLER);
    lemma_last_part_ends(zone.optional_data, last);
    let lower = split(zone.second_line(), FILLER);
    assert(lower[0] == fixed + parts[0]);
    assert(lower[0].take(28) == fixed);
    assert(lower.last().len() > 0 && lower.last().last() == last) by {
        if parts.len() == 1 {
            assert(lower.last() == fixed + parts[0]);
        } else {
            assert(lower.last() == parts.last());
        }
    }
}

/// A readable zone is read as the record it stands for.
pub proof fn lemma_zone_is_read(zone: Zone)
    requires
        zone.wf(),
    ensures
        parse_fields(zone.text()) == Ok::<MrzFields, MrzError>(zone.fields()),
{
    let upper = zone.upper_tokens();
    let lower = split(zone.second_line(), FILLER);
    let tokens = upper + lower;
    let names = zone.given_names.len() as int;
    let start = upper.len() as int;
    lemma_zone_tokens(zone);
    lemma_lower_parts(zone);
    lemma_digit_char(zone.passport_checksum);
    lemma_digit_char(zone.dob_checksum);
    lemma_digit_char(zone.expiry_checksum);
    assert(tokens[0] == zone.document_type);
    assert(tokens[1] == zone.country_code + zone.surname);
    assert(tokens[1].take(3) == zone.country_code);
    assert(tokens[1].skip(3) == zone.surname);
    assert(tokens[start] == lower[0]);
    assert(tokens.last() == lower.last());
    assert forall|i: int| 3 <= i < 3 + names implies tokens[i] == zone.given_names[i - 3] by {}
    assert(tokens[3 + names] == Seq::<char>::empty());

    // the given names
    assert forall|i: int| 3 <= i < 3 + names implies !all_digits(#[trigger] tokens[i]) by {
        assert(begins_without_digit(zone.given_names[i - 3]));
        assert(!is_digit(tokens[i][0]));
    }
    lemma_names_end_is(tokens, 3, 3 + names);
    assert(given_names_of(tokens) == zone.given_names);

    // the start of the fixed fields
    let fixed = zone.fixed_fields();
    assert(has_digit_prefix(tokens[start], 9)) by {
        assert(lower[0].take(9) == lower[0].take(28).take(9));
        assert(fixed.take(9) == zone.passport_number);
    }
    assert forall|i: int| 0 <= i < start implies !has_digit_prefix(#[trigger] tokens[i], 9) by {
        if has_digit_prefix(tokens[i], 9) {
            assert(is_digit(tokens[i].take(9)[0]));
            if i == 1 {
                assert(tokens[1][0] == zone.country_code[0]);
            } else if 3 <= i < 3 + names {
                assert(begins_without_digit(zone.given_names[i - 3]));
            }
        }
    }
    lemma_numbered_token_is(tokens, start);

    // the fixed fields
    let first = Seq::<char>::empty() + tokens[start];
    assert(first == tokens[start]);
    lemma_assemble_extends(tokens, start + 1, first);
    let block = fixed_fields_of(tokens, start);
    assert(block == assemble(tokens, start + 1, first));
    assert(block.take(28) == fixed) by {
        assert(block.take(first.len() as int).take(28) == block.take(28));
    }
    assert(forall|i: int| 0 <= i < 28 ==> block[i] == block.take(28)[i]);
    assert(block[9] == digit_char(zone.passport_checksum));
    assert(block[19] == digit_char(zone.dob_checksum));
    assert(block[20] == zone.gender);
    assert(block[27] == digit_char(zone.expiry_checksum));
    assert(block.subrange(0, 9) == zone.passport_number);
    assert(block.subrange(10, 13) == zone.issuing_country);
    assert(block.subrange(13, 19) == zone.date_of_birth);
    assert(block.subrange(21, 27) == zone.expiry_date);
    assert(extract(tokens) == Ok::<MrzFields, MrzError>(zone.fields()));
}

/// A readable zone is valid exactly if its four check digits agree with the
/// digits computed from its fields, and its name is its given names, joined by
/// single spaces, and then its surname.
pub proof fn lemma_zone_verdict(zone: Zone)
    requires
        zone.wf(),
    ensures
        validation_of(zone.text()) == Ok::<(bool, Seq<char>), MrzError>(
            (checksums_agree(zone.fields()), full_name(zone.fields())),
        ),
{
    lemma_zone_is_read(zone);
}

/// A readable zone whose check digits all agree is valid, and its name is its
/// given names, joined by single spaces, and then its surname.
pub proof fn lemma_consistent_zone_is_valid(zone: Zone)
    requires
        zone.wf(),
        checksums_agree(zone.fields()),
    ensures
        validation_of(zone.text()) == Ok::<(bool, Seq<char>), MrzError>(
            (true, joined(zone.given_names, seq![' ']) + seq![' '] + zone.surname),
        ),
{
    lemma_zone_verdict(zone);
}

/// A readable zone in which the check digit of the passport number, of the
/// date of birth or of the expiry date is not the digit computed from that
/// field is read, found invalid, and still gives its name.
pub proof fn lemma_wrong_field_digit_is_invalid(zone: Zone)
    requires
        zone.wf(),
        zone.passport_checksum != check_digit(zone.passport_number) || zone.dob_checksum
            != check_digit(zone.date_of_birth) || zone.expiry_checksum != check_digit(
            zone.expiry_date,
        ),
    ensures
        validation_of(zone.text()) == Ok::<(bool, Seq<char>), MrzError>(
            (false, full_name(zone.fields())),
        ),
{
    lemma_zone_verdict(zone);
    lemma_field_digit_decides(zone.fields());
}

/// Changing one check digit of a valid zone makes it invalid and leaves its
/// name as it is. `changed` is `zone` with another digit in place of one of
/// the check digits of the passport number, the date of birth and the expiry
/// date.
pub proof fn lemma_changed_zone_is_invalid(zone: Zone, changed: Zone)
    requires
        zone.wf(),
        checksums_agree(zone.fields()),
        changed.passport_checksum <= 9,
        changed.dob_checksum <= 9,
        changed.expiry_checksum <= 9,
        changed == (Zone { passport_checksum: changed.passport_checksum, ..zone }) || changed == (
            Zone { dob_checksum: changed.dob_checksum, ..zone }
        ) || changed == (Zone { expiry_checksum: changed.expiry_checksum, ..zone }),
        changed != zone,
    ensures
        validation_of(zone.text()) == Ok::<(bool, Seq<char>), MrzError>(
            (true, full_name(zone.fields())),
        ),
        validation_of(changed.text()) == Ok::<(bool, Seq<char>), MrzError>(
            (false, full_name(zone.fields())),
        ),
{
    lemma_zone_verdict(zone);
    lemma_zone_verdict(changed);
    lemma_changed_digit_disagrees(zone.fields(), changed.fields());
}

/// A readable zone whose first three check digits are right and whose last one
/// is not the digit computed over the composite text is read, found invalid,
/// and still gives its name.
pub proof fn lemma_wrong_final_digit_is_invalid(zone: Zone)
    requires
        zone.wf(),
        zone.passport_checksum == check_digit(zone.passport_number),
        zone.dob_checksum == check_digit(zone.date_of_birth),
        zone.expiry_checksum == check_digit(zone.expiry_date),
        zone.final_checksum != check_digit(composite_text(zone.fields())),
    ensures
        validation_of(zone.text()) == Ok::<(bool, Seq<char>), MrzError>(
            (false, full_name(zone.fields())),
        ),
{
    lemma_zone_verdict(zone);
    lemma_final_digit_decides(zone.fields());
}

} // verus!
