use crate::digits::{all_digits, digit_value, is_all_digits, is_digit, parse_digit};
use crate::record::{MRZData, MrzError, MrzFields};
use crate::tokenizer::{lemma_split_len, occurrences, tokenize, tokens_of, FILLER};
use vstd::prelude::*;
use vstd::string::StringExecFns;

verus! {

/// The index of the token at which the given names begin.
pub const NAMES_START: usize = 3;

/// The width of a passport number.
pub const NUMBER_WIDTH: usize = 9;

/// The length at which the fixed fields stop taking in further tokens.
pub const FIXED_FIELDS_WIDTH: usize = 44;

/// The length that the fixed fields must have to hold every field up to the
/// check digit of the expiry date.
pub const FIXED_FIELDS_MIN: usize = 28;

/// Whether `text` begins with `width` decimal digits.
pub open spec fn has_digit_prefix(text: Seq<char>, width: int) -> bool {
    text.len() >= width && all_digits(text.take(width))
}

/// The index of the first token at or after `from` that is made of digits
/// alone, or the number of tokens where there is none. An empty token is made
/// of digits alone.
pub open spec fn names_end(tokens: Seq<Seq<char>>, from: int) -> int
    decreases tokens.len() - from,
{
    if from >= tokens.len() || all_digits(tokens[from]) {
        from
    } else {
        names_end(tokens, from + 1)
    }
}

/// The given names: the tokens from the fourth on, up to and without the first
/// that is made of digits alone.
pub open spec fn given_names_of(tokens: Seq<Seq<char>>) -> Seq<Seq<char>> {
    if tokens.len() <= NAMES_START {
        Seq::empty()
    } else {
        tokens.subrange(NAMES_START as int, names_end(tokens, NAMES_START as int))
    }
}

/// The index of the first token at or after `from` that begins with the nine
/// digits of a passport number, if there is one.
pub open spec fn numbered_token(tokens: Seq<Seq<char>>, from: int) -> Option<int>
    decreases tokens.len() - from,
{
    if from >= tokens.len() {
        None
    } else if has_digit_prefix(tokens[from], NUMBER_WIDTH as int) {
        Some(from)
    } else {
        numbered_token(tokens, from + 1)
    }
}

/// What `block` becomes when the tokens from index `from` on are appended to
/// it one by one, until it holds at least 44 characters or the tokens run out.
pub open spec fn assemble(tokens: Seq<Seq<char>>, from: int, block: Seq<char>) -> Seq<char>
    decreases tokens.len() - from,
{
    if block.len() >= FIXED_FIELDS_WIDTH || from >= tokens.len() {
        block
    } else {
        assemble(tokens, from + 1, block + tokens[from])
    }
}

/// The fixed fields: the tokens from index `start` on, concatenated until at
/// least 44 characters have come together.
pub open spec fn fixed_fields_of(tokens: Seq<Seq<char>>, start: int) -> Seq<char> {
    assemble(tokens, start, Seq::empty())
}

/// The number of the last decimal digit in `text`, if it holds one.
pub open spec fn last_digit(text: Seq<char>) -> Option<nat>
    decreases text.len(),
{
    if text.len() == 0 {
        None
    } else if is_digit(text.last()) {
        Some(digit_value(text.last()))
    } else {
        last_digit(text.drop_last())
    }
}

/// The record that the fixed fields `block` and the other parts give, or the
/// first thing that is wrong with the fixed fields.
pub open spec fn slice_fixed_fields(
    block: Seq<char>,
    document_type: char,
    country_code: Seq<char>,
    surname: Seq<char>,
    given_names: Seq<Seq<char>>,
    final_checksum: Option<nat>,
) -> Result<MrzFields, MrzError> {
    if block.len() < FIXED_FIELDS_MIN {
        Err(MrzError::TruncatedFixedFields)
    } else if !is_digit(block[9]) {
        Err(MrzError::InvalidPassportChecksum)
    } else if !all_digits(block.subrange(13, 19)) {
        Err(MrzError::InvalidDateOfBirth)
    } else if !is_digit(block[19]) {
        Err(MrzError::InvalidDobChecksum)
    } else if !all_digits(block.subrange(21, 27)) {
        Err(MrzError::InvalidExpiryDate)
    } else if !is_digit(block[27]) {
        Err(MrzError::InvalidExpiryChecksum)
    } else if final_checksum is None {
        Err(MrzError::MissingFinalChecksum)
    } else {
        Ok(
            MrzFields {
                document_type,
                country_code,
                surname,
                given_names,
                passport_number: block.subrange(0, 9),
                passport_checksum: digit_value(block[9]),
                issuing_country: block.subrange(10, 13),
                date_of_birth: block.subrange(13, 19),
                dob_checksum: digit_value(block[19]),
                gender: block[20],
                expiry_date: block.subrange(21, 27),
                expiry_checksum: digit_value(block[27]),
                final_checksum: final_checksum->0,
            },
        )
    }
}

/// The record that a sequence of tokens gives, or the first thing that is
/// wrong with it.
///
/// The document type is the first character of the first token. The second
/// token holds the country code in its first three characters and the surname
/// in the rest. The fixed fields begin at the first token that starts with nine
/// digits; without such a token there is no record. The last check digit is
/// the last digit of the last token.
pub open spec fn extract(tokens: Seq<Seq<char>>) -> Result<MrzFields, MrzError> {
    if tokens.len() <= NAMES_START {
        Err(MrzError::TooFewTokens)
    } else if tokens[0].len() == 0 {
        Err(MrzError::MissingDocumentType)
    } else if tokens[1].len() < 3 {
        Err(MrzError::MissingCountryCode)
    } else {
        match numbered_token(tokens, 0) {
            None => Err(MrzError::MissingFixedFields),
            Some(start) => slice_fixed_fields(
                fixed_fields_of(tokens, start),
                tokens[0][0],
                tokens[1].take(3),
                tokens[1].skip(3),
                given_names_of(tokens),
                last_digit(tokens.last()),
            ),
        }
    }
}

/// The record that a text gives, or the reason why it gives none.
pub open spec fn parse_fields(text: Seq<char>) -> Result<MrzFields, MrzError> {
    extract(tokens_of(text))
}

/// The model of what `parse_mrz` returns.
pub open spec fn outcome_view(outcome: Result<MRZData, MrzError>) -> Result<MrzFields, MrzError> {
    match outcome {
        Ok(data) => Ok(data@),
        Err(error) => Err(error),
    }
}

/// The token that `numbered_token` finds begins with nine digits, and no token
/// between `from` and it does; where it finds none, no token from `from` on
/// does.
pub proof fn lemma_numbered_token(tokens: Seq<Seq<char>>, from: int)
    requires
        0 <= from,
    ensures
        match numbered_token(tokens, from) {
            Some(start) => {
                &&& from <= start < tokens.len()
                &&& has_digit_prefix(tokens[start], NUMBER_WIDTH as int)
                &&& forall|i: int|
                    from <= i < start ==> !has_digit_prefix(
                        #[trigger] tokens[i],
                        NUMBER_WIDTH as int,
                    )
            },
            None => forall|i: int|
                from <= i < tokens.len() ==> !has_digit_prefix(
                    #[trigger] tokens[i],
                    NUMBER_WIDTH as int,
                ),
        },
    decreases tokens.len() - from,
{
    if from < tokens.len() && !has_digit_prefix(tokens[from], NUMBER_WIDTH as int) {
        lemma_numbered_token(tokens, from + 1);
    }
}

/// The given names end at the first token from `from` on that is made of
/// digits alone, or with the last token.
pub proof fn lemma_names_end(tokens: Seq<Seq<char>>, from: int)
    requires
        0 <= from <= tokens.len(),
    ensures
        from <= names_end(tokens, from) <= tokens.len(),
        forall|i: int| from <= i < names_end(tokens, from) ==> !all_digits(#[trigger] tokens[i]),
        names_end(tokens, from) < tokens.len() ==> all_digits(tokens[names_end(tokens, from)]),
    decreases tokens.len() - from,
{
    if from < tokens.len() && !all_digits(tokens[from]) {
        lemma_names_end(tokens, from + 1);
    }
}

/// A token that begins with nine digits, with no such token before it, is the
/// one at which the fixed fields begin.
pub proof fn lemma_numbered_token_is(tokens: Seq<Seq<char>>, start: int)
    requires
        0 <= start < tokens.len(),
        has_digit_prefix(tokens[start], NUMBER_WIDTH as int),
        forall|i: int|
            0 <= i < start ==> !has_digit_prefix(#[trigger] tokens[i], NUMBER_WIDTH as int),
    ensures
        numbered_token(tokens, 0) == Some(start),
{
    lemma_numbered_token(tokens, 0);
}

/// The given names end at `end` where no token between `from` and `end` is
/// made of digits alone and the token at `end`, if there is one, is.
pub proof fn lemma_names_end_is(tokens: Seq<Seq<char>>, from: int, end: int)
    requires
        0 <= from <= end <= tokens.len(),
        forall|i: int| from <= i < end ==> !all_digits(#[trigger] tokens[i]),
        end < tokens.len() ==> all_digits(tokens[end]),
    ensures
        names_end(tokens, from) == end,
{
    lemma_names_end(tokens, from);
}

/// Assembling keeps what the block already holds and only appends to it.
pub proof fn lemma_assemble_extends(tokens: Seq<Seq<char>>, from: int, block: Seq<char>)
    requires
        0 <= from,
    ensures
        assemble(tokens, from, block).len() >= block.len(),
        assemble(tokens, from, block).take(block.len() as int) == block,
    decreases tokens.len() - from,
{
    if block.len() >= FIXED_FIELDS_WIDTH || from >= tokens.len() {
        assert(block.take(block.len() as int) == block);
    } else {
        let longer = block + tokens[from];
        lemma_assemble_extends(tokens, from + 1, longer);
        let whole = assemble(tokens, from + 1, longer);
        assert(whole.take(block.len() as int) == whole.take(longer.len() as int).take(
            block.len() as int,
        ));
        assert(longer.take(block.len() as int) == block);
    }
}

/// The last digit of a text is a single decimal digit.
pub proof fn lemma_last_digit_small(text: Seq<char>)
    ensures
        last_digit(text) is Some ==> last_digit(text)->0 <= 9,
    decreases text.len(),
{
    if text.len() > 0 && !is_digit(text.last()) {
        lemma_last_digit_small(text.drop_last());
    }
}

/// Every record that is read from tokens keeps the invariant of a record, and
/// its passport number is made of nine digits.
pub proof fn lemma_extract_well_formed(tokens: Seq<Seq<char>>)
    ensures
        extract(tokens) is Ok ==> extract(tokens)->Ok_0.wf() && all_digits(
            extract(tokens)->Ok_0.passport_number,
        ),
{
    if extract(tokens) is Ok {
        lemma_numbered_token(tokens, 0);
        lemma_last_digit_small(tokens.last());
        let start = numbered_token(tokens, 0)->0;
        let block = fixed_fields_of(tokens, start);
        let first = Seq::<char>::empty() + tokens[start];
        assert(first == tokens[start]);
        lemma_assemble_extends(tokens, start + 1, first);
        assert(block.subrange(0, 9) == tokens[start].take(9)) by {
            assert(block.take(first.len() as int).take(9) == block.subrange(0, 9));
        }
    }
}

/// A text with fewer than three fillers has fewer than four tokens and gives
/// no record.
pub proof fn lemma_few_fillers_fail(text: Seq<char>)
    requires
        occurrences(text, FILLER) < 3,
    ensures
        parse_fields(text) == Err::<MrzFields, MrzError>(MrzError::TooFewTokens),
{
    lemma_split_len(text, FILLER);
}

/// A record is read only from a text that has at least four tokens, a token
/// that begins with nine digits, fixed fields of at least 28 characters with a
/// digit in each of the three places of a check digit, and a digit in its last
/// token. Any other text gives an error.
pub proof fn lemma_record_needs_digits(text: Seq<char>)
    requires
        parse_fields(text) is Ok,
    ensures
        tokens_of(text).len() >= 4,
        numbered_token(tokens_of(text), 0) is Some,
        ({
            let tokens = tokens_of(text);
            let block = fixed_fields_of(tokens, numbered_token(tokens, 0)->0);
            &&& block.len() >= FIXED_FIELDS_MIN
            &&& is_digit(block[9])
            &&& is_digit(block[19])
            &&& is_digit(block[27])
            &&& last_digit(tokens.last()) is Some
        }),
{
}

/// Tells whether `text` begins with the nine digits of a passport number.
pub fn starts_with_number(text: &str) -> (answer: bool)
    ensures
        answer == has_digit_prefix(text@, NUMBER_WIDTH as int),
{
    text.unicode_len() >= NUMBER_WIDTH && is_all_digits(text.substring_char(0, NUMBER_WIDTH))
}

/// Finds the token at which the fixed fields begin.
pub fn find_fixed_fields(parts: &Vec<&str>) -> (found: Option<usize>)
    ensures
        match found {
            Some(start) => numbered_token(parts.deep_view(), 0) == Some(start as int),
            None => numbered_token(parts.deep_view(), 0) is None,
        },
        found is Some ==> found->0 < parts.len(),
{
    let mut i: usize = 0;
    while i < parts.len()
        invariant
            i <= parts.len(),
            numbered_token(parts.deep_view(), 0) == numbered_token(parts.deep_view(), i as int),
        decreases parts.len() - i,
    {
        if starts_with_number(parts[i]) {
            return Some(i);
        }
        i = i + 1;
    }
    None
}

/// Collects the given names from the tokens.
pub fn collect_given_names(parts: &Vec<&str>) -> (names: Vec<String>)
    ensures
        names.deep_view() == given_names_of(parts.deep_view()),
{
    let ghost tokens = parts.deep_view();
    let mut names: Vec<String> = Vec::new();
    let mut i: usize = NAMES_START;
    while i < parts.len() && !is_all_digits(parts[i])
        invariant
            tokens == parts.deep_view(),
            NAMES_START <= i,
            parts.len() >= NAMES_START ==> i <= parts.len(),
            names_end(tokens, NAMES_START as int) == names_end(tokens, i as int),
            i <= parts.len() ==> names.deep_view() == tokens.subrange(NAMES_START as int, i as int),
            i > parts.len() ==> names.deep_view() == Seq::<Seq<char>>::empty(),
        decreases parts.len() - i,
    {
        let ghost before = names.deep_view();
        names.push(parts[i].to_owned());
        assert(names.deep_view() == before.push(tokens[i as int]));
        i = i + 1;
    }
    proof {
        if i < parts.len() {
            assert(tokens[i as int] == parts[i as int]@);
            assert(all_digits(tokens[i as int]));
        }
        assert(names_end(tokens, i as int) == i);
        if tokens.len() <= NAMES_START {
            assert(names.deep_view() =~= Seq::<Seq<char>>::empty());
        }
    }
    names
}

/// Puts the fixed fields together from the tokens that begin at `start`.
pub fn assemble_fixed_fields(parts: &Vec<&str>, start: usize) -> (block: String)
    ensures
        block@ == fixed_fields_of(parts.deep_view(), start as int),
{
    let ghost tokens = parts.deep_view();
    let mut block = String::new();
    let mut length: usize = 0;
    let mut current: usize = start;
    while length < FIXED_FIELDS_WIDTH && current < parts.len()
        invariant
            tokens == parts.deep_view(),
            length == block@.len(),
            fixed_fields_of(tokens, start as int) == assemble(tokens, current as int, block@),
        decreases parts.len() - current,
    {
        block.append(parts[current]);
        length = block.as_str().unicode_len();
        current = current + 1;
    }
    block
}

/// Finds the last decimal digit in `text`.
pub fn last_digit_of(text: &str) -> (found: Option<u32>)
    ensures
        match found {
            Some(digit) => last_digit(text@) == Some(digit as nat),
            None => last_digit(text@) is None,
        },
        found is Some ==> found->0 <= 9,
{
    let mut found: Option<u32> = None;
    for c in it: text.chars()
        invariant
            it.seq() == text@,
            match found {
                Some(digit) => last_digit(text@.take(it.index() as int)) == Some(digit as nat),
                None => last_digit(text@.take(it.index() as int)) is None,
            },
            found is Some ==> found->0 <= 9,
    {
        proof {
            assert(text@.take(it.index() + 1).drop_last() == text@.take(it.index() as int));
        }
        match parse_digit(c) {
            Some(digit) => {
                found = Some(digit);
            },
            None => {},
        }
    }
    proof {
        assert(text@.take(text@.len() as int) == text@);
    }
    found
}

/// Reads the machine-readable zone `mrz` into a record.
///
/// The text is split on the filler and the fields are taken from the tokens.
/// A text that lacks a required token, field or check digit gives the error
/// that names what is wrong, never a record with a made-up field. Widths and
/// offsets count characters, whatever their length in bytes.
pub fn parse_mrz(mrz: &str) -> (outcome: Result<MRZData, MrzError>)
    ensures
        outcome_view(outcome) == parse_fields(mrz@),
        outcome is Ok ==> outcome->Ok_0@.wf(),
{
    proof {
        lemma_extract_well_formed(tokens_of(mrz@));
    }
    let parts = tokenize(mrz);
    let ghost tokens = parts.deep_view();
    if parts.len() <= NAMES_START {
        return Err(MrzError::TooFewTokens);
    }
    proof {
        assert(tokens[0] == parts[0]@);
        assert(tokens[1] == parts[1]@);
        assert(tokens.last() == parts[parts.len() - 1]@);
    }
    if parts[0].is_empty() {
        return Err(MrzError::MissingDocumentType);
    }
    let document_type = parts[0].get_char(0);

    let second_length: usize = parts[1].unicode_len();
    if second_length < 3 {
        return Err(MrzError::MissingCountryCode);
    }
    let country_code = parts[1].substring_char(0, 3).to_owned();
    let surname = parts[1].substring_char(3, second_length).to_owned();
    let given_names = collect_given_names(&parts);

    let start: usize = match find_fixed_fields(&parts) {
        Some(start) => start,
        None => {
            return Err(MrzError::MissingFixedFields);
        },
    };
    let fixed_fields = assemble_fixed_fields(&parts, start);
    let block = fixed_fields.as_str();
    if block.unicode_len() < FIXED_FIELDS_MIN {
        return Err(MrzError::TruncatedFixedFields);
    }
    let passport_number = block.substring_char(0, 9).to_owned();
    let passport_checksum: u32 = match parse_digit(block.get_char(9)) {
        Some(digit) => digit,
        None => {
            return Err(MrzError::InvalidPassportChecksum);
        },
    };
    let issuing_country = block.substring_char(10, 13).to_owned();
    let date_of_birth = block.substring_char(13, 19);
    if !is_all_digits(date_of_birth) {
        return Err(MrzError::InvalidDateOfBirth);
    }
    let dob_checksum: u32 = match parse_digit(block.get_char(19)) {
        Some(digit) => digit,
        None => {
            return Err(MrzError::InvalidDobChecksum);
        },
    };
    let gender = block.get_char(20);
    let expiry_date = block.substring_char(21, 27);
    if !is_all_digits(expiry_date) {
        return Err(MrzError::InvalidExpiryDate);
    }
    let expiry_checksum: u32 = match parse_digit(block.get_char(27)) {
        Some(digit) => digit,
        None => {
            return Err(MrzError::InvalidExpiryChecksum);
        },
    };
    let final_checksum: u32 = match last_digit_of(parts[parts.len() - 1]) {
        Some(digit) => digit,
        None => {
            return Err(MrzError::MissingFinalChecksum);
        },
    };

    Ok(
        MRZData {
            document_type,
            country_code,
            surname,
            given_names,
            passport_number,
            passport_checksum,
            issuing_country,
            date_of_birth: date_of_birth.to_owned(),
            dob_checksum,
            gender,
            expiry_date: expiry_date.to_owned(),
            expiry_checksum,
            final_checksum,
        },
    )
}

} // verus!
