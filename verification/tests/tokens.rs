use passport_lib::tokenize;

#[test]
fn splits_on_every_filler() {
    assert_eq!(tokenize("P<UTOERIKSSON<<ANNA<MARIA"), vec!["P", "UTOERIKSSON", "", "ANNA", "MARIA"]);
}

#[test]
fn empty_text_is_one_empty_token() {
    assert_eq!(tokenize(""), vec![""]);
}

#[test]
fn text_without_filler_is_one_token() {
    assert_eq!(tokenize("ERIKSSON"), vec!["ERIKSSON"]);
}

#[test]
fn fillers_in_a_row_give_empty_tokens() {
    assert_eq!(tokenize("A<<<B"), vec!["A", "", "", "B"]);
    assert_eq!(tokenize("<<"), vec!["", "", ""]);
}

#[test]
fn filler_at_either_end_gives_an_empty_token() {
    assert_eq!(tokenize("<A"), vec!["", "A"]);
    assert_eq!(tokenize("A<"), vec!["A", ""]);
    assert_eq!(tokenize("<"), vec!["", ""]);
}

#[test]
fn tokens_are_neither_trimmed_nor_folded() {
    assert_eq!(tokenize(" a <B b< "), vec![" a ", "B b", " "]);
    assert_eq!(tokenize("Zoë<MÜLLER"), vec!["Zoë", "MÜLLER"]);
    assert_eq!(tokenize("A\nB<C"), vec!["A\nB", "C"]);
}

#[test]
fn one_token_more_than_fillers() {
    let text = "P<UTOERIKSSON<<ANNA<MARIA<<<<<<<<<<<<<<<<<<<";
    let fillers = text.chars().filter(|c| *c == '<').count();
    assert_eq!(fillers, 23);
    assert_eq!(tokenize(text).len(), 24);
}

#[test]
fn tokens_joined_by_the_filler_are_the_text() {
    let text = "P<UTOERIKSSON<<ANNA<MARIA<<<<1234567897UTO7408122F1204159ZE184226B<<<<<16";
    assert_eq!(tokenize(text).join("<"), text);
    let parts = vec!["", "AB", "", "", "C", ""];
    assert_eq!(tokenize(&parts.join("<")), parts);
}
