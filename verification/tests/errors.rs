use json_gen::error::{GenError, GenErrorType};
use json_gen::text::{chars_of, decimal, starts_with, text_of};

#[test]
fn each_constructor_sets_its_stage() {
    assert_eq!(GenError::new_with("a").tpe(), GenErrorType::Common);
    assert_eq!(GenError::new_with_in_parser("a").tpe(), GenErrorType::Parser);
    assert_eq!(GenError::new_with_in_sender("a").tpe(), GenErrorType::Sender);
    assert_eq!(GenError::new_with_in_generator("a").tpe(), GenErrorType::Generator);
}

#[test]
fn the_reason_is_kept() {
    assert_eq!(GenError::new_with("no file").reason(), "no file");
    assert_eq!(GenError::new_with_in_parser("").reason(), "");
}

#[test]
fn a_failure_reads_as_one_line() {
    assert_eq!(
        GenError::new_with_in_parser("boom").describe(),
        "error while parsing a generator func, reason: boom and type: Parser"
    );
    assert_eq!(
        GenError::new_with_in_sender("boom").describe(),
        "error while parsing a generator func, reason: boom and type: Sender"
    );
    assert_eq!(
        GenError::new_with_in_generator("boom").describe(),
        "error while parsing a generator func, reason: boom and type: Generator"
    );
    assert_eq!(
        GenError::new_with("boom").describe(),
        "error while parsing a generator func, reason: boom and type: Common"
    );
}

#[test]
fn decimal_numerals() {
    assert_eq!(decimal(0), "0");
    assert_eq!(decimal(7), "7");
    assert_eq!(decimal(10), "10");
    assert_eq!(decimal(1905), "1905");
    assert_eq!(decimal(u64::MAX), "18446744073709551615");
}

#[test]
fn characters_of_a_text() {
    assert_eq!(chars_of("aé|"), vec!['a', 'é', '|']);
    assert_eq!(chars_of(""), Vec::<char>::new());
    let chars = chars_of("hello");
    assert_eq!(text_of(&chars, 1, 4), "ell");
    assert_eq!(text_of(&chars, 2, 2), "");
}

#[test]
fn prefixes() {
    assert!(starts_with(&chars_of("|id"), &chars_of("|")));
    assert!(starts_with(&chars_of("|id"), &chars_of("")));
    assert!(starts_with(&chars_of("@@id"), &chars_of("@@")));
    assert!(!starts_with(&chars_of("id"), &chars_of("|")));
    assert!(!starts_with(&chars_of("|"), &chars_of("|id")));
}

#[test]
fn a_bare_complaint_becomes_a_common_failure() {
    let e = GenError::from("no luck".to_string());
    assert_eq!(e.tpe(), GenErrorType::Common);
    assert_eq!(e.reason(), "error: no luck");
    let e: GenError = String::new().into();
    assert_eq!(e.reason(), "error: ");
}
