use json_gen::config::{
    marker_of, outputs_of, parse_number, repeat_of, template_source, Destination, TemplateSource,
};
use json_gen::error::GenErrorType;

#[test]
fn one_document_where_no_count_is_given() {
    assert_eq!(repeat_of(None).unwrap(), 1);
}

#[test]
fn the_count_is_a_decimal_number() {
    assert_eq!(repeat_of(Some("5")).unwrap(), 5);
    assert_eq!(repeat_of(Some("0")).unwrap(), 0);
    assert_eq!(repeat_of(Some("+7")).unwrap(), 7);
    assert_eq!(repeat_of(Some("007")).unwrap(), 7);
    assert_eq!(repeat_of(Some("4294967295")).unwrap(), u32::MAX);
}

#[test]
fn what_is_no_count_is_refused() {
    for text in ["", "+", "-1", "abc", "1.5", " 1", "1 ", "4294967296", "99999999999999999999999", "++1"] {
        let e = repeat_of(Some(text)).unwrap_err();
        assert_eq!(e.tpe(), GenErrorType::Common);
        assert_eq!(
            e.reason(),
            format!("the repetition number should be a non-negative integer, but it is '{}'", text)
        );
        assert_eq!(parse_number(text), None);
        assert!(text.parse::<u32>().is_err());
    }
}

#[test]
fn numbers_are_read_as_the_standard_library_reads_them() {
    for text in ["0", "1", "+1", "0010", "4294967295", "+4294967295", "12345"] {
        assert_eq!(parse_number(text), text.parse::<u32>().ok());
    }
}

#[test]
fn the_inline_template_goes_before_the_file() {
    assert_eq!(
        template_source(Some("{}".to_string()), Some("t.json".to_string())).unwrap(),
        TemplateSource::Inline("{}".to_string())
    );
    assert_eq!(
        template_source(Some("{}".to_string()), None).unwrap(),
        TemplateSource::Inline("{}".to_string())
    );
    assert_eq!(
        template_source(None, Some("t.json".to_string())).unwrap(),
        TemplateSource::File("t.json".to_string())
    );
}

#[test]
fn a_run_without_a_template_is_refused() {
    let e = template_source(None, None).unwrap_err();
    assert_eq!(e.tpe(), GenErrorType::Common);
    assert_eq!(
        e.reason(),
        "the input file or body containing the json template should be provided!"
    );
}

#[test]
fn the_marker_is_a_bar_unless_given() {
    assert_eq!(marker_of(None), "|");
    assert_eq!(marker_of(Some("@".to_string())), "@");
    assert_eq!(marker_of(Some("".to_string())), "");
}

#[test]
fn the_console_is_the_destination_where_none_is_given() {
    assert_eq!(outputs_of(None, None, None, false), vec![Destination::Console]);
    assert_eq!(outputs_of(None, None, None, true), vec![Destination::Console]);
}

#[test]
fn destinations_keep_their_order() {
    assert_eq!(
        outputs_of(
            Some("f".to_string()),
            Some("d".to_string()),
            Some("-X POST".to_string()),
            true
        ),
        vec![
            Destination::File("f".to_string()),
            Destination::Folder("d".to_string()),
            Destination::Curl("-X POST".to_string()),
            Destination::Console,
        ]
    );
    assert_eq!(
        outputs_of(None, Some("d".to_string()), None, false),
        vec![Destination::Folder("d".to_string())]
    );
}
