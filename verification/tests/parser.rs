use json_gen::call::{Argument, Call};
use json_gen::error::GenErrorType;
use json_gen::json::Json;
use json_gen::parser::parse_call;

fn failure(text: &str) -> (GenErrorType, String) {
    match parse_call(text) {
        Ok(call) => panic!("{:?} parsed as {:?}", text, call),
        Err(e) => (e.tpe(), e.reason().to_string()),
    }
}

fn message(text: &str, expected: &str, at: usize) -> String {
    format!("cannot parse the generator call '{}': expected {} at position {}", text, expected, at)
}

#[test]
fn parses_a_call_without_arguments() {
    let call = parse_call("uuid()").unwrap();
    assert_eq!(call, Call { name: "uuid".to_string(), args: vec![] });
}

#[test]
fn spaces_inside_the_parentheses_are_no_argument() {
    let call = parse_call("uuid( )").unwrap();
    assert_eq!(call.name, "uuid");
    assert_eq!(call.args.len(), 0);
}

#[test]
fn spaces_around_the_call_are_skipped() {
    let call = parse_call(" \t\r\n uuid \n ( \t ) \n").unwrap();
    assert_eq!(call, Call { name: "uuid".to_string(), args: vec![] });
}

#[test]
fn trailing_text_is_refused() {
    let (tpe, reason) = failure("uuid() extra");
    assert_eq!(tpe, GenErrorType::Parser);
    assert_eq!(reason, message("uuid() extra", "the end of the call", 7));
}

#[test]
fn a_second_call_behind_the_first_is_refused() {
    let (tpe, reason) = failure("uuid()uuid()");
    assert_eq!(tpe, GenErrorType::Parser);
    assert_eq!(reason, message("uuid()uuid()", "the end of the call", 6));
}

#[test]
fn parses_every_kind_of_literal() {
    let call = parse_call("choice(\"a b\", 12, -2.5e+3, true, false, null)").unwrap();
    assert_eq!(call.name, "choice");
    assert_eq!(
        call.args,
        vec![
            Argument::Literal(Json::Text("a b".to_string())),
            Argument::Literal(Json::Number("12".to_string())),
            Argument::Literal(Json::Number("-2.5e+3".to_string())),
            Argument::Literal(Json::Bool(true)),
            Argument::Literal(Json::Bool(false)),
            Argument::Literal(Json::Null),
        ]
    );
}

#[test]
fn parses_nested_calls() {
    let call = parse_call("outer( inner ( uuid() , 1 ) , \"x\" )").unwrap();
    let uuid = Call { name: "uuid".to_string(), args: vec![] };
    let inner = Call {
        name: "inner".to_string(),
        args: vec![Argument::Nested(uuid), Argument::Literal(Json::Number("1".to_string()))],
    };
    assert_eq!(
        call,
        Call {
            name: "outer".to_string(),
            args: vec![Argument::Nested(inner), Argument::Literal(Json::Text("x".to_string()))],
        }
    );
}

#[test]
fn resolves_the_escapes_of_a_string() {
    let call = parse_call(r#"f("q\" b\\ s\/ \b\f\n\r\t é")"#).unwrap();
    assert_eq!(
        call.args,
        vec![Argument::Literal(Json::Text("q\" b\\ s/ \u{8}\u{c}\n\r\t é".to_string()))]
    );
}

#[test]
fn a_string_may_hold_parentheses_and_commas() {
    let call = parse_call(r#"f("a,b)", "(")"#).unwrap();
    assert_eq!(
        call.args,
        vec![
            Argument::Literal(Json::Text("a,b)".to_string())),
            Argument::Literal(Json::Text("(".to_string())),
        ]
    );
}

#[test]
fn an_unknown_function_parses() {
    let call = parse_call("frobnicate()").unwrap();
    assert_eq!(call.name, "frobnicate");
}

#[test]
fn names_hold_letters_digits_and_underscores() {
    let call = parse_call("_rand_2x(1)").unwrap();
    assert_eq!(call.name, "_rand_2x");
    assert_eq!(parse_call("true()").unwrap().name, "true");
}

#[test]
fn each_grammar_violation_is_reported_with_its_place() {
    let cases: Vec<(&str, &str, usize)> = vec![
        ("", "a function name", 0),
        ("   ", "a function name", 3),
        ("1f()", "a function name", 0),
        ("f", "'('", 1),
        ("f x()", "'('", 2),
        ("f(", "an argument", 2),
        ("f(,)", "an argument", 2),
        ("f(1,)", "an argument", 4),
        ("f(1, )", "an argument", 5),
        ("f(#)", "an argument", 2),
        ("f(1", "',' or ')'", 3),
        ("f(1 2)", "',' or ')'", 4),
        ("f(01)", "',' or ')'", 3),
        ("f(\"abc", "a closing '\"'", 6),
        ("f(\"a\\x\")", "an escape character", 5),
        ("f(\"a\\", "an escape character", 5),
        ("f(-)", "a digit", 3),
        ("f(1.)", "a digit", 4),
        ("f(1e)", "a digit", 4),
        ("f(1e+)", "a digit", 5),
        ("f(tru)", "'('", 5),
        ("f(nul l)", "'('", 6),
        ("f())", "the end of the call", 3),
    ];
    for (text, expected, at) in cases {
        let (tpe, reason) = failure(text);
        assert_eq!(tpe, GenErrorType::Parser, "{:?}", text);
        assert_eq!(reason, message(text, expected, at), "{:?}", text);
    }
}

#[test]
fn places_count_characters_not_bytes() {
    let (_, reason) = failure("f(\"é\" x)");
    assert_eq!(reason, message("f(\"é\" x)", "',' or ')'", 6));
}

#[test]
fn numbers_are_kept_as_written() {
    let call = parse_call("f(0, -0, 10, 0.5, 1E5, 2e-7, 123456789012345678901234567890)").unwrap();
    let texts: Vec<String> = call
        .args
        .iter()
        .map(|arg| match arg {
            Argument::Literal(Json::Number(text)) => text.clone(),
            other => panic!("{:?}", other),
        })
        .collect();
    assert_eq!(
        texts,
        vec!["0", "-0", "10", "0.5", "1E5", "2e-7", "123456789012345678901234567890"]
    );
}

#[test]
fn a_copy_of_a_call_equals_it() {
    let call = parse_call("a(b(1, \"x\"), null)").unwrap();
    assert_eq!(call.duplicate(), call);
    assert_eq!(call.clone(), call);
}

#[test]
fn a_call_is_written_without_spaces() {
    let call = parse_call("  outer( inner ( uuid() , 1 ) , \"x\\\"y\\\\\" , null,true ,false, -2.5e+3 )").unwrap();
    assert_eq!(
        json_gen::printing::write_call(&call),
        "outer(inner(uuid(),1),\"x\\\"y\\\\\",null,true,false,-2.5e+3)"
    );
    assert_eq!(json_gen::printing::write_call(&parse_call("uuid ( )").unwrap()), "uuid()");
}

#[test]
fn what_is_written_is_read_back() {
    for text in [
        "uuid()",
        "choice(1, 2, 3)",
        "a(b(c(d(\"deep\"))), e())",
        "f(\"line\\nbreak\\ttab \\\" quote \\\\ slash \\/ é\")",
        "int(-0, 1E5)",
        "true(false(null))",
    ] {
        let call = parse_call(text).unwrap();
        let written = json_gen::printing::write_call(&call);
        assert_eq!(parse_call(written.as_str()).unwrap(), call, "{}", text);
        assert_eq!(json_gen::printing::write_call(&parse_call(written.as_str()).unwrap()), written);
    }
}
