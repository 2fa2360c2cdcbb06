use json_gen::call::{Argument, Call};
use json_gen::error::GenErrorType;
use json_gen::json::{Json, Member};
use json_gen::reader::read_json;
use json_gen::json_template::{Field, JsonTemplate, Node};

fn text(s: &str) -> Json {
    Json::Text(s.to_string())
}

fn number(s: &str) -> Json {
    Json::Number(s.to_string())
}

fn member(key: &str, value: Json) -> Member {
    Member { key: key.to_string(), value }
}

fn call(name: &str) -> Call {
    Call { name: name.to_string(), args: vec![] }
}

#[test]
fn reads_json_text_into_values() {
    let json = read_json(r#"{"s": "x", "n": [1, -2.5, 1e2], "b": true, "z": null, "o": {}}"#).unwrap();
    assert_eq!(
        json,
        Json::Object(vec![
            member("s", text("x")),
            member("n", Json::Array(vec![number("1"), number("-2.5"), number("100.0")])),
            member("b", Json::Bool(true)),
            member("z", Json::Null),
            member("o", Json::Object(vec![])),
        ])
    );
}

#[test]
fn members_keep_the_order_of_the_text() {
    let json = read_json(r#"{"zeta": 1, "alpha": 2, "mid": 3}"#).unwrap();
    match json {
        Json::Object(members) => {
            let keys: Vec<&str> = members.iter().map(|m| m.key.as_str()).collect();
            assert_eq!(keys, vec!["zeta", "alpha", "mid"]);
        }
        other => panic!("{:?}", other),
    }
}

#[test]
fn reads_scalars_at_the_top() {
    assert_eq!(read_json("null").unwrap(), Json::Null);
    assert_eq!(read_json(" false ").unwrap(), Json::Bool(false));
    assert_eq!(read_json("12").unwrap(), number("12"));
    assert_eq!(read_json("\"a\\nb\"").unwrap(), text("a\nb"));
    assert_eq!(read_json("[]").unwrap(), Json::Array(vec![]));
}

#[test]
fn text_that_is_no_json_is_a_parser_failure() {
    for bad in ["", "{", "{\"a\": }", "[1, 2", "nope", "{\"a\": 1} x"] {
        let e = read_json(bad).unwrap_err();
        assert_eq!(e.tpe(), GenErrorType::Parser, "{:?}", bad);
        assert!(e.reason().starts_with("the template is not valid JSON: "), "{}", e.reason());
        assert!(e.reason().len() > "the template is not valid JSON: ".len());
        let t = JsonTemplate::from_str(bad, "|").unwrap_err();
        assert_eq!(t.tpe(), GenErrorType::Parser);
        assert_eq!(t.reason(), e.reason());
    }
}

#[test]
fn a_template_without_marked_keys_is_one_literal() {
    let source = r#"{"a": [1, {"b": "uuid()"}], "c": {"d": null}}"#;
    let json = read_json(source).unwrap();
    let template = JsonTemplate::from_json(&json, "|").unwrap();
    assert_eq!(template.root(), &Node::Literal(json));
    assert_eq!(JsonTemplate::from_str(source, "|").unwrap(), template);
}

#[test]
fn a_marked_key_holds_a_call_and_loses_the_marker() {
    let template = JsonTemplate::from_str(r#"{"|id": "uuid()"}"#, "|").unwrap();
    assert_eq!(
        template.root(),
        &Node::Object(vec![Field {
            key: "id".to_string(),
            is_generator: true,
            child: Node::Call(call("uuid")),
        }])
    );
}

#[test]
fn the_marker_can_be_chosen() {
    let template = JsonTemplate::from_str(r#"{"@id": "uuid()", "id": "uuid()", "|x": "uuid()"}"#, "@").unwrap();
    assert_eq!(
        template.root(),
        &Node::Object(vec![
            Field { key: "id".to_string(), is_generator: true, child: Node::Call(call("uuid")) },
            Field { key: "id".to_string(), is_generator: false, child: Node::Literal(text("uuid()")) },
            Field { key: "|x".to_string(), is_generator: false, child: Node::Literal(text("uuid()")) },
        ])
    );
}

#[test]
fn a_marker_of_several_characters() {
    let template = JsonTemplate::from_str(r#"{"gen:id": "uuid()", "gen": 1, "ge:n": 2}"#, "gen:").unwrap();
    assert_eq!(
        template.root(),
        &Node::Object(vec![
            Field { key: "id".to_string(), is_generator: true, child: Node::Call(call("uuid")) },
            Field { key: "gen".to_string(), is_generator: false, child: Node::Literal(number("1")) },
            Field { key: "ge:n".to_string(), is_generator: false, child: Node::Literal(number("2")) },
        ])
    );
}

#[test]
fn marked_keys_are_found_at_any_depth() {
    let template = JsonTemplate::from_str(
        r#"{"plain": {"k": 1}, "list": [0, {"|v": "choice(1, uuid())"}, [true]], "tail": "t"}"#,
        "|",
    )
    .unwrap();
    let choice = Call {
        name: "choice".to_string(),
        args: vec![Argument::Literal(number("1")), Argument::Nested(call("uuid"))],
    };
    assert_eq!(
        template.root(),
        &Node::Object(vec![
            Field {
                key: "plain".to_string(),
                is_generator: false,
                child: Node::Literal(Json::Object(vec![member("k", number("1"))])),
            },
            Field {
                key: "list".to_string(),
                is_generator: false,
                child: Node::Array(vec![
                    Node::Literal(number("0")),
                    Node::Object(vec![Field {
                        key: "v".to_string(),
                        is_generator: true,
                        child: Node::Call(choice),
                    }]),
                    Node::Literal(Json::Array(vec![Json::Bool(true)])),
                ]),
            },
            Field { key: "tail".to_string(), is_generator: false, child: Node::Literal(text("t")) },
        ])
    );
}

#[test]
fn a_marked_key_wants_a_string() {
    for bad in [r#"{"|id": 5}"#, r#"{"|id": null}"#, r#"{"|id": ["uuid()"]}"#, r#"{"|id": {"a": "uuid()"}}"#] {
        let e = JsonTemplate::from_str(bad, "|").unwrap_err();
        assert_eq!(e.tpe(), GenErrorType::Parser);
        assert_eq!(
            e.reason(),
            "the value of the generator field '|id' must be a string that holds a generator call"
        );
    }
}

#[test]
fn a_marked_key_wants_a_well_formed_call() {
    let e = JsonTemplate::from_str(r#"{"a": 1, "|id": "uuid() extra"}"#, "|").unwrap_err();
    assert_eq!(e.tpe(), GenErrorType::Parser);
    assert_eq!(
        e.reason(),
        "the generator field '|id' is malformed: cannot parse the generator call 'uuid() extra': expected the end of the call at position 7"
    );
}

#[test]
fn the_first_failure_in_the_text_is_reported() {
    let e = JsonTemplate::from_str(r#"{"a": [{"|x": 1}], "|y": "(", "|z": 2}"#, "|").unwrap_err();
    assert_eq!(
        e.reason(),
        "the value of the generator field '|x' must be a string that holds a generator call"
    );
    let e = JsonTemplate::from_str(r#"[{"|y": "("}, {"|x": 1}]"#, "|").unwrap_err();
    assert_eq!(
        e.reason(),
        "the generator field '|y' is malformed: cannot parse the generator call '(': expected a function name at position 0"
    );
}

#[test]
fn an_unknown_function_is_no_parser_failure() {
    assert!(JsonTemplate::from_str(r#"{"|id": "frobnicate()"}"#, "|").is_ok());
}

#[test]
fn with_an_empty_marker_every_key_is_marked() {
    let template = JsonTemplate::from_str(r#"{"id": "uuid()"}"#, "").unwrap();
    assert_eq!(
        template.root(),
        &Node::Object(vec![Field {
            key: "id".to_string(),
            is_generator: true,
            child: Node::Call(call("uuid")),
        }])
    );
    assert!(JsonTemplate::from_str(r#"{"id": 1}"#, "").is_err());
}

#[test]
fn a_copy_of_a_value_equals_it() {
    let json = read_json(r#"{"a": [1, {"b": "x"}], "c": null, "d": true}"#).unwrap();
    assert_eq!(json.duplicate(), json);
    assert_eq!(json.clone(), json);
}
