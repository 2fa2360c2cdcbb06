use json_gen::call::{Argument, Call};
use json_gen::engine::generate;
use json_gen::error::GenErrorType;
use json_gen::evaluator::evaluate;
use json_gen::json::{Json, Member};
use json_gen::parser::parse_call;
use json_gen::random::RandomSource;
use json_gen::reader::read_json;
use json_gen::registry::{ArgKind, FunctionSpec, Registry, Routine};
use json_gen::json_template::JsonTemplate;
use json_gen::uuid::uuid_from_words;

fn field<'a>(document: &'a Json, key: &str) -> &'a Json {
    match document {
        Json::Object(members) => match members.iter().find(|m| m.key == key) {
            Some(member) => &member.value,
            None => panic!("no member {} in {:?}", key, document),
        },
        other => panic!("no object: {:?}", other),
    }
}

fn as_text(value: &Json) -> &str {
    match value {
        Json::Text(text) => text.as_str(),
        other => panic!("no string: {:?}", other),
    }
}

fn is_uuid(text: &str) -> bool {
    let chars: Vec<char> = text.chars().collect();
    chars.len() == 36
        && chars.iter().enumerate().all(|(i, c)| match i {
            8 | 13 | 18 | 23 => *c == '-',
            _ => c.is_ascii_digit() || ('a'..='f').contains(c),
        })
        && chars[14] == '4'
        && "89ab".contains(chars[19])
}

fn run(template: &str, marker: &str, repeat: u32, seed: u64) -> Result<Vec<Json>, json_gen::error::GenError> {
    let template = JsonTemplate::from_str(template, marker).unwrap();
    let registry = Registry::new();
    let mut source = RandomSource::seeded(seed);
    generate(&template, repeat, &registry, &mut source)
}

fn eval(call: &str, seed: u64) -> Result<Json, json_gen::error::GenError> {
    let call = parse_call(call).unwrap();
    let registry = Registry::new();
    let mut source = RandomSource::seeded(seed);
    evaluate(&call, &registry, &mut source)
}

#[test]
fn find_json_text() {
    let jt_body = r#"{"|id": "uuid()"}"#;
    let res = run(jt_body, "|", 1, 1).unwrap();
    assert_eq!(res.len(), 1);
    assert_eq!(as_text(field(&res[0], "id")).len(), 36);
    match &res[0] {
        Json::Object(members) => assert_eq!(members.len(), 1),
        other => panic!("{:?}", other),
    }
}

#[test]
fn a_template_without_marked_keys_is_handed_out_as_it_is() {
    let source = r#"{"a": [1, 2.5, {"b": "uuid()"}], "c": {"d": null, "e": false}, "f": "x"}"#;
    let parsed = read_json(source).unwrap();
    for repeat in [1u32, 2, 5] {
        let documents = run(source, "|", repeat, 3).unwrap();
        assert_eq!(documents.len(), repeat as usize);
        for document in &documents {
            assert_eq!(document, &parsed);
        }
    }
}

#[test]
fn uuid_values_have_the_canonical_layout() {
    let documents = run(r#"{"|id": "uuid()"}"#, "|", 50, 7).unwrap();
    for document in &documents {
        assert!(is_uuid(as_text(field(document, "id"))), "{:?}", document);
    }
}

#[test]
fn a_uuid_is_made_of_the_bits_of_two_words() {
    assert_eq!(uuid_from_words(0, 0), "00000000-0000-4000-8000-000000000000");
    assert_eq!(uuid_from_words(u64::MAX, u64::MAX), "ffffffff-ffff-4fff-bfff-ffffffffffff");
    assert_eq!(
        uuid_from_words(0x0123_4567_89ab_cdef, 0xfedc_ba98_7654_3210),
        "01234567-89ab-4def-bedc-ba9876543210"
    );
    assert_eq!(
        uuid_from_words(0x0000_0000_0000_f000, 0x4000_0000_0000_0001),
        "00000000-0000-4000-8000-000000000001"
    );
}

#[test]
fn a_run_gives_as_many_documents_as_asked_for() {
    for repeat in [0u32, 1, 2, 17] {
        let documents = run(r#"{"|id": "uuid()", "n": 1}"#, "|", repeat, 11).unwrap();
        assert_eq!(documents.len(), repeat as usize);
    }
}

#[test]
fn the_documents_of_a_run_do_not_share_values() {
    let documents = run(r#"{"|id": "uuid()"}"#, "|", 40, 5).unwrap();
    let mut ids: Vec<String> =
        documents.iter().map(|d| as_text(field(d, "id")).to_string()).collect();
    ids.sort();
    ids.dedup();
    assert_eq!(ids.len(), 40);
}

#[test]
fn two_occurrences_of_one_call_are_evaluated_apart() {
    let documents = run(r#"{"|a": "uuid()", "|b": "uuid()", "l": [{"|c": "uuid()"}]}"#, "|", 1, 9).unwrap();
    let a = as_text(field(&documents[0], "a"));
    let b = as_text(field(&documents[0], "b"));
    let c = match field(&documents[0], "l") {
        Json::Array(items) => as_text(field(&items[0], "c")),
        other => panic!("{:?}", other),
    };
    assert!(is_uuid(a) && is_uuid(b) && is_uuid(c));
    assert!(a != b && b != c && a != c);
}

#[test]
fn the_marker_is_not_in_the_documents_and_the_order_is_kept() {
    let documents = run(r#"{"z": 1, "@id": "uuid()", "id": "uuid()", "a": [true]}"#, "@", 1, 2).unwrap();
    match &documents[0] {
        Json::Object(members) => {
            let keys: Vec<&str> = members.iter().map(|m| m.key.as_str()).collect();
            assert_eq!(keys, vec!["z", "id", "id", "a"]);
            assert!(is_uuid(as_text(&members[1].value)));
            assert_eq!(members[2].value, Json::Text("uuid()".to_string()));
            assert_eq!(members[0].value, Json::Number("1".to_string()));
            assert_eq!(members[3].value, Json::Array(vec![Json::Bool(true)]));
        }
        other => panic!("{:?}", other),
    }
}

#[test]
fn a_nested_call_is_evaluated_for_the_call_around_it() {
    let value = eval("choice(uuid())", 4).unwrap();
    assert!(is_uuid(as_text(&value)));
    let documents = run(r#"{"|a": "choice(uuid())", "|b": "choice(uuid())"}"#, "|", 3, 4).unwrap();
    let mut seen: Vec<String> = Vec::new();
    for document in &documents {
        for key in ["a", "b"] {
            let text = as_text(field(document, key)).to_string();
            assert!(is_uuid(&text));
            assert!(!seen.contains(&text));
            seen.push(text);
        }
    }
}

#[test]
fn an_unknown_function_fails_the_run() {
    let e = run(r#"{"|id": "frobnicate()"}"#, "|", 3, 1).unwrap_err();
    assert_eq!(e.tpe(), GenErrorType::Generator);
    assert_eq!(e.reason(), "the function 'frobnicate' is not known");
    assert!(e.reason().contains("frobnicate"));
    let e = run(r#"{"ok": 1, "l": [{"|id": "uuid()"}, {"|x": "choice(nope(1))"}]}"#, "|", 1, 1).unwrap_err();
    assert_eq!(e.tpe(), GenErrorType::Generator);
    assert_eq!(e.reason(), "the function 'nope' is not known");
}

#[test]
fn choice_gives_one_of_its_arguments() {
    let mut seen = [false; 3];
    for seed in 0..60u64 {
        match eval("choice(\"a\", 2, null)", seed).unwrap() {
            Json::Text(text) => {
                assert_eq!(text, "a");
                seen[0] = true;
            }
            Json::Number(text) => {
                assert_eq!(text, "2");
                seen[1] = true;
            }
            Json::Null => seen[2] = true,
            other => panic!("{:?}", other),
        }
    }
    assert_eq!(seen, [true, true, true]);
    assert_eq!(eval("choice(\"only\")", 1).unwrap(), Json::Text("only".to_string()));
}

#[test]
fn bool_gives_a_boolean() {
    let mut seen = [false; 2];
    for seed in 0..40u64 {
        match eval("bool()", seed).unwrap() {
            Json::Bool(b) => seen[b as usize] = true,
            other => panic!("{:?}", other),
        }
    }
    assert_eq!(seen, [true, true]);
}

#[test]
fn the_number_of_arguments_is_checked() {
    let e = eval("uuid(1)", 1).unwrap_err();
    assert_eq!(e.tpe(), GenErrorType::Generator);
    assert_eq!(e.reason(), "the function 'uuid' takes 0 argument(s), but 1 were given");
    let e = eval("choice()", 1).unwrap_err();
    assert_eq!(e.tpe(), GenErrorType::Generator);
    assert_eq!(e.reason(), "the function 'choice' takes at least 1 argument(s), but 0 were given");
}

#[test]
fn the_kinds_of_the_arguments_are_checked() {
    let mut registry = Registry::new();
    registry.register(FunctionSpec {
        name: "pick".to_string(),
        min_args: 1,
        max_args: Some(3),
        kinds: vec![ArgKind::Text, ArgKind::Number, ArgKind::Boolean],
        routine: Routine::Choice,
    });
    let mut source = RandomSource::seeded(1);
    let cases = [
        ("pick(5)", "the function 'pick' takes a string as argument 1, but a number was given"),
        ("pick(\"a\", \"b\")", "the function 'pick' takes a number as argument 2, but a string was given"),
        ("pick(\"a\", 1, null)", "the function 'pick' takes a boolean as argument 3, but null was given"),
        ("pick(bool())", "the function 'pick' takes a string as argument 1, but a boolean was given"),
        ("pick()", "the function 'pick' takes 1 to 3 argument(s), but 0 were given"),
        ("pick(\"a\", 1, true, 4)", "the function 'pick' takes 1 to 3 argument(s), but 4 were given"),
    ];
    for (text, reason) in cases {
        let e = evaluate(&parse_call(text).unwrap(), &registry, &mut source).unwrap_err();
        assert_eq!(e.tpe(), GenErrorType::Generator);
        assert_eq!(e.reason(), reason);
    }
    let value = evaluate(&parse_call("pick(\"a\", 1, true)").unwrap(), &registry, &mut source).unwrap();
    assert!(
        value == Json::Text("a".to_string())
            || value == Json::Number("1".to_string())
            || value == Json::Bool(true)
    );
}

#[test]
fn the_last_kind_is_asked_of_the_arguments_behind_it() {
    let entry = FunctionSpec {
        name: "texts".to_string(),
        min_args: 0,
        max_args: None,
        kinds: vec![ArgKind::Number, ArgKind::Text],
        routine: Routine::Choice,
    };
    assert_eq!(entry.kind_of(0), ArgKind::Number);
    assert_eq!(entry.kind_of(1), ArgKind::Text);
    assert_eq!(entry.kind_of(9), ArgKind::Text);
    assert!(entry
        .check(&vec![Json::Number("1".to_string()), Json::Text("a".to_string()), Json::Text("b".to_string())])
        .is_ok());
    let e = entry
        .check(&vec![Json::Number("1".to_string()), Json::Text("a".to_string()), Json::Null])
        .unwrap_err();
    assert_eq!(e.reason(), "the function 'texts' takes a string as argument 3, but null was given");
    let open = FunctionSpec {
        name: "any".to_string(),
        min_args: 0,
        max_args: None,
        kinds: vec![],
        routine: Routine::Choice,
    };
    assert_eq!(open.kind_of(0), ArgKind::Any);
    assert!(open.check(&vec![Json::Null, Json::Array(vec![])]).is_ok());
}

#[test]
fn a_routine_may_fail_on_its_own() {
    let mut registry = Registry::new();
    registry.register(FunctionSpec {
        name: "none".to_string(),
        min_args: 0,
        max_args: None,
        kinds: vec![],
        routine: Routine::Choice,
    });
    let mut source = RandomSource::seeded(1);
    let e = evaluate(&parse_call("none()").unwrap(), &registry, &mut source).unwrap_err();
    assert_eq!(e.tpe(), GenErrorType::Generator);
    assert_eq!(e.reason(), "the function 'none' has no argument to choose from");
}

#[test]
fn a_later_entry_takes_the_place_of_an_earlier_one() {
    let mut registry = Registry::new();
    assert_eq!(registry.lookup("uuid").unwrap().routine, Routine::Uuid);
    assert_eq!(registry.lookup("bool").unwrap().routine, Routine::Boolean);
    assert_eq!(registry.lookup("choice").unwrap().routine, Routine::Choice);
    assert_eq!(registry.lookup("int").unwrap().routine, Routine::Integer);
    assert!(registry.lookup("frobnicate").is_none());
    assert!(registry.lookup("").is_none());
    registry.register(FunctionSpec {
        name: "uuid".to_string(),
        min_args: 0,
        max_args: Some(0),
        kinds: vec![],
        routine: Routine::Boolean,
    });
    assert_eq!(registry.lookup("uuid").unwrap().routine, Routine::Boolean);
    let mut source = RandomSource::seeded(1);
    let value = evaluate(&parse_call("uuid()").unwrap(), &registry, &mut source).unwrap();
    assert!(matches!(value, Json::Bool(_)));
}

#[test]
fn arguments_are_resolved_before_the_name_is_looked_up() {
    let e = eval("frobnicate(nope())", 1).unwrap_err();
    assert_eq!(e.reason(), "the function 'nope' is not known");
    let e = eval("choice(1, uuid(2), nope())", 1).unwrap_err();
    assert_eq!(e.reason(), "the function 'uuid' takes 0 argument(s), but 1 were given");
}

#[test]
fn one_seed_gives_one_run() {
    let template = r#"{"|id": "uuid()", "|flag": "bool()", "|pick": "choice(1, 2, 3, uuid())"}"#;
    let first = run(template, "|", 6, 42).unwrap();
    let again = run(template, "|", 6, 42).unwrap();
    let other = run(template, "|", 6, 43).unwrap();
    assert_eq!(first, again);
    assert!(first != other);
}

#[test]
fn the_source_hands_out_fresh_words() {
    let mut source = RandomSource::seeded(8);
    let words: Vec<u64> = (0..8).map(|_| source.draw()).collect();
    let mut apart = words.clone();
    apart.sort();
    apart.dedup();
    assert_eq!(apart.len(), 8);
    let mut again = RandomSource::seeded(8);
    assert_eq!(again.draw(), words[0]);
    assert_eq!(again.draw(), words[1]);
}

#[test]
fn one_document_at_a_time() {
    let template = JsonTemplate::from_str(r#"[{"|id": "uuid()"}, 1]"#, "|").unwrap();
    let registry = Registry::new();
    let mut source = RandomSource::seeded(1);
    let first = template.next_value(&registry, &mut source).unwrap();
    let second = template.next_value(&registry, &mut source).unwrap();
    assert!(first != second);
    match (&first, &second) {
        (Json::Array(a), Json::Array(b)) => {
            assert_eq!(a.len(), 2);
            assert_eq!(a[1], Json::Number("1".to_string()));
            assert_eq!(b[1], Json::Number("1".to_string()));
            assert!(is_uuid(as_text(field(&a[0], "id"))));
        }
        other => panic!("{:?}", other),
    }
    let mut fresh = RandomSource::seeded(1);
    assert_eq!(generate(&template, 2, &registry, &mut fresh).unwrap(), vec![first, second]);
}

#[test]
fn a_literal_argument_is_handed_on_as_written() {
    let call = Call {
        name: "choice".to_string(),
        args: vec![Argument::Literal(Json::Object(vec![Member {
            key: "k".to_string(),
            value: Json::Array(vec![Json::Null]),
        }]))],
    };
    let registry = Registry::new();
    let mut source = RandomSource::seeded(1);
    assert_eq!(
        evaluate(&call, &registry, &mut source).unwrap(),
        Json::Object(vec![Member { key: "k".to_string(), value: Json::Array(vec![Json::Null]) }])
    );
}
