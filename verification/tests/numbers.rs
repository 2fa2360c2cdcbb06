use json_gen::error::GenErrorType;
use json_gen::evaluator::evaluate;
use json_gen::json::Json;
use json_gen::parser::parse_call;
use json_gen::random::RandomSource;
use json_gen::registry::{FunctionSpec, Registry, Routine};
use json_gen::text::{integer, read_digits, read_integer};

fn eval_with_seed(call: &str, seed: u64) -> Result<Json, json_gen::error::GenError> {
    let call = parse_call(call).unwrap();
    let registry = Registry::new();
    let mut source = RandomSource::seeded(seed);
    evaluate(&call, &registry, &mut source)
}

fn whole(value: Json) -> i64 {
    match value {
        Json::Number(text) => text.parse::<i64>().unwrap(),
        other => panic!("{:?}", other),
    }
}

#[test]
fn int_gives_every_number_within_its_bounds_and_no_other() {
    let mut seen = [false; 6];
    for seed in 0..200u64 {
        let n = whole(eval_with_seed("int(1, 6)", seed).unwrap());
        assert!((1..=6).contains(&n), "{}", n);
        seen[(n - 1) as usize] = true;
    }
    assert_eq!(seen, [true; 6]);
}

#[test]
fn int_with_equal_bounds_gives_that_number() {
    assert_eq!(eval_with_seed("int(5, 5)", 1).unwrap(), Json::Number("5".to_string()));
    assert_eq!(eval_with_seed("int(-7, -7)", 2).unwrap(), Json::Number("-7".to_string()));
    assert_eq!(eval_with_seed("int(0, -0)", 2).unwrap(), Json::Number("0".to_string()));
}

#[test]
fn int_takes_bounds_below_zero_and_at_the_limits() {
    for seed in 0..50u64 {
        let n = whole(eval_with_seed("int(-3, -1)", seed).unwrap());
        assert!((-3..=-1).contains(&n));
        let m = whole(eval_with_seed("int(-2, 2)", seed).unwrap());
        assert!((-2..=2).contains(&m));
        whole(eval_with_seed("int(-9223372036854775808, 9223372036854775807)", seed).unwrap());
        let top = whole(eval_with_seed("int(9223372036854775806, 9223372036854775807)", seed).unwrap());
        assert!(top >= 9223372036854775806);
        let low = whole(eval_with_seed("int(-9223372036854775808, -9223372036854775807)", seed).unwrap());
        assert!(low <= -9223372036854775807);
    }
}

#[test]
fn int_takes_the_results_of_nested_calls() {
    for seed in 0..30u64 {
        let n = whole(eval_with_seed("int(int(1, 3), int(3, 9))", seed).unwrap());
        assert!((1..=9).contains(&n));
        let m = whole(eval_with_seed("int(choice(10), choice(12, 13))", seed).unwrap());
        assert!((10..=13).contains(&m));
    }
}

#[test]
fn int_refuses_bounds_that_are_none() {
    let reason = "the function 'int' takes two whole numbers of at most 64 bits, the first no greater than the second";
    for call in ["int(2, 1)", "int(1.5, 2)", "int(1, 2e3)", "int(1, 9223372036854775808)", "int(-9223372036854775809, 0)"] {
        let e = eval_with_seed(call, 1).unwrap_err();
        assert_eq!(e.tpe(), GenErrorType::Generator, "{}", call);
        assert_eq!(e.reason(), reason, "{}", call);
    }
}

#[test]
fn int_checks_the_shape_of_its_arguments() {
    let e = eval_with_seed("int(\"a\", 2)", 1).unwrap_err();
    assert_eq!(e.tpe(), GenErrorType::Generator);
    assert_eq!(e.reason(), "the function 'int' takes a number as argument 1, but a string was given");
    let e = eval_with_seed("int(1, true)", 1).unwrap_err();
    assert_eq!(e.reason(), "the function 'int' takes a number as argument 2, but a boolean was given");
    let e = eval_with_seed("int(1)", 1).unwrap_err();
    assert_eq!(e.reason(), "the function 'int' takes 2 argument(s), but 1 were given");
    let e = eval_with_seed("int(1, 2, 3)", 1).unwrap_err();
    assert_eq!(e.reason(), "the function 'int' takes 2 argument(s), but 3 were given");
}

#[test]
fn a_routine_checks_what_its_entry_does_not() {
    let mut registry = Registry::new();
    registry.register(FunctionSpec {
        name: "loose".to_string(),
        min_args: 0,
        max_args: None,
        kinds: vec![],
        routine: Routine::Integer,
    });
    let mut source = RandomSource::seeded(1);
    for call in ["loose()", "loose(1)", "loose(\"1\", 2)", "loose(null, null)"] {
        let e = evaluate(&parse_call(call).unwrap(), &registry, &mut source).unwrap_err();
        assert_eq!(e.tpe(), GenErrorType::Generator);
        assert_eq!(
            e.reason(),
            "the function 'loose' takes two whole numbers of at most 64 bits, the first no greater than the second"
        );
    }
    let n = evaluate(&parse_call("loose(4, 4, \"more\")").unwrap(), &registry, &mut source).unwrap();
    assert_eq!(n, Json::Number("4".to_string()));
}

#[test]
fn whole_numbers_as_text() {
    assert_eq!(integer(0), "0");
    assert_eq!(integer(-5), "-5");
    assert_eq!(integer(1905), "1905");
    assert_eq!(integer(i64::MAX), "9223372036854775807");
    assert_eq!(integer(i64::MIN), "-9223372036854775808");
}

#[test]
fn whole_numbers_are_read_back() {
    for n in [0i64, 1, -1, 10, -10, 1905, i64::MAX, i64::MIN, i64::MIN + 1] {
        assert_eq!(read_integer(integer(n).as_str()), Some(n));
    }
    assert_eq!(read_integer("-0"), Some(0));
    assert_eq!(read_integer("007"), Some(7));
    for text in ["", "-", "+1", "1.0", "1e2", " 1", "a", "--1", "9223372036854775808", "-9223372036854775809"] {
        assert_eq!(read_integer(text), None, "{:?}", text);
    }
}

#[test]
fn digits_are_read_up_to_a_limit() {
    let chars: Vec<char> = "x1234".chars().collect();
    assert_eq!(read_digits(&chars, 1, 1234), Some(1234));
    assert_eq!(read_digits(&chars, 1, 1233), None);
    assert_eq!(read_digits(&chars, 3, 40), Some(34));
    assert_eq!(read_digits(&chars, 0, 99999), None);
    assert_eq!(read_digits(&chars, 5, 99999), None);
    let long: Vec<char> = "18446744073709551615".chars().collect();
    assert_eq!(read_digits(&long, 0, u64::MAX), Some(u64::MAX));
    let longer: Vec<char> = "18446744073709551616".chars().collect();
    assert_eq!(read_digits(&longer, 0, u64::MAX), None);
}
