use you_must_conform::{
    copy_value, infer, values_equal, JsonType, Number, Pattern, ValueProblem, ValueValidator,
    Value,
};

fn num(i: i128) -> Value {
    Value::Number(Number::Int(i))
}

fn float(f: f64) -> Value {
    Value::Number(Number::Float(f.to_bits()))
}

fn text(s: &str) -> Value {
    Value::String(s.to_string())
}

fn obj(entries: Vec<(&str, Value)>) -> Value {
    Value::Object(entries.into_iter().map(|(k, v)| (k.to_string(), v)).collect())
}

fn sample() -> Value {
    obj(vec![
        ("name", text("conform")),
        ("tags", Value::Array(vec![text("a"), num(2), Value::Null])),
        ("nested", obj(vec![("flag", Value::Bool(false)), ("ratio", float(0.5))])),
    ])
}

#[test]
fn example_matches_its_own_schema() {
    let v = sample();
    assert!(infer(&v).allows(&v).is_ok());
    for scalar in [Value::Null, Value::Bool(true), num(-7), float(1.25), text("x")] {
        assert!(infer(&scalar).allows(&scalar).is_ok());
    }
    assert!(infer(&Value::Array(vec![])).allows(&Value::Array(vec![])).is_ok());
    assert!(infer(&obj(vec![])).allows(&obj(vec![])).is_ok());
}

#[test]
fn containment_ignores_order_and_length() {
    let schema = infer(&Value::Array(vec![num(1), num(2)]));
    assert!(schema.allows(&Value::Array(vec![num(2), num(1), num(3)])).is_ok());
    assert!(matches!(
        schema.allows(&Value::Array(vec![num(1)])),
        Err(ValueProblem::NoArrayContains)
    ));
    assert!(matches!(
        schema.allows(&num(1)),
        Err(ValueProblem::DisallowedType { actual_type: JsonType::Number, .. })
    ));
}

#[test]
fn objects_are_open() {
    let schema = infer(&obj(vec![("k", num(1))]));
    assert!(schema.allows(&obj(vec![("k", num(1)), ("extra", num(2))])).is_ok());
    assert!(matches!(
        schema.allows(&obj(vec![("other", num(1))])),
        Err(ValueProblem::MissingKey { .. })
    ));
    assert!(matches!(
        schema.allows(&obj(vec![("k", num(2))])),
        Err(ValueProblem::WrongValue { .. })
    ));
}

#[test]
fn scalars_must_be_equal() {
    assert!(matches!(
        infer(&Value::Bool(true)).allows(&Value::Bool(false)),
        Err(ValueProblem::WrongValue { expected: Value::Bool(true), actual: Value::Bool(false) })
    ));
    assert!(infer(&text("a")).allows(&text("b")).is_err());
    // An integer never equals a float, even of the same value.
    assert!(infer(&num(1)).allows(&float(1.0)).is_err());
    // Both zeros are the same number.
    assert!(infer(&float(0.0)).allows(&float(-0.0)).is_ok());
    assert!(infer(&Value::Null).allows(&num(0)).is_err());
}

#[test]
fn type_sets() {
    let v = ValueValidator::Type(vec![JsonType::String, JsonType::Null]);
    assert!(v.allows(&Value::Null).is_ok());
    assert!(v.allows(&text("s")).is_ok());
    match v.allows(&num(3)) {
        Err(ValueProblem::DisallowedType { allowed_types, actual_type }) => {
            assert_eq!(allowed_types, vec![JsonType::String, JsonType::Null]);
            assert_eq!(actual_type, JsonType::Number);
        }
        other => panic!("unexpected {other:?}"),
    }
    assert_eq!(JsonType::of(&Value::Array(vec![])), JsonType::Array);
    assert_eq!(JsonType::of(&obj(vec![])), JsonType::Object);
}

#[test]
fn numeric_ranges_include_both_bounds() {
    let v = ValueValidator::NumericRange(Number::Int(1), Number::Int(3));
    assert!(v.allows(&num(1)).is_ok());
    assert!(v.allows(&num(3)).is_ok());
    assert!(matches!(v.allows(&num(4)), Err(ValueProblem::OutOfRange { .. })));
    assert!(matches!(v.allows(&text("2")), Err(ValueProblem::OutOfRange { .. })));
    let point = ValueValidator::NumericRange(Number::Int(2), Number::Int(2));
    assert!(point.allows(&num(2)).is_ok());
    let floats = ValueValidator::NumericRange(
        Number::Float((-1.5f64).to_bits()),
        Number::Float(2.5f64.to_bits()),
    );
    assert!(floats.allows(&float(-1.5)).is_ok());
    assert!(floats.allows(&float(0.0)).is_ok());
    assert!(floats.allows(&float(2.6)).is_err());
    assert!(floats.allows(&float(-2.0)).is_err());
}

#[test]
fn regex_strings() {
    let v = ValueValidator::RegexString(Pattern::new("^v[0-9]+$").unwrap());
    assert!(v.allows(&text("v12")).is_ok());
    match v.allows(&text("x12")) {
        Err(ValueProblem::NoRegexMatch { regex, .. }) => assert_eq!(regex, "^v[0-9]+$"),
        other => panic!("unexpected {other:?}"),
    }
    assert!(v.allows(&num(12)).is_err());
    assert!(Pattern::new("(unclosed").is_err());
    assert_eq!(Pattern::new("ab+").unwrap().as_str(), "ab+");
}

#[test]
fn key_presence_and_absence() {
    let has = ValueValidator::ObjectContains(
        "k".to_string(),
        Box::new(ValueValidator::Type(vec![JsonType::Number])),
    );
    assert!(has.allows(&obj(vec![("k", num(1))])).is_ok());
    assert!(matches!(
        has.allows(&obj(vec![("k", text("1"))])),
        Err(ValueProblem::DisallowedType { .. })
    ));
    assert!(matches!(has.allows(&obj(vec![])), Err(ValueProblem::MissingKey { .. })));
    assert!(matches!(has.allows(&num(1)), Err(ValueProblem::DisallowedType { .. })));
    let lacks = ValueValidator::ObjectNotContains("k".to_string());
    assert!(lacks.allows(&obj(vec![("j", num(1))])).is_ok());
    assert!(matches!(
        lacks.allows(&obj(vec![("k", num(1))])),
        Err(ValueProblem::DisallowedKey { .. })
    ));
}

#[test]
fn exact_arrays_and_objects() {
    let arr = ValueValidator::ExactArray(vec![num(1), num(2)]);
    assert!(arr.allows(&Value::Array(vec![num(1), num(2)])).is_ok());
    assert!(arr.allows(&Value::Array(vec![num(2), num(1)])).is_err());
    assert!(arr.allows(&Value::Array(vec![num(1), num(2), num(3)])).is_err());
    let exact = ValueValidator::ExactObject(vec![
        ("a".to_string(), num(1)),
        ("b".to_string(), num(2)),
    ]);
    // The order of entries is irrelevant; the set of keys is not.
    assert!(exact.allows(&obj(vec![("b", num(2)), ("a", num(1))])).is_ok());
    assert!(exact.allows(&obj(vec![("a", num(1))])).is_err());
    assert!(exact.allows(&obj(vec![("a", num(1)), ("b", num(2)), ("c", num(3))])).is_err());
}

#[test]
fn conjunction_reports_first_failure() {
    let v = ValueValidator::AllOf(vec![
        ValueValidator::AnyValue,
        ValueValidator::ObjectNotContains("x".to_string()),
        ValueValidator::ObjectContains("y".to_string(), Box::new(ValueValidator::AnyValue)),
    ]);
    assert!(matches!(
        v.allows(&obj(vec![("x", num(1))])),
        Err(ValueProblem::DisallowedKey { .. })
    ));
    assert!(matches!(v.allows(&obj(vec![])), Err(ValueProblem::MissingKey { .. })));
    assert!(v.allows(&obj(vec![("y", Value::Null)])).is_ok());
    assert!(ValueValidator::AllOf(vec![]).allows(&Value::Null).is_ok());
}

#[test]
fn equality_and_copies() {
    let v = sample();
    let c = copy_value(&v);
    assert!(values_equal(&v, &c));
    assert!(!values_equal(&v, &obj(vec![])));
    let reordered = obj(vec![
        ("nested", obj(vec![("ratio", float(0.5)), ("flag", Value::Bool(false))])),
        ("tags", Value::Array(vec![text("a"), num(2), Value::Null])),
        ("name", text("conform")),
    ]);
    assert!(values_equal(&v, &reordered));
}

#[test]
fn ranges_compare_integers_and_floats() {
    let ints = ValueValidator::NumericRange(Number::Int(0), Number::Int(2));
    assert!(ints.allows(&float(1.0)).is_ok());
    assert!(ints.allows(&float(2.0)).is_ok());
    assert!(ints.allows(&float(0.0)).is_ok());
    assert!(ints.allows(&float(-0.0)).is_ok());
    assert!(ints.allows(&float(2.000001)).is_err());
    assert!(ints.allows(&float(-1e-300)).is_err());
    assert!(ints.allows(&float(5e-324)).is_ok());
    let floats = ValueValidator::NumericRange(
        Number::Float((-2.5f64).to_bits()),
        Number::Float(1e20f64.to_bits()),
    );
    assert!(floats.allows(&num(-2)).is_ok());
    assert!(floats.allows(&num(100_000_000_000_000_000_000)).is_ok());
    assert!(floats.allows(&num(100_000_000_000_000_000_001)).is_err());
    assert!(floats.allows(&num(-3)).is_err());
    let huge = ValueValidator::NumericRange(Number::Int(i128::MIN), Number::Float(1e300f64.to_bits()));
    assert!(huge.allows(&num(i128::MAX)).is_ok());
    assert!(huge.allows(&float(-1e300)).is_err());
    assert!(Number::Int(3).at_most(&Number::Float(3.0f64.to_bits())));
    assert!(Number::Float(3.0f64.to_bits()).at_most(&Number::Int(3)));
    assert!(!Number::Float(3.5f64.to_bits()).at_most(&Number::Int(3)));
}

#[test]
fn a_problem_converts_to_a_failed_check() {
    let r: Result<(), ValueProblem> = ValueProblem::NoArrayContains.into();
    assert!(matches!(r, Err(ValueProblem::NoArrayContains)));
}
