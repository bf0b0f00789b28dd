use you_must_conform::{
    check_items, CheckItem, Entry, FileCheck, FileContents, FileFormat, Number, Pattern, Problem,
    Snapshot, Value,
};

fn from_json(v: &serde_json::Value) -> Value {
    match v {
        serde_json::Value::Null => Value::Null,
        serde_json::Value::Bool(b) => Value::Bool(*b),
        serde_json::Value::Number(n) => match (n.as_i64(), n.as_u64(), n.as_f64()) {
            (Some(i), _, _) => Value::Number(Number::Int(i as i128)),
            (None, Some(u), _) => Value::Number(Number::Int(u as i128)),
            (None, None, Some(f)) => Value::Number(Number::Float(f.to_bits())),
            _ => Value::Null,
        },
        serde_json::Value::String(s) => Value::String(s.clone()),
        serde_json::Value::Array(xs) => Value::Array(xs.iter().map(from_json).collect()),
        serde_json::Value::Object(m) => {
            Value::Object(m.iter().map(|(k, v)| (k.clone(), from_json(v))).collect())
        }
    }
}

fn file(path: &str, text: &str) -> (String, Entry) {
    let parsed = match toml::from_str::<serde_json::Value>(text) {
        Ok(v) => Ok(from_json(&v)),
        Err(e) => Err(e.to_string()),
    };
    (
        path.to_string(),
        Entry::File(FileContents {
            len: text.len() as u64,
            text: Some(text.to_string()),
            parsed: vec![(FileFormat::Toml, parsed)],
        }),
    )
}

fn object(entries: Vec<(&str, Value)>) -> Value {
    Value::Object(entries.into_iter().map(|(k, v)| (k.to_string(), v)).collect())
}

#[test]
fn empty_directory() {
    let snap = Snapshot { entries: vec![] };
    let problems = check_items("d", vec![], &snap).unwrap();
    println!("{problems:?}");
    assert!(matches!(problems.as_slice(), []));
}

#[test]
fn file_existence() {
    let snap = Snapshot { entries: vec![file("d/foo", "")] };

    let problems = check_items(
        "d",
        vec![CheckItem::file("foo", FileCheck::Exists { exists: true })],
        &snap,
    )
    .unwrap();
    println!("{problems:?}");
    assert!(matches!(problems.as_slice(), []));

    let problems = check_items(
        "d",
        vec![CheckItem::file("foo", FileCheck::Exists { exists: false })],
        &snap,
    )
    .unwrap();
    println!("{problems:?}");
    assert!(matches!(problems.as_slice(), [Problem::DisallowedFile(_)]));
}

#[test]
fn schema_validation() {
    let snap = Snapshot { entries: vec![file("d/foo.toml", "[hello]\nworld = true")] };
    let problems = check_items(
        "d",
        vec![CheckItem::file(
            "foo.toml",
            FileCheck::LooksLike {
                format: FileFormat::Toml,
                schema: object(vec![("hello", object(vec![("world", Value::Bool(true))]))]),
            },
        )],
        &snap,
    )
    .unwrap();
    println!("{problems:?}");
    assert!(matches!(problems.as_slice(), []));

    let problems = check_items(
        "d",
        vec![CheckItem::file(
            "foo.toml",
            FileCheck::LooksLike {
                format: FileFormat::Toml,
                schema: object(vec![("hello", object(vec![("world", Value::Bool(false))]))]),
            },
        )],
        &snap,
    )
    .unwrap();
    println!("{problems:?}");
    assert!(matches!(problems.as_slice(), [Problem::SchemaNotMatched { .. }]));
}

#[test]
fn regex_matching() {
    let snap = Snapshot { entries: vec![file("d/bar", "barometer\nbartholomew\nbartender")] };
    let problems = check_items(
        "d",
        vec![CheckItem::file(
            "bar",
            FileCheck::MatchesRegex { matches_regex: Pattern::new("barth").unwrap() },
        )],
        &snap,
    )
    .unwrap();
    println!("{problems:?}");
    assert!(matches!(problems.as_slice(), []));

    let problems = check_items(
        "d",
        vec![CheckItem::file(
            "bar",
            FileCheck::MatchesRegex { matches_regex: Pattern::new("foo").unwrap() },
        )],
        &snap,
    )
    .unwrap();
    println!("{problems:?}");
    assert!(matches!(problems.as_slice(), [Problem::RegexNotMatched { .. }]));
}
