use you_must_conform::{
    check_tree, join_path, CheckError, Entry, FileContents, FileFormat, FileSpec, FilesAndFolders,
    Number, Pattern, Problem, Snapshot, Value, ValueProblem, ValueValidator,
};

fn plain_file(path: &str, text: &str) -> (String, Entry) {
    (
        path.to_string(),
        Entry::File(FileContents {
            len: text.len() as u64,
            text: Some(text.to_string()),
            parsed: vec![],
        }),
    )
}

fn present(name: &str, specs: Vec<FileSpec>) -> FilesAndFolders {
    FilesAndFolders::FilePresent { name: name.to_string(), specs }
}

fn absent(name: &str) -> FilesAndFolders {
    FilesAndFolders::FileNotPresent { name: name.to_string() }
}

fn regex(p: &str) -> FileSpec {
    FileSpec::MatchesRegex(Pattern::new(p).unwrap())
}

#[test]
fn problems_follow_declaration_order() {
    let snap = Snapshot {
        entries: vec![
            ("r/dir".to_string(), Entry::Folder),
            plain_file("r/dir/f1", "one"),
            plain_file("r/dir/f2", "two"),
        ],
    };
    let tree = vec![FilesAndFolders::FolderPresent {
        name: "dir".to_string(),
        children: vec![present("f1", vec![FileSpec::HasLength(9)]), absent("f2")],
    }];
    let problems = check_tree("r", &tree, &snap).unwrap();
    match problems.as_slice() {
        [Problem::IncorrectLength { path, expected: 9, actual: 3 }, Problem::DisallowedFile(p2)] => {
            assert_eq!(path, "r/dir/f1");
            assert_eq!(p2, "r/dir/f2");
        }
        other => panic!("unexpected {other:?}"),
    }
}

#[test]
fn problems_accumulate() {
    let snap = Snapshot { entries: vec![plain_file("r/x", "hello")] };
    let tree = vec![present("x", vec![FileSpec::HasLength(1), regex("bye")])];
    let problems = check_tree("r", &tree, &snap).unwrap();
    assert!(matches!(
        problems.as_slice(),
        [Problem::IncorrectLength { expected: 1, actual: 5, .. }, Problem::RegexNotMatched { .. }]
    ));
}

#[test]
fn presence_and_absence_are_symmetric() {
    let snap = Snapshot { entries: vec![plain_file("r/x", "")] };
    let problems = check_tree("r", &vec![present("x", vec![])], &snap).unwrap();
    assert!(problems.is_empty());
    let problems = check_tree("r", &vec![absent("x")], &snap).unwrap();
    assert!(matches!(problems.as_slice(), [Problem::DisallowedFile(p)] if p == "r/x"));
}

#[test]
fn missing_files_and_folders() {
    let snap = Snapshot {
        entries: vec![
            ("r/gone".to_string(), Entry::Missing),
            ("r/sub".to_string(), Entry::Folder),
            ("r/odd".to_string(), Entry::Other),
        ],
    };
    let tree = vec![
        present("gone", vec![FileSpec::HasLength(0)]),
        absent("gone"),
        present("sub", vec![]),
        FilesAndFolders::FolderPresent { name: "gone".to_string(), children: vec![absent("x")] },
        FilesAndFolders::FolderNotPresent { name: "sub".to_string() },
        FilesAndFolders::FolderNotPresent { name: "gone".to_string() },
        present("odd", vec![]),
    ];
    let problems = check_tree("r", &tree, &snap).unwrap();
    match problems.as_slice() {
        [Problem::FileNotPresent(a), Problem::FileNotPresent(b), Problem::FolderNotPresent(c), Problem::DisallowedFolder(d), Problem::FileNotPresent(e)] =>
        {
            assert_eq!(a, "r/gone");
            assert_eq!(b, "r/sub");
            assert_eq!(c, "r/gone");
            assert_eq!(d, "r/sub");
            assert_eq!(e, "r/odd");
        }
        other => panic!("unexpected {other:?}"),
    }
}

#[test]
fn schemas_and_parse_failures() {
    let good = Value::Object(vec![("n".to_string(), Value::Number(Number::Int(3)))]);
    let snap = Snapshot {
        entries: vec![
            (
                "r/a.json".to_string(),
                Entry::File(FileContents {
                    len: 7,
                    text: Some("{\"n\":3}".to_string()),
                    parsed: vec![(FileFormat::Json, Ok(good))],
                }),
            ),
            (
                "r/b.yaml".to_string(),
                Entry::File(FileContents {
                    len: 2,
                    text: Some("[:".to_string()),
                    parsed: vec![(FileFormat::Yaml, Err("bad yaml".to_string()))],
                }),
            ),
        ],
    };
    let tree = vec![
        present(
            "a.json",
            vec![FileSpec::MatchesSchema(
                FileFormat::Json,
                ValueValidator::ObjectContains(
                    "n".to_string(),
                    Box::new(ValueValidator::ExactNumber(Number::Int(4))),
                ),
            )],
        ),
        present("b.yaml", vec![FileSpec::MatchesSchema(FileFormat::Yaml, ValueValidator::AnyValue)]),
    ];
    let problems = check_tree("r", &tree, &snap).unwrap();
    match problems.as_slice() {
        [Problem::SchemaNotMatched { path, detail: ValueProblem::WrongValue { .. } }, Problem::InvalidFormat { format: FileFormat::Yaml, cause, .. }] =>
        {
            assert_eq!(path, "r/a.json");
            assert_eq!(cause, "bad yaml");
        }
        other => panic!("unexpected {other:?}"),
    }
}

#[test]
fn missing_observations_are_named() {
    let tree = vec![present("x", vec![regex("a")])];
    let empty = Snapshot { entries: vec![] };
    assert!(matches!(check_tree("r", &tree, &empty), Err(CheckError::Unobserved(p)) if p == "r/x"));
    let unread = Snapshot {
        entries: vec![(
            "r/x".to_string(),
            Entry::File(FileContents { len: 1, text: None, parsed: vec![] }),
        )],
    };
    assert!(matches!(check_tree("r", &tree, &unread), Err(CheckError::Unread(p)) if p == "r/x"));
    let schema = vec![present("x", vec![FileSpec::MatchesSchema(FileFormat::Toml, ValueValidator::AnyValue)])];
    assert!(matches!(
        check_tree("r", &schema, &unread),
        Err(CheckError::Unparsed(p, FileFormat::Toml)) if p == "r/x"
    ));
}

#[test]
fn paths_join() {
    assert_eq!(join_path("root", "a"), "root/a");
    assert_eq!(join_path("root/", "a"), "root/a");
    assert_eq!(join_path("", "a"), "a");
    assert_eq!(join_path("root", "/abs"), "/abs");
    assert_eq!(FileFormat::Toml.name(), "toml");
}
