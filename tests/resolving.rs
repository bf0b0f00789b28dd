use you_must_conform::{CheckItem, Config, FileCheck, Fetched, ResolveError};

fn expected(name: &str) -> CheckItem {
    CheckItem::file(name, FileCheck::Exists { exists: true })
}

fn doc(names: &[&str], includes: &[&str]) -> Config {
    Config {
        config: names.iter().map(|n| expected(n)).collect(),
        includes: includes.iter().map(|u| u.to_string()).collect(),
    }
}

fn names(items: &[CheckItem]) -> Vec<String> {
    items.iter().map(|CheckItem::File { file, .. }| file.clone()).collect()
}

#[test]
fn resolution_flattens_in_order() {
    let root = doc(&["A"], &["u"]);
    let fetched = Fetched { documents: vec![("u".to_string(), doc(&["B", "C"], &[]))] };
    assert_eq!(names(&root.resolve(&fetched).unwrap()), vec!["A", "B", "C"]);
}

#[test]
fn nested_includes_resolve_depth_first() {
    let root = doc(&["A"], &["u", "v"]);
    let fetched = Fetched {
        documents: vec![
            ("v".to_string(), doc(&["D"], &[])),
            ("u".to_string(), doc(&["B"], &["w"])),
            ("w".to_string(), doc(&["C"], &[])),
        ],
    };
    assert_eq!(names(&root.resolve(&fetched).unwrap()), vec!["A", "B", "C", "D"]);
}

#[test]
fn no_includes_leaves_items_unchanged() {
    let root = doc(&["A", "B"], &[]);
    let fetched = Fetched { documents: vec![] };
    assert_eq!(names(&root.resolve(&fetched).unwrap()), vec!["A", "B"]);
}

#[test]
fn unfetched_and_cyclic_includes() {
    let root = doc(&["A"], &["u"]);
    let none = Fetched { documents: vec![] };
    assert!(matches!(root.resolve(&none), Err(ResolveError::NotFetched(u)) if u == "u"));
    let cyclic = Fetched {
        documents: vec![
            ("u".to_string(), doc(&["B"], &["v"])),
            ("v".to_string(), doc(&["C"], &["u"])),
        ],
    };
    assert!(matches!(root.resolve(&cyclic), Err(ResolveError::Cycle(u)) if u == "u"));
}

#[test]
fn shared_includes_appear_each_time() {
    let root = doc(&["A"], &["u", "v"]);
    let fetched = Fetched {
        documents: vec![
            ("u".to_string(), doc(&["B"], &["w"])),
            ("v".to_string(), doc(&["C"], &["w"])),
            ("w".to_string(), doc(&["W"], &[])),
        ],
    };
    assert_eq!(names(&root.resolve(&fetched).unwrap()), vec!["A", "B", "W", "C", "W"]);
}

#[test]
fn long_chains_resolve() {
    let root = doc(&["A"], &["u"]);
    let fetched = Fetched {
        documents: vec![
            ("u".to_string(), doc(&["B"], &["v"])),
            ("v".to_string(), doc(&["C"], &["w"])),
            ("w".to_string(), doc(&["D"], &[])),
        ],
    };
    assert_eq!(names(&root.resolve(&fetched).unwrap()), vec!["A", "B", "C", "D"]);
}
