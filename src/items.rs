//! Check items as a config document lists them: one file path and
//! one expectation on it.
use vstd::prelude::*;
use crate::pattern::Pattern;
use crate::tree::{
    check_tree, nodes_view, nodes_from, problems_view, specs_view, CheckError, Expect, FileFormat,
    FileSpec, FilesAndFolders, Node, Problem, Snapshot,
};
use crate::validate::{infer, inferred};
use crate::value::{copy_value, Value};

verus! {

/// The expectation that an item states on its file.
#[derive(Debug)]
pub enum FileCheck {
    /// The file exists (as a regular file), or does not.
    Exists { exists: bool },
    /// The file parses in `format` into a value that the schema inferred
    /// from the example `schema` accepts.
    LooksLike { format: FileFormat, schema: Value },
    /// The pattern matches somewhere in the file's text.
    MatchesRegex { matches_regex: Pattern },
}

/// One unit of a config document.
#[derive(Debug)]
pub enum CheckItem {
    File { file: String, check: FileCheck },
}

/// The node of the expected tree that an item stands for.
pub open spec fn item_node(item: CheckItem) -> Node {
    match item {
        CheckItem::File { file, check } => match check {
            FileCheck::Exists { exists } => if exists {
                Node::FilePresent(file@, seq![])
            } else {
                Node::FileNotPresent(file@)
            },
            FileCheck::LooksLike { format, schema } => Node::FilePresent(
                file@,
                seq![Expect::Schema(format, inferred(schema@))],
            ),
            FileCheck::MatchesRegex { matches_regex } => Node::FilePresent(
                file@,
                seq![Expect::Regex(matches_regex@)],
            ),
        },
    }
}

impl View for CheckItem {
    type V = Node;

    open spec fn view(&self) -> Node {
        item_node(*self)
    }
}

pub open spec fn items_nodes(items: Seq<CheckItem>) -> Seq<Node> {
    items.map_values(|i: CheckItem| i@)
}

fn one_spec(s: FileSpec) -> (r: Vec<FileSpec>)
    ensures
        specs_view(r@) == seq![s@],
{
    let mut v: Vec<FileSpec> = Vec::new();
    v.push(s);
    assert(specs_view(v@) =~= seq![s@]);
    v
}

impl CheckItem {
    /// An item on the file at `file`.
    pub fn file(file: &str, check: FileCheck) -> (r: CheckItem)
        ensures
            r matches CheckItem::File { file: f, check: c } && f@ == file@ && c == check,
    {
        CheckItem::File { file: file.to_string(), check }
    }

    /// The node of the expected tree that this item stands for.
    pub fn to_node(self) -> (r: FilesAndFolders)
        ensures
            r@ == self@,
    {
        match self {
            CheckItem::File { file, check } => match check {
                FileCheck::Exists { exists } => if exists {
                    let specs: Vec<FileSpec> = Vec::new();
                    assert(specs_view(specs@) =~= seq![]);
                    FilesAndFolders::FilePresent { name: file, specs }
                } else {
                    FilesAndFolders::FileNotPresent { name: file }
                },
                FileCheck::LooksLike { format, schema } => {
                    let v = infer(&schema);
                    FilesAndFolders::FilePresent { name: file, specs: one_spec(FileSpec::MatchesSchema(format, v)) }
                },
                FileCheck::MatchesRegex { matches_regex } => FilesAndFolders::FilePresent {
                    name: file,
                    specs: one_spec(FileSpec::MatchesRegex(matches_regex)),
                },
            },
        }
    }

    /// A second, independent copy of the item.
    pub fn copy(&self) -> (r: CheckItem)
        ensures
            r@ == self@,
    {
        match self {
            CheckItem::File { file, check } => {
                let check = match check {
                    FileCheck::Exists { exists } => FileCheck::Exists { exists: *exists },
                    FileCheck::LooksLike { format, schema } => FileCheck::LooksLike {
                        format: *format,
                        schema: copy_value(schema),
                    },
                    FileCheck::MatchesRegex { matches_regex } => FileCheck::MatchesRegex {
                        matches_regex: matches_regex.copy(),
                    },
                };
                CheckItem::File { file: file.clone(), check }
            },
        }
    }
}

/// Checks `items` under `root` against what `snap` observed: every problem,
/// in the order of the items, or the first observation that the snapshot
/// lacks.
pub fn check_items(root: &str, items: Vec<CheckItem>, snap: &Snapshot) -> (r: Result<
    Vec<Problem>,
    CheckError,
>)
    ensures
        match nodes_from(root@, items_nodes(items@), snap@, 0) {
            Ok(s) => r matches Ok(ps) && problems_view(ps@) == s,
            Err(m) => r matches Err(e) && e@ == m,
        },
{
    let ghost want = items_nodes(items@);
    let mut nodes: Vec<FilesAndFolders> = Vec::new();
    let mut i: usize = 0;
    while i < items.len()
        invariant
            i <= items.len(),
            want == items_nodes(items@),
            nodes.len() == i,
            forall|m: int| 0 <= m < i ==> (#[trigger] nodes@[m])@ == want[m],
        decreases items.len() - i,
    {
        nodes.push(items[i].copy().to_node());
        i = i + 1;
    }
    assert(nodes_view(nodes@) =~= want);
    check_tree(root, &nodes, snap)
}

} // verus!
