//! The filesystem tree checker: walks a declarative tree of expected files
//! and folders against an observed snapshot of the filesystem, and reports
//! every problem found, in declaration order.
use vstd::prelude::*;
use crate::pattern::{regex_finds, Pattern};
use crate::validate::{evaluation, Mismatch, Rule, ValueProblem, ValueValidator};
use crate::value::{Json, Value};

verus! {

/// A structured file format.
#[derive(Clone, Copy, Debug, PartialEq, Eq, Structural)]
pub enum FileFormat {
    Json,
    Toml,
    Yaml,
}

pub open spec fn format_name(f: FileFormat) -> Seq<char> {
    match f {
        FileFormat::Json => "json"@,
        FileFormat::Toml => "toml"@,
        FileFormat::Yaml => "yaml"@,
    }
}

impl FileFormat {
    /// The format's lower-case name.
    pub fn name(&self) -> (r: &'static str)
        ensures
            r@ == format_name(*self),
    {
        match self {
            FileFormat::Json => "json",
            FileFormat::Toml => "toml",
            FileFormat::Yaml => "yaml",
        }
    }
}

/// One expectation on the content of a file.
#[derive(Debug)]
pub enum FileSpec {
    /// The file is this many bytes long.
    HasLength(u64),
    /// The pattern matches somewhere in the file's text.
    MatchesRegex(Pattern),
    /// The file parses in the format, and the validator accepts the value.
    MatchesSchema(FileFormat, ValueValidator),
}

/// A node of the expected tree.
#[derive(Debug)]
pub enum FilesAndFolders {
    FilePresent { name: String, specs: Vec<FileSpec> },
    FileNotPresent { name: String },
    FolderPresent { name: String, children: Vec<FilesAndFolders> },
    FolderNotPresent { name: String },
}

/// The model of a [`FileSpec`].
pub enum Expect {
    Length(u64),
    Regex(Seq<char>),
    Schema(FileFormat, Rule),
}

/// The model of a [`FilesAndFolders`] node.
pub enum Node {
    FilePresent(Seq<char>, Seq<Expect>),
    FileNotPresent(Seq<char>),
    FolderPresent(Seq<char>, Seq<Node>),
    FolderNotPresent(Seq<char>),
}

impl View for FileSpec {
    type V = Expect;

    open spec fn view(&self) -> Expect {
        match *self {
            FileSpec::HasLength(n) => Expect::Length(n),
            FileSpec::MatchesRegex(p) => Expect::Regex(p@),
            FileSpec::MatchesSchema(f, v) => Expect::Schema(f, v@),
        }
    }
}

pub open spec fn specs_view(specs: Seq<FileSpec>) -> Seq<Expect> {
    specs.map_values(|s: FileSpec| s@)
}

pub open spec fn node_view(n: FilesAndFolders) -> Node
    decreases n,
{
    match n {
        FilesAndFolders::FilePresent { name, specs } => Node::FilePresent(name@, specs_view(specs@)),
        FilesAndFolders::FileNotPresent { name } => Node::FileNotPresent(name@),
        FilesAndFolders::FolderPresent { name, children } => Node::FolderPresent(
            name@,
            Seq::new(
                children.len() as nat,
                |i: int|
                    if 0 <= i < children.len() {
                        node_view(children[i])
                    } else {
                        Node::FileNotPresent(Seq::empty())
                    },
            ),
        ),
        FilesAndFolders::FolderNotPresent { name } => Node::FolderNotPresent(name@),
    }
}

impl View for FilesAndFolders {
    type V = Node;

    open spec fn view(&self) -> Node {
        node_view(*self)
    }
}

pub open spec fn nodes_view(nodes: Seq<FilesAndFolders>) -> Seq<Node> {
    nodes.map_values(|n: FilesAndFolders| n@)
}

/// What a regular file holds, as far as the checks need it.
#[derive(Debug)]
pub struct FileContents {
    /// Its length in bytes.
    pub len: u64,
    /// Its text, where it was read.
    pub text: Option<String>,
    /// For each format it was parsed in, the value or why parsing failed.
    pub parsed: Vec<(FileFormat, Result<Value, String>)>,
}

/// What the filesystem holds at one path.
#[derive(Debug)]
pub enum Entry {
    Missing,
    File(FileContents),
    Folder,
    /// Something that is neither a regular file nor a folder.
    Other,
}

/// What was observed of the filesystem, path by path.
#[derive(Debug)]
pub struct Snapshot {
    pub entries: Vec<(String, Entry)>,
}

/// The model of a [`FileContents`].
pub struct FileModel {
    pub len: u64,
    pub text: Option<Seq<char>>,
    pub parsed: Seq<(FileFormat, Result<Json, Seq<char>>)>,
}

/// The model of an [`Entry`].
pub enum Observed {
    Missing,
    File(FileModel),
    Folder,
    Other,
}

impl View for FileContents {
    type V = FileModel;

    open spec fn view(&self) -> FileModel {
        FileModel {
            len: self.len,
            text: match self.text {
                Some(t) => Some(t@),
                None => None,
            },
            parsed: self.parsed@.map_values(
                |p: (FileFormat, Result<Value, String>)|
                    (
                        p.0,
                        match p.1 {
                            Ok(v) => Ok(v@),
                            Err(e) => Err(e@),
                        },
                    ),
            ),
        }
    }
}

impl View for Entry {
    type V = Observed;

    open spec fn view(&self) -> Observed {
        match *self {
            Entry::Missing => Observed::Missing,
            Entry::File(c) => Observed::File(c@),
            Entry::Folder => Observed::Folder,
            Entry::Other => Observed::Other,
        }
    }
}

impl View for Snapshot {
    type V = Seq<(Seq<char>, Observed)>;

    open spec fn view(&self) -> Seq<(Seq<char>, Observed)> {
        self.entries@.map_values(|e: (String, Entry)| (e.0@, e.1@))
    }
}

/// A conformance problem.
#[derive(Debug)]
pub enum Problem {
    InvalidFormat { path: String, format: FileFormat, cause: String },
    SchemaNotMatched { path: String, detail: ValueProblem },
    RegexNotMatched { path: String, regex: String },
    IncorrectLength { path: String, expected: u64, actual: u64 },
    FileNotPresent(String),
    DisallowedFile(String),
    FolderNotPresent(String),
    DisallowedFolder(String),
}

/// The model of a [`Problem`].
pub enum Finding {
    InvalidFormat { path: Seq<char>, format: FileFormat, cause: Seq<char> },
    SchemaNotMatched { path: Seq<char>, detail: Mismatch },
    RegexNotMatched { path: Seq<char>, regex: Seq<char> },
    IncorrectLength { path: Seq<char>, expected: u64, actual: u64 },
    FileNotPresent(Seq<char>),
    DisallowedFile(Seq<char>),
    FolderNotPresent(Seq<char>),
    DisallowedFolder(Seq<char>),
}

impl View for Problem {
    type V = Finding;

    open spec fn view(&self) -> Finding {
        match *self {
            Problem::InvalidFormat { path, format, cause } => Finding::InvalidFormat {
                path: path@,
                format,
                cause: cause@,
            },
            Problem::SchemaNotMatched { path, detail } => Finding::SchemaNotMatched {
                path: path@,
                detail: detail@,
            },
            Problem::RegexNotMatched { path, regex } => Finding::RegexNotMatched {
                path: path@,
                regex: regex@,
            },
            Problem::IncorrectLength { path, expected, actual } => Finding::IncorrectLength {
                path: path@,
                expected,
                actual,
            },
            Problem::FileNotPresent(p) => Finding::FileNotPresent(p@),
            Problem::DisallowedFile(p) => Finding::DisallowedFile(p@),
            Problem::FolderNotPresent(p) => Finding::FolderNotPresent(p@),
            Problem::DisallowedFolder(p) => Finding::DisallowedFolder(p@),
        }
    }
}

pub open spec fn problems_view(ps: Seq<Problem>) -> Seq<Finding> {
    ps.map_values(|p: Problem| p@)
}

/// Why a check could not be completed: the snapshot lacks what it needs.
/// Observe it, add it to the snapshot, and check again.
#[derive(Debug)]
pub enum CheckError {
    /// What the filesystem holds at this path.
    Unobserved(String),
    /// The text of the regular file at this path.
    Unread(String),
    /// How the text of the file at this path parses in this format.
    Unparsed(String, FileFormat),
}

/// The model of a [`CheckError`].
pub enum Missing {
    Entry(Seq<char>),
    Text(Seq<char>),
    Parse(Seq<char>, FileFormat),
}

impl View for CheckError {
    type V = Missing;

    open spec fn view(&self) -> Missing {
        match *self {
            CheckError::Unobserved(p) => Missing::Entry(p@),
            CheckError::Unread(p) => Missing::Text(p@),
            CheckError::Unparsed(p, f) => Missing::Parse(p@, f),
        }
    }
}

/// The outcome of a check: the problems found, or the first observation
/// that was missing.
pub type Outcome = Result<Seq<Finding>, Missing>;

/// The problems of `a` followed by those of `b`; the first missing
/// observation ends the check.
pub open spec fn chain(a: Outcome, b: Outcome) -> Outcome {
    match a {
        Err(p) => Err(p),
        Ok(x) => match b {
            Err(p) => Err(p),
            Ok(y) => Ok(x + y),
        },
    }
}

/// `name` under `root`, as a path; a name that starts with `/` stands alone.
pub open spec fn joined(root: Seq<char>, name: Seq<char>) -> Seq<char> {
    if name.len() > 0 && name[0] == '/' {
        name
    } else if root.len() == 0 {
        name
    } else if root.last() == '/' {
        root + name
    } else {
        root + seq!['/'] + name
    }
}

/// What the snapshot holds at `p`, from position `i` on (the first entry wins).
pub open spec fn observed_from(s: Seq<(Seq<char>, Observed)>, p: Seq<char>, i: int) -> Option<
    Observed,
>
    decreases s.len() - i,
{
    if 0 <= i < s.len() {
        if s[i].0 == p {
            Some(s[i].1)
        } else {
            observed_from(s, p, i + 1)
        }
    } else {
        None
    }
}

/// How the file parsed in `f`, from position `i` on.
pub open spec fn parsed_from(
    ps: Seq<(FileFormat, Result<Json, Seq<char>>)>,
    f: FileFormat,
    i: int,
) -> Option<Result<Json, Seq<char>>>
    decreases ps.len() - i,
{
    if 0 <= i < ps.len() {
        if ps[i].0 == f {
            Some(ps[i].1)
        } else {
            parsed_from(ps, f, i + 1)
        }
    } else {
        None
    }
}

/// The problems that one expectation finds in the file at `p`.
pub open spec fn expect_outcome(p: Seq<char>, e: Expect, f: FileModel) -> Outcome {
    match e {
        Expect::Length(n) => Ok(
            if f.len == n {
                seq![]
            } else {
                seq![Finding::IncorrectLength { path: p, expected: n, actual: f.len }]
            },
        ),
        Expect::Regex(r) => match f.text {
            None => Err(Missing::Text(p)),
            Some(t) => Ok(
                if regex_finds(r, t) {
                    seq![]
                } else {
                    seq![Finding::RegexNotMatched { path: p, regex: r }]
                },
            ),
        },
        Expect::Schema(fmt, rule) => match parsed_from(f.parsed, fmt, 0) {
            None => Err(Missing::Parse(p, fmt)),
            Some(Err(cause)) => Ok(seq![Finding::InvalidFormat { path: p, format: fmt, cause }]),
            Some(Ok(v)) => Ok(
                match evaluation(rule, v) {
                    Ok(()) => seq![],
                    Err(m) => seq![Finding::SchemaNotMatched { path: p, detail: m }],
                },
            ),
        },
    }
}

/// The problems that `es[i..]` find in the file at `p`: every expectation is
/// checked, none suppresses another.
pub open spec fn expects_from(p: Seq<char>, es: Seq<Expect>, f: FileModel, i: int) -> Outcome
    decreases es.len() - i,
{
    if 0 <= i < es.len() {
        chain(expect_outcome(p, es[i], f), expects_from(p, es, f, i + 1))
    } else {
        Ok(seq![])
    }
}

/// The problems of one node under `root`.
pub open spec fn node_outcome(root: Seq<char>, n: Node, s: Seq<(Seq<char>, Observed)>) -> Outcome
    decreases n, 0int,
{
    match n {
        Node::FilePresent(name, es) => {
            let p = joined(root, name);
            match observed_from(s, p, 0) {
                None => Err(Missing::Entry(p)),
                Some(Observed::File(f)) => expects_from(p, es, f, 0),
                Some(_) => Ok(seq![Finding::FileNotPresent(p)]),
            }
        },
        Node::FileNotPresent(name) => {
            let p = joined(root, name);
            match observed_from(s, p, 0) {
                None => Err(Missing::Entry(p)),
                Some(Observed::File(_)) => Ok(seq![Finding::DisallowedFile(p)]),
                Some(_) => Ok(seq![]),
            }
        },
        Node::FolderPresent(name, children) => {
            let p = joined(root, name);
            match observed_from(s, p, 0) {
                None => Err(Missing::Entry(p)),
                Some(Observed::Folder) => nodes_from(p, children, s, 0),
                Some(_) => Ok(seq![Finding::FolderNotPresent(p)]),
            }
        },
        Node::FolderNotPresent(name) => {
            let p = joined(root, name);
            match observed_from(s, p, 0) {
                None => Err(Missing::Entry(p)),
                Some(Observed::Folder) => Ok(seq![Finding::DisallowedFolder(p)]),
                Some(_) => Ok(seq![]),
            }
        },
    }
}

/// The problems of `ns[i..]` under `root`, depth first, in declaration order.
pub open spec fn nodes_from(root: Seq<char>, ns: Seq<Node>, s: Seq<(Seq<char>, Observed)>, i: int) -> Outcome
    decreases ns, ns.len() - i,
{
    if 0 <= i < ns.len() {
        chain(node_outcome(root, ns[i], s), nodes_from(root, ns, s, i + 1))
    } else {
        Ok(seq![])
    }
}

/// `after` is `before` with the problems of `o` appended, where `o`
/// succeeded; otherwise `r` names the path whose observation was missing.
pub open spec fn extends(before: Seq<Problem>, after: Seq<Problem>, r: Result<(), CheckError>, o: Outcome) -> bool {
    match o {
        Ok(s) => r is Ok && problems_view(after) == problems_view(before) + s,
        Err(m) => r matches Err(e) && e@ == m,
    }
}

proof fn lemma_chain_assoc(acc: Seq<Finding>, a: Outcome, b: Outcome)
    ensures
        chain(Ok(acc), chain(a, b)) == chain(chain(Ok(acc), a), b),
{
    if let Ok(x) = a {
        if let Ok(y) = b {
            assert(acc + (x + y) =~= (acc + x) + y);
        }
    }
}

proof fn lemma_chain_empty(o: Outcome)
    ensures
        chain(Ok(seq![]), o) == o,
{
    if let Ok(x) = o {
        assert(seq![] + x =~= x);
    }
}

proof fn lemma_folder_view(name: String, children: Vec<FilesAndFolders>)
    ensures
        (FilesAndFolders::FolderPresent { name, children })@ == Node::FolderPresent(
            name@,
            nodes_view(children@),
        ),
{
    if let Node::FolderPresent(_, cs) = (FilesAndFolders::FolderPresent { name, children })@ {
        assert(cs =~= nodes_view(children@));
    }
}

/// Appending no problems leaves the list as it was.
proof fn lemma_nothing_found(ps: Seq<Problem>)
    ensures
        problems_view(ps) == problems_view(ps) + seq![],
{
    assert(problems_view(ps) =~= problems_view(ps) + seq![]);
}

fn push_problem(out: &mut Vec<Problem>, p: Problem)
    ensures
        problems_view(final(out)@) == problems_view(old(out)@) + seq![p@],
{
    let ghost before = out@;
    out.push(p);
    assert(problems_view(out@) =~= problems_view(before) + seq![p@]);
}

/// `name` under `root`, as [`joined`] states.
pub fn join_path(root: &str, name: &str) -> (r: String)
    ensures
        r@ == joined(root@, name@),
{
    if name.unicode_len() > 0 && name.get_char(0) == '/' {
        return name.to_string();
    }
    let n = root.unicode_len();
    if n == 0 {
        return name.to_string();
    }
    let mut out = root.to_string();
    if root.get_char(n - 1) != '/' {
        let slash = "/";
        proof {
            reveal_strlit("/");
        }
        out.append(slash);
    }
    out.append(name);
    out
}

/// The position of the entry that the snapshot holds for `p`.
fn find_entry(snap: &Snapshot, p: &String) -> (r: Option<usize>)
    ensures
        match r {
            Some(i) => i < snap.entries.len() && observed_from(snap@, p@, 0) == Some(
                snap.entries@[i as int].1@,
            ),
            None => observed_from(snap@, p@, 0) is None,
        },
{
    let mut i: usize = 0;
    while i < snap.entries.len()
        invariant
            i <= snap.entries.len(),
            observed_from(snap@, p@, 0) == observed_from(snap@, p@, i as int),
        decreases snap.entries.len() - i,
    {
        if snap.entries[i].0 == *p {
            return Some(i);
        }
        i = i + 1;
    }
    None
}

/// The position of the parse of `c` in format `f`.
fn find_parsed(c: &FileContents, f: FileFormat) -> (r: Option<usize>)
    ensures
        match r {
            Some(i) => i < c.parsed.len() && parsed_from(c@.parsed, f, 0) == Some(
                c@.parsed[i as int].1,
            ),
            None => parsed_from(c@.parsed, f, 0) is None,
        },
{
    let mut i: usize = 0;
    while i < c.parsed.len()
        invariant
            i <= c.parsed.len(),
            parsed_from(c@.parsed, f, 0) == parsed_from(c@.parsed, f, i as int),
        decreases c.parsed.len() - i,
    {
        if c.parsed[i].0 == f {
            return Some(i);
        }
        i = i + 1;
    }
    None
}

/// Checks one expectation on the file at `path`, appending what it finds.
fn check_expect(path: &String, spec: &FileSpec, c: &FileContents, out: &mut Vec<Problem>) -> (r:
    Result<(), CheckError>)
    ensures
        extends(old(out)@, final(out)@, r, expect_outcome(path@, spec@, c@)),
{
    match spec {
        FileSpec::HasLength(n) => {
            if c.len != *n {
                push_problem(out, Problem::IncorrectLength { path: path.clone(), expected: *n, actual: c.len });
            } else {
                proof {
                    lemma_nothing_found(out@);
                }
            }
            Ok(())
        },
        FileSpec::MatchesRegex(pattern) => match &c.text {
            None => Err(CheckError::Unread(path.clone())),
            Some(t) => {
                if !pattern.is_match(t.as_str()) {
                    push_problem(out, Problem::RegexNotMatched { path: path.clone(), regex: pattern.as_str().to_string() });
                } else {
                    proof {
                        lemma_nothing_found(out@);
                    }
                }
                Ok(())
            },
        },
        FileSpec::MatchesSchema(format, validator) => match find_parsed(c, *format) {
            None => Err(CheckError::Unparsed(path.clone(), *format)),
            Some(i) => {
                match &c.parsed[i].1 {
                    Err(cause) => {
                        push_problem(out, Problem::InvalidFormat { path: path.clone(), format: *format, cause: cause.clone() });
                    },
                    Ok(v) => match validator.allows(v) {
                        Ok(()) => {
                            proof {
                                lemma_nothing_found(out@);
                            }
                        },
                        Err(m) => {
                            push_problem(out, Problem::SchemaNotMatched { path: path.clone(), detail: m });
                        },
                    },
                }
                Ok(())
            },
        },
    }
}

/// Checks every expectation on the file at `path`, appending what they find.
fn check_specs(path: &String, specs: &Vec<FileSpec>, c: &FileContents, out: &mut Vec<Problem>) -> (r:
    Result<(), CheckError>)
    ensures
        extends(old(out)@, final(out)@, r, expects_from(path@, specs_view(specs@), c@, 0)),
{
    let ghost es = specs_view(specs@);
    let ghost start = problems_view(out@);
    let ghost mut acc: Seq<Finding> = seq![];
    proof {
        lemma_chain_empty(expects_from(path@, es, c@, 0));
    }
    let mut i: usize = 0;
    while i < specs.len()
        invariant
            i <= specs.len(),
            es == specs_view(specs@),
            problems_view(out@) == start + acc,
            expects_from(path@, es, c@, 0) == chain(Ok(acc), expects_from(path@, es, c@, i as int)),
        decreases specs.len() - i,
    {
        let ghost before = out@;
        let r = check_expect(path, &specs[i], c, out);
        proof {
            lemma_chain_assoc(acc, expect_outcome(path@, es[i as int], c@), expects_from(path@, es, c@, i + 1));
        }
        if r.is_err() {
            return r;
        }
        proof {
            let s = expect_outcome(path@, es[i as int], c@)->Ok_0;
            assert(start + (acc + s) =~= (start + acc) + s);
            acc = acc + s;
        }
        i = i + 1;
    }
    assert(start + acc + seq![] =~= start + acc);
    Ok(())
}

/// Checks one node under `root`, appending what it finds.
fn check_node(root: &String, node: &FilesAndFolders, snap: &Snapshot, out: &mut Vec<Problem>) -> (r:
    Result<(), CheckError>)
    ensures
        extends(old(out)@, final(out)@, r, node_outcome(root@, node@, snap@)),
    decreases node, 0int,
{
    match node {
        FilesAndFolders::FilePresent { name, specs } => {
            let path = join_path(root.as_str(), name.as_str());
            match find_entry(snap, &path) {
                None => Err(CheckError::Unobserved(path)),
                Some(i) => match &snap.entries[i].1 {
                    Entry::File(c) => check_specs(&path, specs, c, out),
                    _ => {
                        push_problem(out, Problem::FileNotPresent(path));
                        Ok(())
                    },
                },
            }
        },
        FilesAndFolders::FileNotPresent { name } => {
            let path = join_path(root.as_str(), name.as_str());
            match find_entry(snap, &path) {
                None => Err(CheckError::Unobserved(path)),
                Some(i) => match &snap.entries[i].1 {
                    Entry::File(_) => {
                        push_problem(out, Problem::DisallowedFile(path));
                        Ok(())
                    },
                    _ => {
                        proof {
                            lemma_nothing_found(out@);
                        }
                        Ok(())
                    },
                },
            }
        },
        FilesAndFolders::FolderPresent { name, children } => {
            let path = join_path(root.as_str(), name.as_str());
            proof {
                lemma_folder_view(*name, *children);
                assert(decreases_to!(*node => (*node)->FolderPresent_children));
            }
            match find_entry(snap, &path) {
                None => Err(CheckError::Unobserved(path)),
                Some(i) => match &snap.entries[i].1 {
                    Entry::Folder => check_nodes(&path, children, snap, out),
                    _ => {
                        push_problem(out, Problem::FolderNotPresent(path));
                        Ok(())
                    },
                },
            }
        },
        FilesAndFolders::FolderNotPresent { name } => {
            let path = join_path(root.as_str(), name.as_str());
            match find_entry(snap, &path) {
                None => Err(CheckError::Unobserved(path)),
                Some(i) => match &snap.entries[i].1 {
                    Entry::Folder => {
                        push_problem(out, Problem::DisallowedFolder(path));
                        Ok(())
                    },
                    _ => {
                        proof {
                            lemma_nothing_found(out@);
                        }
                        Ok(())
                    },
                },
            }
        },
    }
}

/// Checks `nodes` under `root` in order, appending what they find.
fn check_nodes(root: &String, nodes: &Vec<FilesAndFolders>, snap: &Snapshot, out: &mut Vec<Problem>) -> (r:
    Result<(), CheckError>)
    ensures
        extends(old(out)@, final(out)@, r, nodes_from(root@, nodes_view(nodes@), snap@, 0)),
    decreases nodes, 1int,
{
    let ghost ns = nodes_view(nodes@);
    let ghost start = problems_view(out@);
    let ghost mut acc: Seq<Finding> = seq![];
    proof {
        lemma_chain_empty(nodes_from(root@, ns, snap@, 0));
    }
    let mut i: usize = 0;
    while i < nodes.len()
        invariant
            i <= nodes.len(),
            ns == nodes_view(nodes@),
            problems_view(out@) == start + acc,
            nodes_from(root@, ns, snap@, 0) == chain(Ok(acc), nodes_from(root@, ns, snap@, i as int)),
        decreases nodes.len() - i,
    {
        proof {
            vstd::std_specs::vec::axiom_vec_index_decreases(*nodes, i as int);
        }
        let r = check_node(root, &nodes[i], snap, out);
        proof {
            lemma_chain_assoc(acc, node_outcome(root@, ns[i as int], snap@), nodes_from(root@, ns, snap@, i + 1));
        }
        if r.is_err() {
            return r;
        }
        proof {
            let s = node_outcome(root@, ns[i as int], snap@)->Ok_0;
            assert(start + (acc + s) =~= (start + acc) + s);
            acc = acc + s;
        }
        i = i + 1;
    }
    assert(start + acc + seq![] =~= start + acc);
    Ok(())
}

/// Checks the tree `nodes` under `root` against what `snap` observed: every
/// problem, in declaration order (depth first), or the first observation
/// that the snapshot lacks.
pub fn check_tree(root: &str, nodes: &Vec<FilesAndFolders>, snap: &Snapshot) -> (r: Result<
    Vec<Problem>,
    CheckError,
>)
    ensures
        match nodes_from(root@, nodes_view(nodes@), snap@, 0) {
            Ok(s) => r matches Ok(ps) && problems_view(ps@) == s,
            Err(m) => r matches Err(e) && e@ == m,
        },
{
    let mut out: Vec<Problem> = Vec::new();
    let root = root.to_string();
    let r = check_nodes(&root, nodes, snap, &mut out);
    assert(problems_view(Seq::<Problem>::empty()) =~= seq![]);
    assert(seq![] + problems_view(out@) =~= problems_view(out@));
    match r {
        Ok(()) => Ok(out),
        Err(e) => Err(e),
    }
}

/// Problems come in declaration order: in a folder that holds `first` and
/// then `second`, the problems of `first` precede those of `second`.
pub proof fn lemma_declaration_order(
    root: Seq<char>,
    name: Seq<char>,
    first: Node,
    second: Node,
    s: Seq<(Seq<char>, Observed)>,
)
    requires
        observed_from(s, joined(root, name), 0) == Some(Observed::Folder),
        node_outcome(joined(root, name), first, s) is Ok,
        node_outcome(joined(root, name), second, s) is Ok,
    ensures
        node_outcome(root, Node::FolderPresent(name, seq![first, second]), s) == Ok::<
            Seq<Finding>,
            Missing,
        >(
            node_outcome(joined(root, name), first, s)->Ok_0 + node_outcome(
                joined(root, name),
                second,
                s,
            )->Ok_0,
        ),
{
    let p = joined(root, name);
    let ns = seq![first, second];
    assert(nodes_from(p, ns, s, 2) == Ok::<Seq<Finding>, Missing>(seq![]));
    let b = node_outcome(p, second, s)->Ok_0;
    assert(b + seq![] =~= b);
    assert(nodes_from(p, ns, s, 1) == Ok::<Seq<Finding>, Missing>(b));
}

/// Checks accumulate: a file that is both of the wrong length and without a
/// match for its pattern gets both problems, in the order they are declared.
pub proof fn lemma_problems_accumulate(
    root: Seq<char>,
    name: Seq<char>,
    n: u64,
    r: Seq<char>,
    f: FileModel,
    t: Seq<char>,
    s: Seq<(Seq<char>, Observed)>,
)
    requires
        observed_from(s, joined(root, name), 0) == Some(Observed::File(f)),
        f.len != n,
        f.text == Some(t),
        !regex_finds(r, t),
    ensures
        node_outcome(root, Node::FilePresent(name, seq![Expect::Length(n), Expect::Regex(r)]), s)
            == Ok::<Seq<Finding>, Missing>(
            seq![
                Finding::IncorrectLength { path: joined(root, name), expected: n, actual: f.len },
                Finding::RegexNotMatched { path: joined(root, name), regex: r },
            ],
        ),
{
    let p = joined(root, name);
    let es = seq![Expect::Length(n), Expect::Regex(r)];
    let a = Finding::IncorrectLength { path: p, expected: n, actual: f.len };
    let b = Finding::RegexNotMatched { path: p, regex: r };
    assert(expects_from(p, es, f, 2) == Ok::<Seq<Finding>, Missing>(seq![]));
    assert(seq![b] + seq![] =~= seq![b]);
    assert(expects_from(p, es, f, 1) == Ok::<Seq<Finding>, Missing>(seq![b]));
    assert(seq![a] + seq![b] =~= seq![a, b]);
}

/// Presence and absence are symmetric: against an existing file, expecting
/// it (with no content checks) finds nothing, and forbidding it finds
/// exactly one disallowed file.
pub proof fn lemma_presence_absence(
    root: Seq<char>,
    name: Seq<char>,
    f: FileModel,
    s: Seq<(Seq<char>, Observed)>,
)
    requires
        observed_from(s, joined(root, name), 0) == Some(Observed::File(f)),
    ensures
        node_outcome(root, Node::FilePresent(name, seq![]), s) == Ok::<Seq<Finding>, Missing>(
            seq![],
        ),
        node_outcome(root, Node::FileNotPresent(name), s) == Ok::<Seq<Finding>, Missing>(
            seq![Finding::DisallowedFile(joined(root, name))],
        ),
{
}

/// The snapshot indeed lacks `m`: it holds no entry at the path, or a file
/// there without its text, or without its parse in the format.
pub open spec fn lacks(s: Seq<(Seq<char>, Observed)>, m: Missing) -> bool {
    match m {
        Missing::Entry(p) => observed_from(s, p, 0) is None,
        Missing::Text(p) => observed_from(s, p, 0) matches Some(Observed::File(f)) && f.text is None,
        Missing::Parse(p, fmt) => observed_from(s, p, 0) matches Some(Observed::File(f)) && parsed_from(
            f.parsed,
            fmt,
            0,
        ) is None,
    }
}

proof fn lemma_expects_lack(p: Seq<char>, es: Seq<Expect>, f: FileModel, s: Seq<(Seq<char>, Observed)>, i: int)
    requires
        observed_from(s, p, 0) == Some(Observed::File(f)),
    ensures
        expects_from(p, es, f, i) matches Err(m) ==> lacks(s, m),
    decreases es.len() - i,
{
    if 0 <= i < es.len() {
        lemma_expects_lack(p, es, f, s, i + 1);
    }
}

proof fn lemma_node_lacks(root: Seq<char>, n: Node, s: Seq<(Seq<char>, Observed)>)
    ensures
        node_outcome(root, n, s) matches Err(m) ==> lacks(s, m),
    decreases n, 0int,
{
    match n {
        Node::FilePresent(name, es) => {
            let p = joined(root, name);
            if let Some(Observed::File(f)) = observed_from(s, p, 0) {
                lemma_expects_lack(p, es, f, s, 0);
            }
        },
        Node::FolderPresent(name, children) => {
            lemma_nodes_lack(joined(root, name), children, s, 0);
        },
        _ => {},
    }
}

proof fn lemma_nodes_lack(root: Seq<char>, ns: Seq<Node>, s: Seq<(Seq<char>, Observed)>, i: int)
    ensures
        nodes_from(root, ns, s, i) matches Err(m) ==> lacks(s, m),
    decreases ns, ns.len() - i,
{
    if 0 <= i < ns.len() {
        lemma_node_lacks(root, ns[i], s);
        lemma_nodes_lack(root, ns, s, i + 1);
    }
}

/// A check that stops for want of an observation names one that the
/// snapshot does not hold yet: adding it to the snapshot always adds
/// something new.
pub proof fn lemma_missing_observation_is_absent(root: Seq<char>, ns: Seq<Node>, s: Seq<(Seq<char>, Observed)>)
    ensures
        nodes_from(root, ns, s, 0) matches Err(m) ==> lacks(s, m),
{
    lemma_nodes_lack(root, ns, s, 0);
}

} // verus!
