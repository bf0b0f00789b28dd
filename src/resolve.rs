//! Resolution of a config document and the documents it includes
//! into one flat list of check items.
use vstd::prelude::*;
use crate::items::{items_nodes, CheckItem};
use crate::tree::Node;

verus! {

/// A config document: its own items, and the references (URLs) of
/// the documents it includes.
#[derive(Debug)]
pub struct Config {
    pub config: Vec<CheckItem>,
    pub includes: Vec<String>,
}

/// The mathematical model of a [`Config`].
pub struct ConfigModel {
    pub items: Seq<Node>,
    pub includes: Seq<Seq<char>>,
}

impl View for Config {
    type V = ConfigModel;

    open spec fn view(&self) -> ConfigModel {
        ConfigModel {
            items: items_nodes(self.config@),
            includes: self.includes@.map_values(|u: String| u@),
        }
    }
}

/// The documents fetched so far, each under the reference it was fetched by.
#[derive(Debug)]
pub struct Fetched {
    pub documents: Vec<(String, Config)>,
}

impl View for Fetched {
    type V = Seq<(Seq<char>, ConfigModel)>;

    open spec fn view(&self) -> Seq<(Seq<char>, ConfigModel)> {
        self.documents@.map_values(|d: (String, Config)| (d.0@, d.1@))
    }
}

/// Why resolution stopped.
#[derive(Debug)]
pub enum ResolveError {
    /// The document at this reference has not been fetched yet.
    NotFetched(String),
    /// The document at this reference includes itself, directly or not.
    Cycle(String),
}

/// The model of a [`ResolveError`].
pub enum Failure {
    NotFetched(Seq<char>),
    Cycle(Seq<char>),
}

impl View for ResolveError {
    type V = Failure;

    open spec fn view(&self) -> Failure {
        match *self {
            ResolveError::NotFetched(u) => Failure::NotFetched(u@),
            ResolveError::Cycle(u) => Failure::Cycle(u@),
        }
    }
}

pub type Resolution = Result<Seq<Node>, Failure>;

/// `a` followed by `b`; the first failure ends resolution.
pub open spec fn then(a: Resolution, b: Resolution) -> Resolution {
    match a {
        Err(e) => Err(e),
        Ok(x) => match b {
            Err(e) => Err(e),
            Ok(y) => Ok(x + y),
        },
    }
}

/// The document fetched by `url`, from position `i` on (the first wins).
pub open spec fn document_from(docs: Seq<(Seq<char>, ConfigModel)>, url: Seq<char>, i: int) -> Option<
    ConfigModel,
>
    decreases docs.len() - i,
{
    if 0 <= i < docs.len() {
        if docs[i].0 == url {
            Some(docs[i].1)
        } else {
            document_from(docs, url, i + 1)
        }
    } else {
        None
    }
}

/// The items of `c`, followed by the resolved items of each of its
/// includes in declaration order. `path` holds the references being
/// resolved around `c`. `depth` bounds the nesting so that the definition
/// is well founded; from the number of fetched documents on it never runs
/// out (see `lemma_depth_suffices`).
pub open spec fn resolved(
    c: ConfigModel,
    docs: Seq<(Seq<char>, ConfigModel)>,
    path: Seq<Seq<char>>,
    depth: nat,
) -> Resolution
    decreases depth, c.includes.len() + 1,
{
    then(Ok(c.items), includes_from(c.includes, 0, docs, path, depth))
}

/// The resolved items of the includes `urls[i..]`, in order.
pub open spec fn includes_from(
    urls: Seq<Seq<char>>,
    i: int,
    docs: Seq<(Seq<char>, ConfigModel)>,
    path: Seq<Seq<char>>,
    depth: nat,
) -> Resolution
    decreases depth, urls.len() - i,
{
    if 0 <= i < urls.len() {
        let url = urls[i];
        if path.contains(url) {
            Err(Failure::Cycle(url))
        } else {
            match document_from(docs, url, 0) {
                None => Err(Failure::NotFetched(url)),
                Some(d) => if depth == 0 {
                    Err(Failure::Cycle(url))
                } else {
                    then(
                        resolved(d, docs, path.push(url), (depth - 1) as nat),
                        includes_from(urls, i + 1, docs, path, depth),
                    )
                },
            }
        }
    } else {
        Ok(seq![])
    }
}

/// The resolution of the root document `c` against the fetched documents.
pub open spec fn resolution(c: ConfigModel, docs: Seq<(Seq<char>, ConfigModel)>) -> Resolution {
    resolved(c, docs, seq![], docs.len())
}

pub open spec fn refs_view(refs: Seq<String>) -> Seq<Seq<char>> {
    refs.map_values(|u: String| u@)
}

/// `after` is `before` with the items of `o` appended, where `o`
/// succeeded; otherwise `r` is the failure of `o`.
pub open spec fn appends(before: Seq<CheckItem>, after: Seq<CheckItem>, r: Result<(), ResolveError>, o: Resolution) -> bool {
    match o {
        Ok(s) => r is Ok && items_nodes(after) == items_nodes(before) + s,
        Err(e) => r matches Err(x) && x@ == e,
    }
}

proof fn lemma_then_assoc(acc: Seq<Node>, a: Resolution, b: Resolution)
    ensures
        then(Ok(acc), then(a, b)) == then(then(Ok(acc), a), b),
{
    if let Ok(x) = a {
        if let Ok(y) = b {
            assert(acc + (x + y) =~= (acc + x) + y);
        }
    }
}

/// Whether `url` is one of `path`.
fn on_path(path: &Vec<String>, url: &String) -> (r: bool)
    ensures
        r == refs_view(path@).contains(url@),
{
    let mut i: usize = 0;
    while i < path.len()
        invariant
            i <= path.len(),
            forall|m: int| 0 <= m < i ==> refs_view(path@)[m] != url@,
        decreases path.len() - i,
    {
        if path[i] == *url {
            assert(refs_view(path@)[i as int] == url@);
            return true;
        }
        i = i + 1;
    }
    false
}

/// `path` with `url` added at its end.
fn extend_path(path: &Vec<String>, url: &String) -> (r: Vec<String>)
    ensures
        refs_view(r@) == refs_view(path@).push(url@),
{
    let mut out: Vec<String> = Vec::new();
    let mut i: usize = 0;
    while i < path.len()
        invariant
            i <= path.len(),
            out.len() == i,
            forall|m: int| 0 <= m < i ==> (#[trigger] out@[m])@ == path@[m]@,
        decreases path.len() - i,
    {
        out.push(path[i].clone());
        i = i + 1;
    }
    out.push(url.clone());
    assert(refs_view(out@) =~= refs_view(path@).push(url@));
    out
}

/// The position of the document fetched by `url`.
fn find_document(fetched: &Fetched, url: &String) -> (r: Option<usize>)
    ensures
        match r {
            Some(i) => i < fetched.documents.len() && document_from(fetched@, url@, 0) == Some(
                fetched.documents@[i as int].1@,
            ),
            None => document_from(fetched@, url@, 0) is None,
        },
{
    let mut i: usize = 0;
    while i < fetched.documents.len()
        invariant
            i <= fetched.documents.len(),
            document_from(fetched@, url@, 0) == document_from(fetched@, url@, i as int),
        decreases fetched.documents.len() - i,
    {
        if fetched.documents[i].0 == *url {
            return Some(i);
        }
        i = i + 1;
    }
    None
}

/// Appends copies of `items` to `out`.
fn append_items(items: &Vec<CheckItem>, out: &mut Vec<CheckItem>)
    ensures
        items_nodes(final(out)@) == items_nodes(old(out)@) + items_nodes(items@),
{
    let ghost start = out@;
    let mut i: usize = 0;
    while i < items.len()
        invariant
            i <= items.len(),
            out.len() == start.len() + i,
            forall|m: int| 0 <= m < start.len() ==> (#[trigger] out@[m])@ == start[m]@,
            forall|m: int| 0 <= m < i ==> (#[trigger] out@[start.len() + m])@ == items@[m]@,
        decreases items.len() - i,
    {
        out.push(items[i].copy());
        i = i + 1;
    }
    assert forall|m: int| start.len() <= m < out.len() implies (#[trigger] out@[m])@ == items@[m - start.len()]@ by {
        let k = m - start.len();
        assert(out@[start.len() + k] == out@[m]);
    }
    assert(items_nodes(out@) =~= items_nodes(start) + items_nodes(items@));
}

/// Appends the resolved items of `c` to `out`, as [`resolved`] states.
fn resolve_into(
    c: &Config,
    fetched: &Fetched,
    path: &Vec<String>,
    depth: usize,
    out: &mut Vec<CheckItem>,
) -> (r: Result<(), ResolveError>)
    ensures
        appends(old(out)@, final(out)@, r, resolved(c@, fetched@, refs_view(path@), depth as nat)),
    decreases depth,
{
    let ghost docs = fetched@;
    let ghost p = refs_view(path@);
    let ghost urls = c@.includes;
    let ghost start = items_nodes(out@);
    append_items(&c.config, out);
    let ghost mut acc: Seq<Node> = c@.items;
    let mut i: usize = 0;
    while i < c.includes.len()
        invariant
            i <= c.includes.len(),
            docs == fetched@,
            p == refs_view(path@),
            urls == c@.includes,
            urls == refs_view(c.includes@),
            items_nodes(out@) == start + acc,
            resolved(c@, docs, p, depth as nat) == then(
                Ok(acc),
                includes_from(urls, i as int, docs, p, depth as nat),
            ),
        decreases c.includes.len() - i,
    {
        let url = &c.includes[i];
        assert(urls[i as int] == url@);
        if on_path(path, url) {
            return Err(ResolveError::Cycle(url.clone()));
        }
        match find_document(fetched, url) {
            None => {
                return Err(ResolveError::NotFetched(url.clone()));
            },
            Some(k) => {
                if depth == 0 {
                    return Err(ResolveError::Cycle(url.clone()));
                }
                let inner = extend_path(path, url);
                let ghost d = fetched.documents@[k as int].1@;
                let ghost rest = includes_from(urls, i + 1, docs, p, depth as nat);
                let ghost sub = resolved(d, docs, p.push(url@), (depth - 1) as nat);
                proof {
                    lemma_then_assoc(acc, sub, rest);
                }
                let r = resolve_into(&fetched.documents[k].1, fetched, &inner, depth - 1, out);
                if r.is_err() {
                    return r;
                }
                proof {
                    let s = sub->Ok_0;
                    assert(start + (acc + s) =~= (start + acc) + s);
                    acc = acc + s;
                }
            },
        }
        i = i + 1;
    }
    assert(acc + seq![] =~= acc);
    Ok(())
}

impl Config {
    /// The items of this document followed by those of the documents it
    /// includes, resolved in turn, in declaration order, as [`resolution`]
    /// states. Where a document has not been fetched yet, the error names
    /// it: fetch it and resolve again.
    pub fn resolve(&self, fetched: &Fetched) -> (r: Result<Vec<CheckItem>, ResolveError>)
        ensures
            match resolution(self@, fetched@) {
                Ok(s) => r matches Ok(v) && items_nodes(v@) == s,
                Err(e) => r matches Err(x) && x@ == e,
            },
    {
        let mut out: Vec<CheckItem> = Vec::new();
        let path: Vec<String> = Vec::new();
        assert(refs_view(path@) =~= seq![]);
        let r = resolve_into(self, fetched, &path, fetched.documents.len(), &mut out);
        assert(items_nodes(Seq::<CheckItem>::empty()) + items_nodes(out@) =~= items_nodes(out@));
        match r {
            Ok(()) => Ok(out),
            Err(e) => Err(e),
        }
    }
}

/// Resolution flattens: a root document with items `a` that includes one
/// document with items `b` (which includes nothing further) resolves to `a`
/// followed by `b`.
pub proof fn lemma_resolution_flattens(
    a: Seq<Node>,
    url: Seq<char>,
    d: ConfigModel,
    docs: Seq<(Seq<char>, ConfigModel)>,
)
    requires
        document_from(docs, url, 0) == Some(d),
        d.includes.len() == 0,
    ensures
        resolution(ConfigModel { items: a, includes: seq![url] }, docs) == Ok::<Seq<Node>, Failure>(
            a + d.items,
        ),
{
    let c = ConfigModel { items: a, includes: seq![url] };
    let depth = docs.len();
    assert(depth > 0);
    assert(!Seq::<Seq<char>>::empty().contains(url));
    let p = Seq::<Seq<char>>::empty().push(url);
    let inner = includes_from(d.includes, 0, docs, p, (depth - 1) as nat);
    assert(inner == Ok::<Seq<Node>, Failure>(seq![]));
    let sub = resolved(d, docs, p, (depth - 1) as nat);
    assert(d.items + seq![] =~= d.items);
    assert(sub == Ok::<Seq<Node>, Failure>(d.items));
    let rest = includes_from(c.includes, 1, docs, seq![], depth);
    assert(rest == Ok::<Seq<Node>, Failure>(seq![]));
    let all = includes_from(c.includes, 0, docs, seq![], depth);
    assert(c.includes[0] == url);
    assert(all == then(sub, rest));
    assert(all == Ok::<Seq<Node>, Failure>(d.items));
}

proof fn lemma_includes_unfetched(
    urls: Seq<Seq<char>>,
    i: int,
    docs: Seq<(Seq<char>, ConfigModel)>,
    path: Seq<Seq<char>>,
    depth: nat,
)
    ensures
        includes_from(urls, i, docs, path, depth) matches Err(Failure::NotFetched(u)) ==> document_from(
            docs,
            u,
            0,
        ) is None,
    decreases depth, urls.len() - i,
{
    if 0 <= i < urls.len() {
        let url = urls[i];
        if !path.contains(url) {
            if let Some(d) = document_from(docs, url, 0) {
                if depth > 0 {
                    lemma_resolved_unfetched(d, docs, path.push(url), (depth - 1) as nat);
                    lemma_includes_unfetched(urls, i + 1, docs, path, depth);
                }
            }
        }
    }
}

proof fn lemma_resolved_unfetched(
    c: ConfigModel,
    docs: Seq<(Seq<char>, ConfigModel)>,
    path: Seq<Seq<char>>,
    depth: nat,
)
    ensures
        resolved(c, docs, path, depth) matches Err(Failure::NotFetched(u)) ==> document_from(
            docs,
            u,
            0,
        ) is None,
    decreases depth, c.includes.len() + 1,
{
    lemma_includes_unfetched(c.includes, 0, docs, path, depth);
}

/// A resolution that stops for want of a document names one that has not
/// been fetched yet: fetching it always adds something new.
pub proof fn lemma_unfetched_is_absent(c: ConfigModel, docs: Seq<(Seq<char>, ConfigModel)>)
    ensures
        resolution(c, docs) matches Err(Failure::NotFetched(u)) ==> document_from(docs, u, 0) is None,
{
    lemma_resolved_unfetched(c, docs, seq![], docs.len());
}

/// The references under which documents were fetched.
pub open spec fn fetched_refs(docs: Seq<(Seq<char>, ConfigModel)>) -> Set<Seq<char>> {
    docs.map_values(|d: (Seq<char>, ConfigModel)| d.0).to_set()
}

/// `path` holds distinct references, each of a fetched document.
pub open spec fn sound_path(docs: Seq<(Seq<char>, ConfigModel)>, path: Seq<Seq<char>>) -> bool {
    &&& path.no_duplicates()
    &&& forall|k: int| 0 <= k < path.len() ==> fetched_refs(docs).contains(#[trigger] path[k])
}

proof fn lemma_document_ref(docs: Seq<(Seq<char>, ConfigModel)>, url: Seq<char>, i: int)
    requires
        document_from(docs, url, i) is Some,
    ensures
        fetched_refs(docs).contains(url),
    decreases docs.len() - i,
{
    if 0 <= i < docs.len() {
        if docs[i].0 == url {
            let keys = docs.map_values(|d: (Seq<char>, ConfigModel)| d.0);
            assert(keys[i] == url);
        } else {
            lemma_document_ref(docs, url, i + 1);
        }
    }
}

/// A sound path extended by a fetched reference not on it stays within the
/// number of fetched documents.
proof fn lemma_path_bound(docs: Seq<(Seq<char>, ConfigModel)>, path: Seq<Seq<char>>, url: Seq<char>)
    requires
        sound_path(docs, path),
        !path.contains(url),
        fetched_refs(docs).contains(url),
    ensures
        sound_path(docs, path.push(url)),
        path.len() + 1 <= docs.len(),
{
    let longer = path.push(url);
    assert forall|a: int, b: int| 0 <= a < longer.len() && 0 <= b < longer.len() && a != b implies longer[a]
        != longer[b] by {
        if a == path.len() {
            assert(path[b] == longer[b]);
        } else if b == path.len() {
            assert(path[a] == longer[a]);
        }
    }
    assert forall|k: int| 0 <= k < longer.len() implies fetched_refs(docs).contains(#[trigger] longer[k]) by {
        if k < path.len() {
            assert(longer[k] == path[k]);
        }
    }
    let keys = docs.map_values(|d: (Seq<char>, ConfigModel)| d.0);
    longer.unique_seq_to_set();
    keys.lemma_cardinality_of_set();
    assert(longer.to_set().subset_of(keys.to_set()));
    vstd::set_lib::lemma_len_subset(longer.to_set(), keys.to_set());
}

proof fn lemma_includes_depth(
    urls: Seq<Seq<char>>,
    i: int,
    docs: Seq<(Seq<char>, ConfigModel)>,
    path: Seq<Seq<char>>,
    d1: nat,
    d2: nat,
)
    requires
        sound_path(docs, path),
        d1 + path.len() >= docs.len(),
        d1 <= d2,
    ensures
        includes_from(urls, i, docs, path, d1) == includes_from(urls, i, docs, path, d2),
    decreases d1, urls.len() - i,
{
    if 0 <= i < urls.len() {
        let url = urls[i];
        if !path.contains(url) {
            if let Some(d) = document_from(docs, url, 0) {
                lemma_document_ref(docs, url, 0);
                lemma_path_bound(docs, path, url);
                assert(d1 > 0);
                lemma_resolved_depth(d, docs, path.push(url), (d1 - 1) as nat, (d2 - 1) as nat);
                lemma_includes_depth(urls, i + 1, docs, path, d1, d2);
            }
        }
    }
}

proof fn lemma_resolved_depth(
    c: ConfigModel,
    docs: Seq<(Seq<char>, ConfigModel)>,
    path: Seq<Seq<char>>,
    d1: nat,
    d2: nat,
)
    requires
        sound_path(docs, path),
        d1 + path.len() >= docs.len(),
        d1 <= d2,
    ensures
        resolved(c, docs, path, d1) == resolved(c, docs, path, d2),
    decreases d1, c.includes.len() + 1,
{
    lemma_includes_depth(c.includes, 0, docs, path, d1, d2);
}

/// The depth bound never decides the outcome: allowing deeper nesting than
/// the number of fetched documents changes nothing, so every failure is a
/// missing document or a genuine cycle.
pub proof fn lemma_depth_suffices(c: ConfigModel, docs: Seq<(Seq<char>, ConfigModel)>, extra: nat)
    ensures
        resolution(c, docs) == resolved(c, docs, seq![], docs.len() + extra),
{
    let empty = Seq::<Seq<char>>::empty();
    assert(sound_path(docs, empty));
    lemma_resolved_depth(c, docs, empty, docs.len(), docs.len() + extra);
}

/// The document fetched by `url` resolves to `r` when the root includes it
/// (so that `url` is the one reference being resolved around it).
pub open spec fn include_resolves_to(docs: Seq<(Seq<char>, ConfigModel)>, url: Seq<char>, r: Seq<Node>) -> bool {
    match document_from(docs, url, 0) {
        Some(d) => resolved(d, docs, seq![url], (docs.len() - 1) as nat) == Ok::<Seq<Node>, Failure>(r),
        None => false,
    }
}

/// The concatenation of `rs[i..]`, in order.
pub open spec fn concat_from(rs: Seq<Seq<Node>>, i: int) -> Seq<Node>
    decreases rs.len() - i,
{
    if 0 <= i < rs.len() {
        rs[i] + concat_from(rs, i + 1)
    } else {
        seq![]
    }
}

proof fn lemma_includes_concat(
    urls: Seq<Seq<char>>,
    i: int,
    docs: Seq<(Seq<char>, ConfigModel)>,
    rs: Seq<Seq<Node>>,
)
    requires
        0 <= i <= urls.len(),
        rs.len() == urls.len(),
        forall|k: int| 0 <= k < urls.len() ==> include_resolves_to(docs, #[trigger] urls[k], rs[k]),
    ensures
        includes_from(urls, i, docs, seq![], docs.len()) == Ok::<Seq<Node>, Failure>(concat_from(rs, i)),
    decreases urls.len() - i,
{
    if i < urls.len() {
        lemma_includes_concat(urls, i + 1, docs, rs);
        let url = urls[i];
        assert(include_resolves_to(docs, url, rs[i]));
        assert(document_from(docs, url, 0) is Some);
        assert(docs.len() > 0);
        assert(!Seq::<Seq<char>>::empty().contains(url));
        assert(Seq::<Seq<char>>::empty().push(url) =~= seq![url]);
    }
}

/// Resolution flattens depth first: the root's items come first, then, for
/// each include in declaration order, all the items that include resolves
/// to (its own items, then those of its includes, and so on), with nothing
/// recording where an item came from. `rs[k]` is what the `k`-th include
/// resolves to.
pub proof fn lemma_resolution_flattens_in_order(
    c: ConfigModel,
    docs: Seq<(Seq<char>, ConfigModel)>,
    rs: Seq<Seq<Node>>,
)
    requires
        rs.len() == c.includes.len(),
        forall|k: int|
            0 <= k < c.includes.len() ==> include_resolves_to(docs, #[trigger] c.includes[k], rs[k]),
    ensures
        resolution(c, docs) == Ok::<Seq<Node>, Failure>(c.items + concat_from(rs, 0)),
{
    lemma_includes_concat(c.includes, 0, docs, rs);
}

} // verus!
