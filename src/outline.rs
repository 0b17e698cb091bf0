//! Builds a nested outline from a document's flat, ordered heading list.
use vstd::prelude::*;

verus! {

/// The depth of a heading: 1 is outermost.
#[derive(Clone, Copy, Debug, PartialEq, Eq, PartialOrd, Ord, Hash, Default)]
pub struct HeadingLevel(pub usize);

/// A zero-based position in a document.
#[derive(Clone, Copy, Debug, PartialEq, Eq, Hash, Default)]
pub struct Position {
    pub line: u32,
    pub character: u32,
}

/// A span in a document.
#[derive(Clone, Copy, Debug, PartialEq, Eq, Hash, Default)]
pub struct Range {
    pub start: Position,
    pub end: Position,
}

/// One heading of a document.
#[derive(Clone, Debug, PartialEq, Eq, Hash, Default)]
pub struct MDHeading {
    pub level: HeadingLevel,
    pub heading_text: String,
    pub range: Range,
}

impl MDHeading {
    /// A copy of the heading, field for field.
    pub fn duplicate(&self) -> (r: MDHeading)
        ensures
            r == *self,
    {
        MDHeading { level: self.level, heading_text: self.heading_text.clone(), range: self.range }
    }
}

/// A heading together with the headings nested under it. A leaf has
/// `children == None`, never an empty list.
#[derive(Debug, PartialEq, Eq)]
pub struct Node {
    pub heading: MDHeading,
    pub children: Option<Vec<Node>>,
}

/// The first position in `lo..hi` whose heading is at `level` or shallower,
/// or `hi` when there is none.
pub open spec fn break_point(s: Seq<MDHeading>, level: usize, lo: int, hi: int) -> int
    decreases hi - lo,
{
    if lo >= hi {
        hi
    } else if s[lo].level.0 <= level {
        lo
    } else {
        break_point(s, level, lo + 1, hi)
    }
}

proof fn lemma_break_point_bounds(s: Seq<MDHeading>, level: usize, lo: int, hi: int)
    requires
        lo <= hi,
    ensures
        lo <= break_point(s, level, lo, hi) <= hi,
        forall|t: int| lo <= t < break_point(s, level, lo, hi) ==> s[t].level.0 > level,
    decreases hi - lo,
{
    if lo < hi && s[lo].level.0 > level {
        lemma_break_point_bounds(s, level, lo + 1, hi);
    }
}

/// The nodes `f[k..]` are the outline of the headings `s[lo..hi]`: the first
/// heading owns every following heading up to its break point as children
/// (none when that run is empty), and the headings from the break point on
/// are its following siblings.
pub open spec fn builds(s: Seq<MDHeading>, lo: int, hi: int, f: Seq<Node>, k: int) -> bool
    decreases hi - lo,
{
    if 0 <= lo < hi && 0 <= k < f.len() {
        let b = break_point(s, s[lo].level.0, lo + 1, hi);
        if lo + 1 <= b <= hi {
            &&& f[k].heading == s[lo]
            &&& if b == lo + 1 {
                f[k].children is None
            } else {
                f[k].children is Some && builds(s, lo + 1, b, f[k].children.unwrap()@, 0)
            }
            &&& if b < hi {
                builds(s, b, hi, f, k + 1)
            } else {
                f.len() == k + 1
            }
        } else {
            false
        }
    } else {
        false
    }
}

/// `f` is the outline of the whole heading sequence `s`.
pub open spec fn is_outline(s: Seq<MDHeading>, f: Seq<Node>) -> bool {
    builds(s, 0, s.len() as int, f, 0)
}

/// Pre-order reading of a node: its heading, then its children's.
pub open spec fn node_preorder(n: Node) -> Seq<MDHeading>
    decreases n, 0int,
{
    match n.children {
        Some(v) => seq![n.heading] + forest_preorder(v@, 0),
        None => seq![n.heading],
    }
}

/// Pre-order reading of the nodes `f[k..]`.
pub open spec fn forest_preorder(f: Seq<Node>, k: int) -> Seq<MDHeading>
    decreases f, f.len() - k,
{
    if 0 <= k < f.len() {
        node_preorder(f[k]) + forest_preorder(f, k + 1)
    } else {
        Seq::empty()
    }
}

/// Appends to `out` the outline of `headings[lo..hi]`, each heading in order.
fn build_into(headings: &[MDHeading], lo: usize, hi: usize, out: &mut Vec<Node>)
    requires
        lo < hi <= headings@.len(),
    ensures
        final(out)@.len() > old(out)@.len(),
        final(out)@.subrange(0, old(out)@.len() as int) == old(out)@,
        builds(headings@, lo as int, hi as int, final(out)@, old(out)@.len() as int),
    decreases hi - lo,
{
    let level = headings[lo].level.0;
    let mut b: usize = lo + 1;
    while b < hi && headings[b].level.0 > level
        invariant
            lo + 1 <= b <= hi,
            hi <= headings@.len(),
            level == headings@[lo as int].level.0,
            break_point(headings@, level, lo + 1, hi as int) == break_point(
                headings@,
                level,
                b as int,
                hi as int,
            ),
        decreases hi - b,
    {
        b = b + 1;
    }
    let children = if b == lo + 1 {
        None
    } else {
        let mut v: Vec<Node> = Vec::new();
        build_into(headings, lo + 1, b, &mut v);
        Some(v)
    };
    let ghost start = out@.len();
    out.push(Node { heading: headings[lo].duplicate(), children });
    if b < hi {
        let ghost mid = out@;
        build_into(headings, b, hi, out);
        assert(out@[start as int] == mid[start as int]);
        assert(out@.subrange(0, start as int) =~= mid.subrange(0, start as int));
    }
}

/// Builds the outline of a document's headings, given in document order.
/// An empty input has no outline.
pub fn construct_tree(headings: &[MDHeading]) -> (r: Option<Vec<Node>>)
    ensures
        r is None <==> headings@.len() == 0,
        r matches Some(f) ==> is_outline(headings@, f@),
{
    if headings.len() == 0 {
        None
    } else {
        let mut out: Vec<Node> = Vec::new();
        build_into(headings, 0, headings.len(), &mut out);
        Some(out)
    }
}

proof fn lemma_builds_preorder(s: Seq<MDHeading>, lo: int, hi: int, f: Seq<Node>, k: int)
    requires
        builds(s, lo, hi, f, k),
        hi <= s.len(),
    ensures
        forest_preorder(f, k) == s.subrange(lo, hi),
    decreases hi - lo,
{
    let b = break_point(s, s[lo].level.0, lo + 1, hi);
    let n = f[k];
    match n.children {
        Some(v) => {
            lemma_builds_preorder(s, lo + 1, b, v@, 0);
        },
        None => {},
    }
    assert(node_preorder(n) =~= s.subrange(lo, b));
    if b < hi {
        lemma_builds_preorder(s, b, hi, f, k + 1);
    } else {
        assert(forest_preorder(f, k + 1) =~= Seq::empty());
    }
    assert(s.subrange(lo, b) + s.subrange(b, hi) =~= s.subrange(lo, hi));
}

/// Reading the outline of a heading sequence in pre-order (each node before
/// its children, siblings in order) gives back exactly that sequence.
pub proof fn lemma_outline_preorder(s: Seq<MDHeading>, f: Seq<Node>)
    requires
        is_outline(s, f),
    ensures
        forest_preorder(f, 0) == s,
{
    lemma_builds_preorder(s, 0, s.len() as int, f, 0);
    assert(s.subrange(0, s.len() as int) =~= s);
}

proof fn lemma_builds_headings_from(s: Seq<MDHeading>, lo: int, hi: int, f: Seq<Node>, k: int)
    requires
        builds(s, lo, hi, f, k),
        hi <= s.len(),
    ensures
        forall|i: int|
            #![trigger f[i]]
            k <= i < f.len() ==> exists|t: int| lo <= t < hi && f[i].heading == #[trigger] s[t],
    decreases hi - lo,
{
    let b = break_point(s, s[lo].level.0, lo + 1, hi);
    assert(f[k].heading == s[lo]);
    if b < hi {
        lemma_builds_headings_from(s, b, hi, f, k + 1);
    }
}

proof fn lemma_builds_children_deeper(s: Seq<MDHeading>, lo: int, hi: int, f: Seq<Node>, k: int)
    requires
        builds(s, lo, hi, f, k),
        hi <= s.len(),
    ensures
        forall|i: int, j: int|
            k <= i < f.len() && f[i].children is Some && 0 <= j < f[i].children.unwrap()@.len()
                ==> #[trigger] f[i].children.unwrap()@[j].heading.level.0 > f[i].heading.level.0,
    decreases hi - lo,
{
    let level = s[lo].level.0;
    let b = break_point(s, level, lo + 1, hi);
    lemma_break_point_bounds(s, level, lo + 1, hi);
    if let Some(v) = f[k].children {
        lemma_builds_headings_from(s, lo + 1, b, v@, 0);
        assert forall|j: int| 0 <= j < v@.len() implies #[trigger] v@[j].heading.level.0 > level by {
            let t = choose|t: int| lo + 1 <= t < b && v@[j].heading == s[t];
        }
    }
    if b < hi {
        lemma_builds_children_deeper(s, b, hi, f, k + 1);
    }
}

/// In an outline, every child is strictly deeper than its parent, so two
/// headings of equal level are never parent and child: they are siblings.
/// The children of a node are themselves the outline of a run of the
/// sequence, so this holds at every depth.
pub proof fn lemma_outline_children_deeper(s: Seq<MDHeading>, f: Seq<Node>)
    requires
        is_outline(s, f),
    ensures
        forall|i: int, j: int|
            0 <= i < f.len() && f[i].children is Some && 0 <= j < f[i].children.unwrap()@.len()
                ==> #[trigger] f[i].children.unwrap()@[j].heading.level.0 > f[i].heading.level.0,
        forall|i: int|
            0 <= i < f.len() && f[i].children is Some ==> exists|lo: int, hi: int|
                0 <= lo < hi <= s.len() && #[trigger] builds(s, lo, hi, f[i].children.unwrap()@, 0),
{
    lemma_builds_children_deeper(s, 0, s.len() as int, f, 0);
    lemma_builds_children_nested(s, 0, s.len() as int, f, 0);
}

proof fn lemma_builds_children_nested(s: Seq<MDHeading>, lo: int, hi: int, f: Seq<Node>, k: int)
    requires
        builds(s, lo, hi, f, k),
        hi <= s.len(),
    ensures
        forall|i: int|
            k <= i < f.len() && f[i].children is Some ==> exists|lo2: int, hi2: int|
                lo <= lo2 < hi2 <= hi && #[trigger] builds(s, lo2, hi2, f[i].children.unwrap()@, 0),
    decreases hi - lo,
{
    let level = s[lo].level.0;
    let b = break_point(s, level, lo + 1, hi);
    if let Some(v) = f[k].children {
        assert(builds(s, lo + 1, b, v@, 0));
    }
    if b < hi {
        lemma_builds_children_nested(s, b, hi, f, k + 1);
    }
}

/// Every child of `n`, at any depth, is strictly deeper than its parent; so
/// every heading under `n` is deeper than each of its ancestors.
pub open spec fn nested_deeper(n: Node) -> bool
    decreases n, 0int,
{
    match n.children {
        None => true,
        Some(v) => (forall|j: int| 0 <= j < v@.len() ==> #[trigger] v@[j].heading.level.0 > n.heading.level.0)
            && forest_nested_deeper(v@, 0),
    }
}

/// `nested_deeper` holds of every node of `f[k..]`.
pub open spec fn forest_nested_deeper(f: Seq<Node>, k: int) -> bool
    decreases f, f.len() - k,
{
    if 0 <= k < f.len() {
        nested_deeper(f[k]) && forest_nested_deeper(f, k + 1)
    } else {
        true
    }
}

proof fn lemma_builds_nested_deeper(s: Seq<MDHeading>, lo: int, hi: int, f: Seq<Node>, k: int)
    requires
        builds(s, lo, hi, f, k),
        hi <= s.len(),
    ensures
        forest_nested_deeper(f, k),
    decreases hi - lo,
{
    let level = s[lo].level.0;
    let b = break_point(s, level, lo + 1, hi);
    lemma_builds_children_deeper(s, lo, hi, f, k);
    if let Some(v) = f[k].children {
        lemma_builds_nested_deeper(s, lo + 1, b, v@, 0);
        assert forall|j: int| 0 <= j < v@.len() implies #[trigger] v@[j].heading.level.0 > f[k].heading.level.0 by {
            assert(f[k].children.unwrap()@[j] == v@[j]);
        }
        assert(nested_deeper(f[k]));
    } else {
        assert(nested_deeper(f[k]));
    }
    if b < hi {
        lemma_builds_nested_deeper(s, b, hi, f, k + 1);
    } else {
        assert(forest_nested_deeper(f, k + 1));
    }
}

/// In an outline, at every depth, each heading is strictly deeper than every
/// heading above it: two headings of equal level are never ancestor and
/// descendant, so they are siblings or in different branches.
pub proof fn lemma_outline_nested_deeper(s: Seq<MDHeading>, f: Seq<Node>)
    requires
        is_outline(s, f),
    ensures
        forest_nested_deeper(f, 0),
{
    lemma_builds_nested_deeper(s, 0, s.len() as int, f, 0);
}


/// The kind an outline entry is reported with.
#[derive(Clone, Copy, Debug, PartialEq, Eq, Structural)]
pub enum DocumentSymbolKind {
    Struct,
}

/// One entry of a document's outline as the editor receives it.
#[derive(Debug, PartialEq, Eq)]
pub struct DocumentSymbol {
    pub name: String,
    pub kind: DocumentSymbolKind,
    pub range: Range,
    pub selection_range: Range,
    pub children: Option<Vec<DocumentSymbol>>,
}

/// `d` reports the node `n`: its heading's text and span, and its children
/// in the same order (none where the node has none).
pub open spec fn reports_node(d: DocumentSymbol, n: Node) -> bool
    decreases n, 0int,
{
    &&& d.name@ == n.heading.heading_text@
    &&& d.kind == DocumentSymbolKind::Struct
    &&& d.range == n.heading.range
    &&& d.selection_range == n.heading.range
    &&& match n.children {
        None => d.children is None,
        Some(v) => d.children matches Some(w) && w@.len() == v@.len() && reports_forest(w@, v@, 0),
    }
}

/// `ds[k..]` reports the nodes `ns[k..]`, one for one.
pub open spec fn reports_forest(ds: Seq<DocumentSymbol>, ns: Seq<Node>, k: int) -> bool
    decreases ns, ns.len() - k,
{
    if 0 <= k < ns.len() {
        k < ds.len() && reports_node(ds[k], ns[k]) && reports_forest(ds, ns, k + 1)
    } else {
        true
    }
}

proof fn lemma_reports_forest(ds: Seq<DocumentSymbol>, ns: Seq<Node>, k: int)
    requires
        0 <= k,
        ds.len() == ns.len(),
        forall|j: int| k <= j < ns.len() ==> reports_node(#[trigger] ds[j], ns[j]),
    ensures
        reports_forest(ds, ns, k),
    decreases ns.len() - k,
{
    if k < ns.len() {
        lemma_reports_forest(ds, ns, k + 1);
    }
}

fn map_to_lsp_tree(tree: &Vec<Node>) -> (r: Vec<DocumentSymbol>)
    ensures
        r@.len() == tree@.len(),
        reports_forest(r@, tree@, 0),
    decreases tree,
{
    let mut r: Vec<DocumentSymbol> = Vec::new();
    let mut i: usize = 0;
    while i < tree.len()
        invariant
            0 <= i <= tree@.len(),
            r@.len() == i,
            forall|j: int| 0 <= j < i ==> reports_node(#[trigger] r@[j], tree@[j]),
        decreases tree@.len() - i,
    {
        let node = &tree[i];
        let children = match &node.children {
            Some(c) => {
                proof {
                    assert(decreases_to!(tree => tree@[i as int]));
                }
                Some(map_to_lsp_tree(c))
            },
            None => None,
        };
        let d = DocumentSymbol {
            name: node.heading.heading_text.clone(),
            kind: DocumentSymbolKind::Struct,
            range: node.heading.range,
            selection_range: node.heading.range,
            children,
        };
        r.push(d);
        i = i + 1;
    }
    proof {
        lemma_reports_forest(r@, tree@, 0);
    }
    r
}

/// `ds` is the outline of the headings `s` as the editor receives it.
pub open spec fn is_symbol_outline(s: Seq<MDHeading>, ds: Seq<DocumentSymbol>) -> bool {
    exists|f: Seq<Node>| #[trigger] is_outline(s, f) && ds.len() == f.len() && reports_forest(ds, f, 0)
}

/// The nested outline of a document's headings, given in document order,
/// for the editor; an empty document has none.
pub fn document_symbol(headings: &[MDHeading]) -> (r: Option<Vec<DocumentSymbol>>)
    ensures
        r is None <==> headings@.len() == 0,
        r matches Some(ds) ==> is_symbol_outline(headings@, ds@),
{
    let tree = construct_tree(headings)?;
    let lsp = map_to_lsp_tree(&tree);
    assert(is_outline(headings@, tree@));
    Some(lsp)
}

} // verus!
