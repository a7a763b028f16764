//! A parsed HTML document as its nodes in document order, each with its
//! depth, and the tree queries the page extractors run over it.
//!
//! The node after `i` whose depth is not greater than `i`'s ends `i`'s
//! subtree; the nearest earlier node of smaller depth is `i`'s parent.

use vstd::prelude::*;
use scraper::{ElementRef, Html, Node};
use crate::text::{chars_of, copy_chars, matches_at, join, join_with, same_chars, trim, trimmed, views};

verus! {

/// What a node of the tree holds.
pub enum NodeKind {
    /// An element: its local name, its attributes as stored, and its inner HTML.
    Element(Vec<char>, Vec<(Vec<char>, Vec<char>)>, Vec<char>),
    /// A text node.
    Text(Vec<char>),
    /// The document node, a comment, a doctype or a processing instruction.
    Other,
}

/// One node, with the number of its ancestors.
pub struct DomNode {
    pub depth: usize,
    pub kind: NodeKind,
}

/// The nodes of a document, from the document node down, in document order.
pub struct Document {
    pub nodes: Vec<DomNode>,
}

/// The mathematical content of a node.
pub enum KindView {
    Element { name: Seq<char>, attrs: Seq<(Seq<char>, Seq<char>)>, inner: Seq<char> },
    Text { text: Seq<char> },
    Other,
}

/// A node as a value: its depth and content.
pub struct NodeView {
    pub depth: nat,
    pub kind: KindView,
}

impl View for DomNode {
    type V = NodeView;

    open spec fn view(&self) -> NodeView {
        NodeView {
            depth: self.depth as nat,
            kind: match self.kind {
                NodeKind::Element(n, a, h) => KindView::Element {
                    name: n@,
                    attrs: a@.map_values(|p: (Vec<char>, Vec<char>)| (p.0@, p.1@)),
                    inner: h@,
                },
                NodeKind::Text(t) => KindView::Text { text: t@ },
                NodeKind::Other => KindView::Other,
            },
        }
    }
}

impl View for Document {
    type V = Seq<NodeView>;

    open spec fn view(&self) -> Seq<NodeView> {
        self.nodes@.map_values(|n: DomNode| n@)
    }
}

/// The tree that `scraper::Html::parse_document` builds from a text, read from
/// the document node down in document order.
pub uninterp spec fn parsed_document(html: Seq<char>) -> Seq<NodeView>;

/// Parses `html` with `scraper::Html::parse_document` and lists the tree from
/// its document node down (`descendants`, document order). Each node comes with
/// the number of its ancestors; an element with its local name, its attributes
/// as `attrs` yields them and its `inner_html`; a text node with its text.
/// Nothing is claimed of the tree beyond its name: in particular, that it
/// matches the order in which `Html::select` visits nodes (the parser's order
/// of creation, which differs where it moves nodes) is left unsaid.
#[verifier::external_body]
pub fn parse_document(html: &str) -> (doc: Document)
    ensures
        doc@ == parsed_document(html@),
{
    let h = Html::parse_document(html);
    let nodes = h.tree.root().descendants().map(|n| DomNode {
        depth: n.ancestors().count(),
        kind: match n.value() {
            Node::Element(e) => NodeKind::Element(
                e.name().chars().collect(),
                e.attrs().map(|(k, v)| (k.chars().collect(), v.chars().collect())).collect(),
                ElementRef::wrap(n).map(|r| r.inner_html().chars().collect()).unwrap_or_default(),
            ),
            Node::Text(t) => NodeKind::Text(t.chars().collect()),
            _ => NodeKind::Other,
        },
    }).collect();
    Document { nodes }
}

/* ------------------------------------------------------------------ */
/*  Node predicates                                                     */
/* ------------------------------------------------------------------ */

/// The node is an element.
pub open spec fn is_element(n: NodeView) -> bool {
    n.kind is Element
}

/// The node is an element with the given local name.
pub open spec fn is_named(n: NodeView, name: Seq<char>) -> bool {
    match n.kind {
        KindView::Element { name: m, .. } => m == name,
        _ => false,
    }
}

/// The value of the first attribute called `name` among `attrs` at or after `k`.
pub open spec fn attr_from(attrs: Seq<(Seq<char>, Seq<char>)>, name: Seq<char>, k: int) -> Option<Seq<char>>
    decreases attrs.len() - k,
{
    if k < 0 || k >= attrs.len() {
        None
    } else if attrs[k].0 == name {
        Some(attrs[k].1)
    } else {
        attr_from(attrs, name, k + 1)
    }
}

/// The value of an element's attribute.
pub open spec fn attr_of(n: NodeView, name: Seq<char>) -> Option<Seq<char>> {
    match n.kind {
        KindView::Element { attrs, .. } => attr_from(attrs, name, 0),
        _ => None,
    }
}

/// The whitespace that separates class names.
pub open spec fn is_ascii_ws(c: char) -> bool {
    c == ' ' || c == '\t' || c == '\n' || c == '\u{c}' || c == '\r'
}

/// `cls` stands in `v` at `i` as a whole whitespace-separated word.
pub open spec fn word_at(v: Seq<char>, cls: Seq<char>, i: int) -> bool {
    &&& 0 <= i
    &&& i + cls.len() <= v.len()
    &&& v.subrange(i, i + cls.len()) == cls
    &&& (i == 0 || is_ascii_ws(v[i - 1]))
    &&& (i + cls.len() == v.len() || is_ascii_ws(v[i + cls.len()]))
}

/// The element lists `cls` among its classes (compared exactly, as selectors
/// match them outside quirks mode).
pub open spec fn has_class(n: NodeView, cls: Seq<char>) -> bool {
    match attr_of(n, "class"@) {
        Some(v) => exists|i: int| #[trigger] word_at(v, cls, i),
        None => false,
    }
}

/* ------------------------------------------------------------------ */
/*  Structure                                                           */
/* ------------------------------------------------------------------ */

/// The first index at or after `j` whose depth is at most `d`, or the length.
pub open spec fn scan_end(ns: Seq<NodeView>, d: nat, j: int) -> int
    decreases ns.len() - j,
{
    if j < 0 || j >= ns.len() {
        ns.len() as int
    } else if ns[j].depth <= d {
        j
    } else {
        scan_end(ns, d, j + 1)
    }
}

/// One past the last node of `i`'s subtree.
pub open spec fn subtree_end(ns: Seq<NodeView>, i: int) -> int {
    scan_end(ns, ns[i].depth, i + 1)
}

pub proof fn lemma_scan_up(ns: Seq<NodeView>, d: nat, k: int)
    ensures
        scan_up(ns, d, k) matches Some(p) ==> 0 <= p <= k && p < ns.len() && ns[p].depth < d,
    decreases k + 1,
{
    if 0 <= k < ns.len() && ns[k].depth >= d {
        lemma_scan_up(ns, d, k - 1);
    }
}

pub proof fn lemma_scan_end(ns: Seq<NodeView>, d: nat, j: int)
    requires
        0 <= j <= ns.len(),
    ensures
        j <= scan_end(ns, d, j) <= ns.len(),
        forall|k: int| j <= k < scan_end(ns, d, j) ==> ns[k].depth > d,
        scan_end(ns, d, j) < ns.len() ==> ns[scan_end(ns, d, j)].depth <= d,
    decreases ns.len() - j,
{
    if j < ns.len() && ns[j].depth > d {
        lemma_scan_end(ns, d, j + 1);
    }
}

/// The nearest node at or before `k` whose depth is below `d`.
pub open spec fn scan_up(ns: Seq<NodeView>, d: nat, k: int) -> Option<int>
    decreases k + 1,
{
    if k < 0 || k >= ns.len() {
        None
    } else if ns[k].depth < d {
        Some(k)
    } else {
        scan_up(ns, d, k - 1)
    }
}

/// The parent of node `i`.
pub open spec fn parent_of(ns: Seq<NodeView>, i: int) -> Option<int> {
    scan_up(ns, ns[i].depth, i - 1)
}

/// The nearest sibling element before position `k + 1` at depth `d`, found by
/// walking back until the parent.
pub open spec fn scan_prev_element(ns: Seq<NodeView>, d: nat, k: int) -> Option<int>
    decreases k + 1,
{
    if k < 0 || k >= ns.len() {
        None
    } else if ns[k].depth < d {
        None
    } else if ns[k].depth == d && is_element(ns[k]) {
        Some(k)
    } else {
        scan_prev_element(ns, d, k - 1)
    }
}

/// The nearest sibling element at or after `k` at depth `d`, before the parent ends.
pub open spec fn scan_next_element(ns: Seq<NodeView>, d: nat, k: int) -> Option<int>
    decreases ns.len() - k,
{
    if k < 0 || k >= ns.len() {
        None
    } else if ns[k].depth < d {
        None
    } else if ns[k].depth == d && is_element(ns[k]) {
        Some(k)
    } else {
        scan_next_element(ns, d, k + 1)
    }
}

/// The nearest preceding sibling of `i` that is an element.
pub open spec fn prev_sibling_element(ns: Seq<NodeView>, i: int) -> Option<int> {
    scan_prev_element(ns, ns[i].depth, i - 1)
}

/// The nearest following sibling of `i` that is an element.
pub open spec fn next_sibling_element(ns: Seq<NodeView>, i: int) -> Option<int> {
    scan_next_element(ns, ns[i].depth, i + 1)
}

/// The node right after `i` among its siblings, whatever its kind.
pub open spec fn next_sibling(ns: Seq<NodeView>, i: int) -> Option<int> {
    let k = subtree_end(ns, i);
    if k < ns.len() && ns[k].depth == ns[i].depth {
        Some(k)
    } else {
        None
    }
}

/* ------------------------------------------------------------------ */
/*  Text                                                                */
/* ------------------------------------------------------------------ */

/// The texts of the text nodes in positions `lo .. hi`, in order.
pub open spec fn texts_between(ns: Seq<NodeView>, lo: int, hi: int) -> Seq<Seq<char>>
    decreases hi - lo,
{
    if hi <= lo {
        Seq::empty()
    } else {
        let rest = texts_between(ns, lo, hi - 1);
        match ns[hi - 1].kind {
            KindView::Text { text } => rest.push(text),
            _ => rest,
        }
    }
}

/// The texts below node `i` (`ElementRef::text`).
pub open spec fn texts_of(ns: Seq<NodeView>, i: int) -> Seq<Seq<char>> {
    texts_between(ns, i + 1, subtree_end(ns, i))
}

/// The texts below `i` joined by single spaces and trimmed.
pub open spec fn node_text(ns: Seq<NodeView>, i: int) -> Seq<char> {
    trim(join(texts_of(ns, i), " "@))
}

/// The texts below `i` run together.
pub open spec fn node_text_run(ns: Seq<NodeView>, i: int) -> Seq<char> {
    join(texts_of(ns, i), Seq::empty())
}

/* ------------------------------------------------------------------ */
/*  Executable queries                                                  */
/* ------------------------------------------------------------------ */

/// Whether node `i` is an element called `name`.
pub fn element_named(doc: &Document, i: usize, name: &str) -> (b: bool)
    requires
        i < doc@.len(),
    ensures
        b == is_named(doc@[i as int], name@),
{
    match &doc.nodes[i].kind {
        NodeKind::Element(n, _, _) => {
            let v = chars_of(name);
            same_chars(n, &v)
        },
        _ => false,
    }
}

/// Whether node `i` is an element.
pub fn element_at(doc: &Document, i: usize) -> (b: bool)
    requires
        i < doc@.len(),
    ensures
        b == is_element(doc@[i as int]),
{
    match &doc.nodes[i].kind {
        NodeKind::Element(_, _, _) => true,
        _ => false,
    }
}

/// The value of attribute `name` of node `i`.
pub fn attribute(doc: &Document, i: usize, name: &str) -> (r: Option<Vec<char>>)
    requires
        i < doc@.len(),
    ensures
        r is None ==> attr_of(doc@[i as int], name@) is None,
        r matches Some(v) ==> attr_of(doc@[i as int], name@) == Some(v@),
{
    match &doc.nodes[i].kind {
        NodeKind::Element(_, attrs, _) => {
            let ghost av = attrs@.map_values(|p: (Vec<char>, Vec<char>)| (p.0@, p.1@));
            let want = chars_of(name);
            proof {
                assert(doc@[i as int] == doc.nodes@[i as int]@);
                assert(attr_of(doc@[i as int], name@) == attr_from(av, name@, 0));
            }
            let mut k: usize = 0;
            while k < attrs.len()
                invariant
                    k <= attrs.len(),
                    av == attrs@.map_values(|p: (Vec<char>, Vec<char>)| (p.0@, p.1@)),
                    want@ == name@,
                    attr_from(av, name@, 0) == attr_from(av, name@, k as int),
                    i < doc@.len(),
                    attr_of(doc@[i as int], name@) == attr_from(av, name@, 0),
                decreases attrs.len() - k,
            {
                proof {
                    assert(av[k as int] == (attrs@[k as int].0@, attrs@[k as int].1@));
                }
                if same_chars(&attrs[k].0, &want) {
                    return Some(copy_chars(&attrs[k].1));
                }
                k = k + 1;
            }
            None
        },
        _ => None,
    }
}

/// The depth of node `i`.
pub fn depth_of(doc: &Document, i: usize) -> (d: usize)
    requires
        i < doc@.len(),
    ensures
        d == doc@[i as int].depth,
{
    doc.nodes[i].depth
}

/// One past the last node of `i`'s subtree.
pub fn subtree_end_of(doc: &Document, i: usize) -> (e: usize)
    requires
        i < doc@.len(),
    ensures
        e == subtree_end(doc@, i as int),
        i < e <= doc@.len(),
{
    let d = depth_of(doc, i);
    assert(doc@.len() == doc.nodes.len());
    let mut j: usize = i + 1;
    proof {
        lemma_scan_end(doc@, d as nat, j as int);
    }
    while j < doc.nodes.len()
        invariant
            i < j <= doc@.len(),
            doc@.len() == doc.nodes.len(),
            d == doc@[i as int].depth,
            scan_end(doc@, d as nat, i + 1) == scan_end(doc@, d as nat, j as int),
        decreases doc.nodes.len() - j,
    {
        if depth_of(doc, j) <= d {
            return j;
        }
        j = j + 1;
    }
    j
}

/// The parent of node `i`.
pub fn parent_index(doc: &Document, i: usize) -> (r: Option<usize>)
    requires
        i < doc@.len(),
    ensures
        as_index(r) == parent_of(doc@, i as int),
        r matches Some(k) ==> k < i,
{
    let d = depth_of(doc, i);
    let mut k: usize = i;
    while k > 0
        invariant
            k <= i < doc@.len(),
            d == doc@[i as int].depth,
            parent_of(doc@, i as int) == scan_up(doc@, d as nat, k - 1),
        decreases k,
    {
        if depth_of(doc, k - 1) < d {
            return Some(k - 1);
        }
        k = k - 1;
    }
    None
}

/// The nearest preceding sibling element of `i`.
pub fn prev_sibling_element_of(doc: &Document, i: usize) -> (r: Option<usize>)
    requires
        i < doc@.len(),
    ensures
        as_index(r) == prev_sibling_element(doc@, i as int),
{
    let d = depth_of(doc, i);
    let mut k: usize = i;
    while k > 0
        invariant
            k <= i < doc@.len(),
            d == doc@[i as int].depth,
            prev_sibling_element(doc@, i as int) == scan_prev_element(doc@, d as nat, k - 1),
        decreases k,
    {
        let dk = depth_of(doc, k - 1);
        if dk < d {
            return None;
        }
        if dk == d && element_at(doc, k - 1) {
            return Some(k - 1);
        }
        k = k - 1;
    }
    None
}

pub proof fn lemma_scan_prev_element(ns: Seq<NodeView>, d: nat, k: int)
    ensures
        scan_prev_element(ns, d, k) matches Some(p) ==> 0 <= p <= k && p < ns.len(),
    decreases k + 1,
{
    if 0 <= k < ns.len() && ns[k].depth >= d && !(ns[k].depth == d && is_element(ns[k])) {
        lemma_scan_prev_element(ns, d, k - 1);
    }
}

pub proof fn lemma_scan_next_element(ns: Seq<NodeView>, d: nat, k: int)
    ensures
        scan_next_element(ns, d, k) matches Some(p) ==> 0 <= k <= p < ns.len(),
    decreases ns.len() - k,
{
    if 0 <= k < ns.len() && ns[k].depth >= d && !(ns[k].depth == d && is_element(ns[k])) {
        lemma_scan_next_element(ns, d, k + 1);
    }
}

/// The nearest following sibling element of `i`.
pub fn next_sibling_element_of(doc: &Document, i: usize) -> (r: Option<usize>)
    requires
        i < doc@.len(),
    ensures
        as_index(r) == next_sibling_element(doc@, i as int),
{
    let d = depth_of(doc, i);
    assert(doc@.len() == doc.nodes.len());
    let mut k: usize = i + 1;
    while k < doc.nodes.len()
        invariant
            i < k <= doc@.len(),
            doc@.len() == doc.nodes.len(),
            d == doc@[i as int].depth,
            next_sibling_element(doc@, i as int) == scan_next_element(doc@, d as nat, k as int),
        decreases doc.nodes.len() - k,
    {
        let dk = depth_of(doc, k);
        if dk < d {
            return None;
        }
        if dk == d && element_at(doc, k) {
            return Some(k);
        }
        k = k + 1;
    }
    None
}

/// The node right after `i` among its siblings.
pub fn next_sibling_of(doc: &Document, i: usize) -> (r: Option<usize>)
    requires
        i < doc@.len(),
    ensures
        as_index(r) == next_sibling(doc@, i as int),
{
    let e = subtree_end_of(doc, i);
    if e < doc.nodes.len() && depth_of(doc, e) == depth_of(doc, i) {
        Some(e)
    } else {
        None
    }
}

/// The texts of the text nodes in `lo .. hi`.
pub fn texts_in(doc: &Document, lo: usize, hi: usize) -> (r: Vec<Vec<char>>)
    requires
        lo <= hi <= doc@.len(),
    ensures
        views(r@) == texts_between(doc@, lo as int, hi as int),
{
    let mut r: Vec<Vec<char>> = Vec::new();
    let mut k: usize = lo;
    proof {
        assert(views(r@) =~= texts_between(doc@, lo as int, lo as int));
    }
    while k < hi
        invariant
            lo <= k <= hi <= doc@.len(),
            views(r@) == texts_between(doc@, lo as int, k as int),
        decreases hi - k,
    {
        proof {
            assert(doc@[k as int] == doc.nodes@[k as int]@);
        }
        match &doc.nodes[k].kind {
            NodeKind::Text(t) => {
                let ghost before = r@;
                r.push(copy_chars(t));
                proof {
                    assert(views(r@) =~= views(before).push(t@));
                }
            },
            _ => {},
        }
        k = k + 1;
    }
    r
}

/// The text of node `i`: its texts joined by spaces, trimmed.
pub fn text_of(doc: &Document, i: usize) -> (r: Vec<char>)
    requires
        i < doc@.len(),
    ensures
        r@ == node_text(doc@, i as int),
{
    let e = subtree_end_of(doc, i);
    let parts = texts_in(doc, i + 1, e);
    let joined = join_with(&parts, &[' ']);
    proof {
        assert([' ']@ =~= " "@) by {
            reveal_strlit(" ");
        }
    }
    trimmed(&joined)
}

/// The texts below node `i` run together.
pub fn text_run_of(doc: &Document, i: usize) -> (r: Vec<char>)
    requires
        i < doc@.len(),
    ensures
        r@ == node_text_run(doc@, i as int),
{
    let e = subtree_end_of(doc, i);
    let parts = texts_in(doc, i + 1, e);
    let empty: [char; 0] = [];
    proof {
        assert(empty@ =~= Seq::<char>::empty());
    }
    join_with(&parts, &empty)
}

proof fn lemma_has_class(n: NodeView, v: Seq<char>, c: Seq<char>, p: int)
    requires
        attr_of(n, "class"@) == Some(v),
        word_at(v, c, p),
    ensures
        has_class(n, c),
{
    assert(word_at(v, c, p));
    assert(exists|q: int| word_at(v, c, q));
    match attr_of(n, "class"@) {
        Some(w) => {
            assert(w == v);
            assert(exists|q: int| word_at(w, c, q));
        },
        None => {},
    }
}

fn ascii_space(c: char) -> (b: bool)
    ensures
        b == is_ascii_ws(c),
{
    c == ' ' || c == '\t' || c == '\n' || c == '\u{c}' || c == '\r'
}

/// Whether node `i` lists `cls` among its classes.
pub fn has_class_of(doc: &Document, i: usize, cls: &str) -> (b: bool)
    requires
        i < doc@.len(),
    ensures
        b == has_class(doc@[i as int], cls@),
{
    let v = match attribute(doc, i, "class") {
        Some(v) => v,
        None => {
            return false;
        },
    };
    let c = chars_of(cls);
    let mut p: usize = 0;
    loop
        invariant
            c@ == cls@,
            i < doc@.len(),
            p <= v.len(),
            attr_of(doc@[i as int], "class"@) == Some(v@),
            forall|q: int| 0 <= q < p ==> !word_at(v@, cls@, q),
        decreases v.len() - p,
    {
        if matches_at(&v, c.as_slice(), p) {
            let end = p + c.len();
            let before_ok = p == 0 || ascii_space(v[p - 1]);
            let after_ok = end == v.len() || ascii_space(v[end]);
            if before_ok && after_ok {
                proof {
                    assert(word_at(v@, cls@, p as int));
                    lemma_has_class(doc@[i as int], v@, cls@, p as int);
                }
                return true;
            }
        }
        if p == v.len() {
            proof {
                assert forall|q: int| !word_at(v@, cls@, q) by {
                    if q > v@.len() {
                        assert(q + cls@.len() > v@.len());
                    }
                }
            }
            return false;
        }
        p = p + 1;
    }
}

/* ------------------------------------------------------------------ */
/*  Selection over positions                                            */
/* ------------------------------------------------------------------ */

/// A position as a mathematical index.
pub open spec fn as_index(r: Option<usize>) -> Option<int> {
    match r {
        Some(k) => Some(k as int),
        None => None,
    }
}

/// The first position in `j .. n` that satisfies `p`.
pub open spec fn first_where(n: int, p: spec_fn(int) -> bool, j: int) -> Option<int>
    decreases n - j,
{
    if j < 0 || j >= n {
        None
    } else if p(j) {
        Some(j)
    } else {
        first_where(n, p, j + 1)
    }
}

pub proof fn lemma_first_where(n: int, p: spec_fn(int) -> bool, j: int)
    ensures
        first_where(n, p, j) matches Some(k) ==> 0 <= j <= k < n && p(k),
        first_where(n, p, j) is None ==> forall|k: int| 0 <= j <= k < n ==> !#[trigger] p(k),
    decreases n - j,
{
    if 0 <= j < n && !p(j) {
        lemma_first_where(n, p, j + 1);
    }
}

/// The positions in `lo .. hi` that satisfy `p`, in order.
pub open spec fn all_where(p: spec_fn(int) -> bool, lo: int, hi: int) -> Seq<int>
    decreases hi - lo,
{
    if hi <= lo {
        Seq::empty()
    } else if p(hi - 1) {
        all_where(p, lo, hi - 1).push(hi - 1)
    } else {
        all_where(p, lo, hi - 1)
    }
}

} // verus!
