//! Reading a programme page: what each part of `ProgrammeInfo` is, stated
//! over the document tree, and the extraction that computes it.
//!
//! The page's `div.content` is cut into sections at its `h2` children; a
//! section is looked up by a keyword of its heading. Where two sections match
//! a keyword, the one whose heading comes first in the page is used.

use vstd::prelude::*;
use crate::programme::{CourseRow, CourseTable, ProgrammeInfo};
use crate::dom::{
    all_where, as_index, attr_of, depth_of, element_at, element_named, has_class_of, lemma_scan_up,
    parent_index, subtree_end_of, text_of, lemma_first_where, parse_document, parsed_document, NodeKind, prev_sibling_element_of, next_sibling_element_of, lemma_scan_prev_element, lemma_scan_next_element, lemma_scan_end, attribute, next_sibling_of, Document, first_where, has_class, is_element, is_named, next_sibling,
    next_sibling_element, node_text, parent_of, prev_sibling_element, scan_up, subtree_end,
    KindView, NodeView,
};
use crate::text::{has_prefix, starts_with, views, split_by, trimmed, text_after, split_words, join_with, slice_of, parse_bounded, string_from, to_lowercase, chars_of, copy_chars, same_chars, has_substring, to_ascii_lower, ascii_lower, contains, lowercase, split, trim, words, join, after_first, parse_unsigned};

verus! {

/* ------------------------------------------------------------------ */
/*  Selectors                                                           */
/* ------------------------------------------------------------------ */

/// `div.content`.
pub open spec fn content_div(ns: Seq<NodeView>, k: int) -> bool {
    is_named(ns[k], "div"@) && has_class(ns[k], "content"@)
}

/// Elements with a given name.
pub open spec fn named_pred(ns: Seq<NodeView>, name: Seq<char>) -> spec_fn(int) -> bool {
    |k: int| is_named(ns[k], name)
}

/// The first element with a given name, in document order.
pub open spec fn first_named(ns: Seq<NodeView>, name: Seq<char>) -> Option<int> {
    first_where(ns.len() as int, named_pred(ns, name), 0)
}

/// The first `div.content`.
pub open spec fn content_pred(ns: Seq<NodeView>) -> spec_fn(int) -> bool {
    |k: int| content_div(ns, k)
}

/// `div.content > p`: a paragraph whose parent is a `div.content`.
pub open spec fn content_p_pred(ns: Seq<NodeView>) -> spec_fn(int) -> bool {
    |k: int| is_named(ns[k], "p"@) && match parent_of(ns, k) {
        Some(d) => content_div(ns, d),
        None => false,
    }
}

/// Node `k` has an element ancestor that is a `div.content`, reached through
/// element parents only.
pub open spec fn in_content(ns: Seq<NodeView>, k: int) -> bool
    decreases k + 1,
{
    if k < 0 || k >= ns.len() {
        false
    } else {
        match scan_up(ns, ns[k].depth, k - 1) {
            Some(p) => if 0 <= p < k {
                is_element(ns[p]) && (content_div(ns, p) || in_content(ns, p))
            } else {
                false
            },
            None => false,
        }
    }
}

/// `div.content table`.
pub open spec fn table_pred(ns: Seq<NodeView>) -> spec_fn(int) -> bool {
    |k: int| is_named(ns[k], "table"@) && in_content(ns, k)
}

/* ------------------------------------------------------------------ */
/*  Sections                                                            */
/* ------------------------------------------------------------------ */

/// The needle occurs in the heading, ignoring ASCII case.
pub open spec fn heading_mentions(h: Seq<char>, needle: Seq<char>) -> bool {
    contains(ascii_lower(h), ascii_lower(needle))
}

/// The element children of node `c`.
pub open spec fn child_pred(ns: Seq<NodeView>, c: int) -> spec_fn(int) -> bool {
    |k: int| ns[k].depth == ns[c].depth + 1 && is_element(ns[k])
}

/// Index of the first section at or after `i` titled `t`, or -1.
pub open spec fn title_from(secs: Seq<(Seq<char>, Seq<int>)>, t: Seq<char>, i: int) -> int
    decreases secs.len() - i,
{
    if i < 0 || i >= secs.len() {
        -1
    } else if secs[i].0 == t {
        i
    } else {
        title_from(secs, t, i + 1)
    }
}

/// Sections built from the children in `kids`: an `h2` opens (or reopens) the
/// section of its text; any other element joins the open section.
pub open spec fn fold_sections(ns: Seq<NodeView>, kids: Seq<int>) -> (Seq<(Seq<char>, Seq<int>)>, Option<Seq<char>>)
    decreases kids.len(),
{
    if kids.len() == 0 {
        (Seq::empty(), None)
    } else {
        let prev = fold_sections(ns, kids.drop_last());
        let secs = prev.0;
        let k = kids.last();
        if is_named(ns[k], "h2"@) {
            let t = node_text(ns, k);
            if title_from(secs, t, 0) >= 0 {
                (secs, Some(t))
            } else {
                (secs.push((t, Seq::empty())), Some(t))
            }
        } else {
            match prev.1 {
                Some(t) => {
                    let x = title_from(secs, t, 0);
                    if x >= 0 {
                        (secs.update(x, (t, secs[x].1.push(k))), prev.1)
                    } else {
                        prev
                    }
                },
                None => prev,
            }
        }
    }
}

/// The sections of the page, in the order their headings first appear.
pub open spec fn page_sections(ns: Seq<NodeView>) -> Seq<(Seq<char>, Seq<int>)> {
    match first_where(ns.len() as int, content_pred(ns), 0) {
        Some(c) => fold_sections(ns, all_where(child_pred(ns, c), c + 1, subtree_end(ns, c))).0,
        None => Seq::empty(),
    }
}

/// The first section at or after `i` whose heading contains `kw`.
pub open spec fn find_section(secs: Seq<(Seq<char>, Seq<int>)>, kw: Seq<char>, i: int) -> Option<int>
    decreases secs.len() - i,
{
    if i < 0 || i >= secs.len() {
        None
    } else if heading_mentions(secs[i].0, kw) {
        Some(i)
    } else {
        find_section(secs, kw, i + 1)
    }
}

/// The non-empty texts of the paragraphs among `nodes`.
pub open spec fn paragraph_texts(ns: Seq<NodeView>, nodes: Seq<int>) -> Seq<Seq<char>>
    decreases nodes.len(),
{
    if nodes.len() == 0 {
        Seq::empty()
    } else {
        let r = paragraph_texts(ns, nodes.drop_last());
        let k = nodes.last();
        if is_named(ns[k], "p"@) && node_text(ns, k).len() > 0 {
            r.push(node_text(ns, k))
        } else {
            r
        }
    }
}

/// The non-empty texts of the `li` elements in `lo .. hi`.
pub open spec fn li_texts(ns: Seq<NodeView>, lo: int, hi: int) -> Seq<Seq<char>>
    decreases hi - lo,
{
    if hi <= lo {
        Seq::empty()
    } else {
        let r = li_texts(ns, lo, hi - 1);
        if is_named(ns[hi - 1], "li"@) && node_text(ns, hi - 1).len() > 0 {
            r.push(node_text(ns, hi - 1))
        } else {
            r
        }
    }
}

/// The items of a list: its `li` descendants with their text.
pub open spec fn list_items(ns: Seq<NodeView>, u: int) -> Seq<Seq<char>> {
    li_texts(ns, u + 1, subtree_end(ns, u))
}

/// A `ul` or `ol` element.
pub open spec fn is_list(n: NodeView) -> bool {
    is_named(n, "ul"@) || is_named(n, "ol"@)
}

/// The items of all the lists among `nodes`, in order.
pub open spec fn list_texts(ns: Seq<NodeView>, nodes: Seq<int>) -> Seq<Seq<char>>
    decreases nodes.len(),
{
    if nodes.len() == 0 {
        Seq::empty()
    } else {
        let r = list_texts(ns, nodes.drop_last());
        let k = nodes.last();
        if is_list(ns[k]) {
            r + list_items(ns, k)
        } else {
            r
        }
    }
}

/// The lists among `nodes`, in order.
pub open spec fn lists_of(ns: Seq<NodeView>, nodes: Seq<int>) -> Seq<int>
    decreases nodes.len(),
{
    if nodes.len() == 0 {
        Seq::empty()
    } else {
        let r = lists_of(ns, nodes.drop_last());
        if is_list(ns[nodes.last()]) {
            r.push(nodes.last())
        } else {
            r
        }
    }
}

/// The paragraphs of the section whose heading contains `kw`.
pub open spec fn section_paragraphs(ns: Seq<NodeView>, kw: Seq<char>) -> Seq<Seq<char>> {
    let secs = page_sections(ns);
    match find_section(secs, kw, 0) {
        Some(i) => paragraph_texts(ns, secs[i].1),
        None => Seq::empty(),
    }
}

/// The items of every list of the section whose heading contains `kw`.
pub open spec fn section_list(ns: Seq<NodeView>, kw: Seq<char>) -> Seq<Seq<char>> {
    let secs = page_sections(ns);
    match find_section(secs, kw, 0) {
        Some(i) => list_texts(ns, secs[i].1),
        None => Seq::empty(),
    }
}

/// The items of the `n`-th list (counted from 0) of the section whose
/// heading contains `kw`; none when it has fewer lists.
pub open spec fn section_nth_list(ns: Seq<NodeView>, kw: Seq<char>, n: nat) -> Seq<Seq<char>> {
    let secs = page_sections(ns);
    match find_section(secs, kw, 0) {
        Some(i) => {
            let ls = lists_of(ns, secs[i].1);
            if ls.len() > n {
                list_items(ns, ls[n as int])
            } else {
                Seq::empty()
            }
        },
        None => Seq::empty(),
    }
}

/* ------------------------------------------------------------------ */
/*  General information                                                 */
/* ------------------------------------------------------------------ */

/// The text `html_escape::decode_html_entities` makes of a text.
pub uninterp spec fn decoded_entities(s: Seq<char>) -> Seq<char>;

/// Calls `html_escape::decode_html_entities`; the result is named by `decoded_entities`.
#[verifier::external_body]
fn decode_entities(s: &[char]) -> (r: Vec<char>)
    ensures
        r@ == decoded_entities(s@),
{
    let text: String = s.iter().collect();
    html_escape::decode_html_entities(&text).chars().collect()
}

/// The inner HTML of an element.
pub open spec fn inner_of(n: NodeView) -> Seq<char> {
    match n.kind {
        KindView::Element { inner, .. } => inner,
        _ => Seq::empty(),
    }
}

/// The chunks between `<br` marks, entity-decoded and trimmed, the empty ones dropped.
pub open spec fn info_lines(chunks: Seq<Seq<char>>) -> Seq<Seq<char>>
    decreases chunks.len(),
{
    if chunks.len() == 0 {
        Seq::empty()
    } else {
        let r = info_lines(chunks.drop_last());
        let l = trim(decoded_entities(chunks.last()));
        if l.len() > 0 {
            r.push(l)
        } else {
            r
        }
    }
}

/// The lines of the page's first `div.content > p`.
pub open spec fn general_lines(ns: Seq<NodeView>) -> Seq<Seq<char>> {
    let inner = match first_where(ns.len() as int, content_p_pred(ns), 0) {
        Some(k) => inner_of(ns[k]),
        None => Seq::empty(),
    };
    info_lines(split(inner, "<br"@))
}

/// Index of the first line at or after `i` whose lower-cased form contains `label`, or -1.
pub open spec fn line_with(lines: Seq<Seq<char>>, label: Seq<char>, i: int) -> int
    decreases lines.len() - i,
{
    if i < 0 || i >= lines.len() {
        -1
    } else if contains(lowercase(lines[i]), lowercase(label)) {
        i
    } else {
        line_with(lines, label, i + 1)
    }
}

/// The trimmed text after the first `:` of the first line that
/// mentions `label`; an em dash when there is none.
pub open spec fn peel(lines: Seq<Seq<char>>, label: Seq<char>) -> Seq<char> {
    let i = line_with(lines, label, 0);
    if i < 0 {
        "\u{2014}"@
    } else {
        match after_first(lines[i], ':') {
            Some(v) => trim(v),
            None => "\u{2014}"@,
        }
    }
}

/* ------------------------------------------------------------------ */
/*  Links                                                               */
/* ------------------------------------------------------------------ */

/// The `href` of an element, or the empty text.
pub open spec fn href_of(ns: Seq<NodeView>, k: int) -> Seq<char> {
    match attr_of(ns[k], "href"@) {
        Some(h) => h,
        None => Seq::empty(),
    }
}

/// The parent of `k` is one of the nodes of a section about programme coordinators.
pub open spec fn in_coordinator_section(ns: Seq<NodeView>, secs: Seq<(Seq<char>, Seq<int>)>, k: int) -> bool {
    match parent_of(ns, k) {
        Some(p) => exists|j: int|
            0 <= j < secs.len() && heading_mentions(secs[j].0, "programme coordinator"@)
                && #[trigger] secs[j].1.contains(p),
        None => false,
    }
}

/// The coordinator links among the nodes before `hi`: text and target.
pub open spec fn coordinator_links(ns: Seq<NodeView>, secs: Seq<(Seq<char>, Seq<int>)>, hi: int) -> Seq<(Seq<char>, Seq<char>)>
    decreases hi,
{
    if hi <= 0 {
        Seq::empty()
    } else {
        let r = coordinator_links(ns, secs, hi - 1);
        let k = hi - 1;
        if is_named(ns[k], "a"@) && in_coordinator_section(ns, secs, k) {
            r.push((node_text(ns, k), href_of(ns, k)))
        } else {
            r
        }
    }
}

/// A link whose text mentions student services.
pub open spec fn services_pred(ns: Seq<NodeView>) -> spec_fn(int) -> bool {
    |k: int| is_named(ns[k], "a"@) && contains(ascii_lower(node_text(ns, k)), "student services"@)
}

/// A link to the short course descriptions.
pub open spec fn description_pred(ns: Seq<NodeView>) -> spec_fn(int) -> bool {
    |k: int| is_named(ns[k], "a"@) && (contains(ascii_lower(node_text(ns, k)), "short description"@)
        || ascii_lower(node_text(ns, k)) == "here"@)
}

/// The target of the first link that satisfies `p`.
pub open spec fn first_link(ns: Seq<NodeView>, p: spec_fn(int) -> bool) -> Option<Seq<char>> {
    match first_where(ns.len() as int, p, 0) {
        Some(k) => Some(href_of(ns, k)),
        None => None,
    }
}

/* ------------------------------------------------------------------ */
/*  Completion requirements                                             */
/* ------------------------------------------------------------------ */

/// An `h3` about the requirements for completing the programme.
pub open spec fn completion_pred(ns: Seq<NodeView>) -> spec_fn(int) -> bool {
    |k: int| is_named(ns[k], "h3"@) && heading_mentions(node_text(ns, k), "requirements for the completion"@)
}

/// The text of the paragraph right after the first such `h3`, when the node
/// right after it is a paragraph.
pub open spec fn completion_text(ns: Seq<NodeView>) -> Option<Seq<char>> {
    match first_where(ns.len() as int, completion_pred(ns), 0) {
        Some(h) => match next_sibling(ns, h) {
            Some(k) => if is_named(ns[k], "p"@) {
                Some(node_text(ns, k))
            } else {
                None
            },
            None => None,
        },
        None => None,
    }
}

/* ------------------------------------------------------------------ */
/*  Course tables                                                       */
/* ------------------------------------------------------------------ */

/// One course row as values.
pub struct RowView {
    pub course: Seq<char>,
    pub ects: Seq<char>,
    pub l: Seq<char>,
    pub s: Seq<char>,
    pub t: Seq<char>,
    pub lw: Seq<char>,
    pub extra: Option<Seq<char>>,
    pub total: Seq<char>,
}

/// One course table as values.
pub struct TableView {
    pub title: Seq<char>,
    pub caption: Seq<char>,
    pub rows: Seq<RowView>,
}

/// Whitespace runs collapsed to single spaces, ends dropped.
pub open spec fn squeeze(s: Seq<char>) -> Seq<char> {
    join(words(s), " "@)
}

/// The text of the element before the table, or before its parent when the
/// table has no element before it.
pub open spec fn table_heading(ns: Seq<NodeView>, t: int) -> Seq<char> {
    let h = match prev_sibling_element(ns, t) {
        Some(e) => node_text(ns, e),
        None => match parent_of(ns, t) {
            Some(p) => match prev_sibling_element(ns, p) {
                Some(e) => node_text(ns, e),
                None => Seq::empty(),
            },
            None => Seq::empty(),
        },
    };
    squeeze(h)
}

/// A text that reads as a table legend.
pub open spec fn is_legend(s: Seq<char>) -> bool {
    contains(lowercase(s), "l = lecture"@) || contains(lowercase(s), "legend:"@)
}

/// The text of an element when it reads as a legend, else nothing.
pub open spec fn legend_of(ns: Seq<NodeView>, e: int) -> Seq<char> {
    if is_legend(node_text(ns, e)) {
        node_text(ns, e)
    } else {
        Seq::empty()
    }
}

/// The legend after the table, or after its parent when the table has no
/// element after it.
pub open spec fn table_caption(ns: Seq<NodeView>, t: int) -> Seq<char> {
    let c = match next_sibling_element(ns, t) {
        Some(e) => legend_of(ns, e),
        None => match parent_of(ns, t) {
            Some(p) => match next_sibling_element(ns, p) {
                Some(e) => legend_of(ns, e),
                None => Seq::empty(),
            },
            None => Seq::empty(),
        },
    };
    squeeze(c)
}

/// The lower-cased texts of the elements called `name` in `lo .. hi`.
pub open spec fn lowered_texts(ns: Seq<NodeView>, name: Seq<char>, lo: int, hi: int) -> Seq<Seq<char>>
    decreases hi - lo,
{
    if hi <= lo {
        Seq::empty()
    } else {
        let r = lowered_texts(ns, name, lo, hi - 1);
        if is_named(ns[hi - 1], name) {
            r.push(lowercase(node_text(ns, hi - 1)))
        } else {
            r
        }
    }
}

/// The texts of the elements called `name` in `lo .. hi`.
pub open spec fn element_texts(ns: Seq<NodeView>, name: Seq<char>, lo: int, hi: int) -> Seq<Seq<char>>
    decreases hi - lo,
{
    if hi <= lo {
        Seq::empty()
    } else {
        let r = element_texts(ns, name, lo, hi - 1);
        if is_named(ns[hi - 1], name) {
            r.push(node_text(ns, hi - 1))
        } else {
            r
        }
    }
}

/// Some text among `ts` contains `p`.
pub open spec fn any_contains(ts: Seq<Seq<char>>, p: Seq<char>) -> bool {
    exists|j: int| 0 <= j < ts.len() && contains(#[trigger] ts[j], p)
}

/// A table whose header cells mention both ECTS and courses.
pub open spec fn course_table(ns: Seq<NodeView>, t: int) -> bool {
    let hs = lowered_texts(ns, "th"@, t + 1, subtree_end(ns, t));
    any_contains(hs, "ects"@) && any_contains(hs, "course"@)
}

/// Trailing dots dropped (`trim_end_matches('.')`).
pub open spec fn strip_dots(s: Seq<char>) -> Seq<char>
    decreases s.len(),
{
    if s.len() > 0 && s.last() == '.' {
        strip_dots(s.drop_last())
    } else {
        s
    }
}

/// The first cell numbers the row, as in `12.`.
pub open spec fn numbered(c: Seq<char>) -> bool {
    c.len() > 0 && c.last() == '.' && parse_unsigned(strip_dots(c), 0xffff_ffff) is Some
}

/// Cell `n` after the offset, or the empty text.
pub open spec fn cell(cells: Seq<Seq<char>>, off: int, n: int) -> Seq<char> {
    if off + n < cells.len() {
        cells[off + n]
    } else {
        Seq::empty()
    }
}

/// The course row a table row gives, if it has enough data cells.
pub open spec fn row_of(cells: Seq<Seq<char>>) -> Option<RowView> {
    if cells.len() < 2 {
        None
    } else {
        let off: int = if numbered(cells[0]) { 1 } else { 0 };
        let n = cells.len() - off;
        if n >= 6 {
            Some(RowView {
                course: cell(cells, off, 0),
                ects: cell(cells, off, 1),
                l: cell(cells, off, 2),
                s: cell(cells, off, 3),
                t: cell(cells, off, 4),
                lw: cell(cells, off, 5),
                extra: if n > 7 { Some(cell(cells, off, 6)) } else { None },
                total: if n > 7 { cell(cells, off, 7) } else { cell(cells, off, 6) },
            })
        } else {
            None
        }
    }
}

/// The cells of a table row: the texts of its `td` descendants.
pub open spec fn row_cells(ns: Seq<NodeView>, r: int) -> Seq<Seq<char>> {
    element_texts(ns, "td"@, r + 1, subtree_end(ns, r))
}

/// The course rows of the `tr` elements in `lo .. hi`.
pub open spec fn rows_between(ns: Seq<NodeView>, lo: int, hi: int) -> Seq<RowView>
    decreases hi - lo,
{
    if hi <= lo {
        Seq::empty()
    } else {
        let r = rows_between(ns, lo, hi - 1);
        if is_named(ns[hi - 1], "tr"@) {
            match row_of(row_cells(ns, hi - 1)) {
                Some(row) => r.push(row),
                None => r,
            }
        } else {
            r
        }
    }
}

/// The course tables among the nodes before `hi`.
pub open spec fn tables_before(ns: Seq<NodeView>, hi: int) -> Seq<TableView>
    decreases hi,
{
    if hi <= 0 {
        Seq::empty()
    } else {
        let r = tables_before(ns, hi - 1);
        let t = hi - 1;
        let rows = rows_between(ns, t + 1, subtree_end(ns, t));
        if (table_pred(ns))(t) && course_table(ns, t) && rows.len() > 0 {
            r.push(TableView { title: table_heading(ns, t), caption: table_caption(ns, t), rows })
        } else {
            r
        }
    }
}

/* ------------------------------------------------------------------ */
/*  Extraction                                                          */
/* ------------------------------------------------------------------ */

/// Whether the heading mentions the needle, ignoring ASCII case.
pub fn heading_is(h: &Vec<char>, needle: &str) -> (b: bool)
    ensures
        b == heading_mentions(h@, needle@),
{
    let lh = to_ascii_lower(h);
    let n = chars_of(needle);
    let ln = to_ascii_lower(&n);
    has_substring(&lh, ln.as_slice())
}

fn is_content_div(doc: &Document, k: usize) -> (b: bool)
    requires
        k < doc@.len(),
    ensures
        b == content_div(doc@, k as int),
{
    element_named(doc, k, "div") && has_class_of(doc, k, "content")
}

/// The first element called `name`.
fn first_named_in(doc: &Document, name: &str) -> (r: Option<usize>)
    ensures
        as_index(r) == first_named(doc@, name@),
{
    let n = doc.nodes.len();
    assert(doc@.len() == n);
    let mut k: usize = 0;
    while k < n
        invariant
            k <= n == doc@.len(),
            first_named(doc@, name@) == first_where(n as int, named_pred(doc@, name@), k as int),
        decreases n - k,
    {
        if element_named(doc, k, name) {
            return Some(k);
        }
        k = k + 1;
    }
    None
}

/// The first `div.content`.
fn first_content(doc: &Document) -> (r: Option<usize>)
    ensures
        as_index(r) == first_where(doc@.len() as int, content_pred(doc@), 0),
{
    let n = doc.nodes.len();
    assert(doc@.len() == n);
    let mut k: usize = 0;
    while k < n
        invariant
            k <= n == doc@.len(),
            first_where(n as int, content_pred(doc@), 0) == first_where(n as int, content_pred(doc@), k as int),
        decreases n - k,
    {
        if is_content_div(doc, k) {
            return Some(k);
        }
        k = k + 1;
    }
    None
}

/// The first `div.content > p`.
fn first_content_paragraph(doc: &Document) -> (r: Option<usize>)
    ensures
        as_index(r) == first_where(doc@.len() as int, content_p_pred(doc@), 0),
{
    let n = doc.nodes.len();
    assert(doc@.len() == n);
    let mut k: usize = 0;
    while k < n
        invariant
            k <= n == doc@.len(),
            first_where(n as int, content_p_pred(doc@), 0) == first_where(n as int, content_p_pred(doc@), k as int),
        decreases n - k,
    {
        if element_named(doc, k, "p") {
            match parent_index(doc, k) {
                Some(d) => {
                    if is_content_div(doc, d) {
                        return Some(k);
                    }
                },
                None => {},
            }
        }
        k = k + 1;
    }
    None
}

/// Whether node `k` lies inside a `div.content`.
fn within_content(doc: &Document, k: usize) -> (b: bool)
    requires
        k < doc@.len(),
    ensures
        b == in_content(doc@, k as int),
{
    let mut cur: usize = k;
    loop
        invariant
            cur < doc@.len(),
            in_content(doc@, k as int) == in_content(doc@, cur as int),
        decreases cur,
    {
        proof {
            lemma_scan_up(doc@, doc@[cur as int].depth, cur - 1);
        }
        match parent_index(doc, cur) {
            None => {
                return false;
            },
            Some(p) => {
                if !element_at(doc, p) {
                    return false;
                }
                if is_content_div(doc, p) {
                    return true;
                }
                cur = p;
            },
        }
    }
}

/// The sections as values.
pub open spec fn sections_view(v: Seq<(Vec<char>, Vec<usize>)>) -> Seq<(Seq<char>, Seq<int>)> {
    v.map_values(|x: (Vec<char>, Vec<usize>)| (x.0@, x.1@.map_values(|i: usize| i as int)))
}

/// An optional text as a value.
pub open spec fn opt_chars(o: Option<Vec<char>>) -> Option<Seq<char>> {
    match o {
        Some(v) => Some(v@),
        None => None,
    }
}

/// Every node a section lists lies in the document.
pub open spec fn sections_in(secs: Seq<(Seq<char>, Seq<int>)>, n: int) -> bool {
    forall|j: int, m: int| 0 <= j < secs.len() && 0 <= m < secs[j].1.len() ==> 0 <= #[trigger] secs[j].1[m] < n
}

fn copy_indices(v: &Vec<usize>) -> (r: Vec<usize>)
    ensures
        r@ == v@,
{
    let mut r: Vec<usize> = Vec::new();
    let mut i: usize = 0;
    while i < v.len()
        invariant
            i <= v.len(),
            r@ == v@.take(i as int),
        decreases v.len() - i,
    {
        r.push(v[i]);
        i = i + 1;
        proof {
            assert(r@ =~= v@.take(i as int));
        }
    }
    proof {
        assert(v@.take(v.len() as int) =~= v@);
    }
    r
}

fn title_position(secs: &Vec<(Vec<char>, Vec<usize>)>, t: &Vec<char>) -> (r: Option<usize>)
    ensures
        match r {
            Some(x) => x as int == title_from(sections_view(secs@), t@, 0) && x < secs.len(),
            None => title_from(sections_view(secs@), t@, 0) < 0,
        },
{
    let ghost sv = sections_view(secs@);
    let mut i: usize = 0;
    while i < secs.len()
        invariant
            i <= secs.len() == sv.len(),
            sv == sections_view(secs@),
            title_from(sv, t@, 0) == title_from(sv, t@, i as int),
        decreases secs.len() - i,
    {
        if same_chars(&secs[i].0, t) {
            return Some(i);
        }
        i = i + 1;
    }
    None
}

/// The sections of the page: titles with the positions of their elements.
pub fn sections_of(doc: &Document) -> (secs: Vec<(Vec<char>, Vec<usize>)>)
    ensures
        sections_view(secs@) == page_sections(doc@),
        sections_in(sections_view(secs@), doc@.len() as int),
{
    let mut secs: Vec<(Vec<char>, Vec<usize>)> = Vec::new();
    let c = match first_content(doc) {
        None => {
            proof {
                assert(sections_view(secs@) =~= Seq::<(Seq<char>, Seq<int>)>::empty());
            }
            return secs;
        },
        Some(c) => c,
    };
    proof {
        lemma_first_where(doc@.len() as int, content_pred(doc@), 0);
    }
    let e = subtree_end_of(doc, c);
    let d = depth_of(doc, c);
    let ghost p = child_pred(doc@, c as int);
    let mut cur: Option<Vec<char>> = None;
    let mut k: usize = c + 1;
    proof {
        assert(sections_view(secs@) =~= Seq::<(Seq<char>, Seq<int>)>::empty());
    }
    while k < e
        invariant
            c < k <= e <= doc@.len(),
            d == doc@[c as int].depth,
            p == child_pred(doc@, c as int),
            e == subtree_end(doc@, c as int),
            fold_sections(doc@, all_where(p, c + 1, k as int)) == (sections_view(secs@), opt_chars(cur)),
            sections_in(sections_view(secs@), doc@.len() as int),
            cur matches Some(t) ==> title_from(sections_view(secs@), t@, 0) >= 0,
        decreases e - k,
    {
        let ghost kids = all_where(p, c + 1, k as int);
        let ghost sv = sections_view(secs@);
        if depth_of(doc, k) == d + 1 && element_at(doc, k) {
            proof {
                assert(all_where(p, c + 1, k + 1) == kids.push(k as int));
                assert(kids.push(k as int).drop_last() =~= kids);
            }
            if element_named(doc, k, "h2") {
                let t = text_of(doc, k);
                match title_position(&secs, &t) {
                    Some(_) => {},
                    None => {
                        let tc = copy_chars(&t);
                        secs.push((tc, Vec::new()));
                        proof {
                            let nv: Seq<usize> = Seq::empty();
                            assert(nv.map_values(|i: usize| i as int) =~= Seq::<int>::empty());
                            assert(sections_view(secs@) =~= sv.push((t@, Seq::<int>::empty())));
                            lemma_title_push(sv, t@, Seq::<int>::empty());
                        }
                    },
                }
                cur = Some(t);
            } else {
                match &cur {
                    Some(t) => {
                        let x = match title_position(&secs, t) {
                            Some(x) => x,
                            None => {
                                proof {
                                    assert(false);
                                }
                                0
                            },
                        };
                        proof {
                            lemma_title_from(sv, t@, 0);
                        }
                        let tt = copy_chars(&secs[x].0);
                        let mut nodes = copy_indices(&secs[x].1);
                        let ghost old_nodes = nodes@;
                        nodes.push(k);
                        proof {
                            assert(nodes@.map_values(|i: usize| i as int) =~= old_nodes.map_values(|i: usize| i as int).push(k as int));
                            assert(sv[x as int].0 == t@);
                        }
                        secs.set(x, (tt, nodes));
                        proof {
                            assert(sections_view(secs@) =~= sv.update(x as int, (t@, sv[x as int].1.push(k as int))));
                            lemma_title_update(sv, t@, x as int, sv[x as int].1.push(k as int));
                        }
                    },
                    None => {},
                }
            }
        } else {
            proof {
                assert(all_where(p, c + 1, k + 1) == kids);
            }
        }
        k = k + 1;
    }
    secs
}

proof fn lemma_title_from(secs: Seq<(Seq<char>, Seq<int>)>, t: Seq<char>, i: int)
    ensures
        title_from(secs, t, i) >= 0 ==> i <= title_from(secs, t, i) < secs.len() && secs[title_from(secs, t, i)].0 == t,
    decreases secs.len() - i,
{
    if 0 <= i < secs.len() && secs[i].0 != t {
        lemma_title_from(secs, t, i + 1);
    }
}

proof fn lemma_title_push(secs: Seq<(Seq<char>, Seq<int>)>, t: Seq<char>, nodes: Seq<int>)
    requires
        title_from(secs, t, 0) < 0,
    ensures
        title_from(secs.push((t, nodes)), t, 0) == secs.len(),
{
    lemma_title_push_from(secs, t, nodes, 0);
}

proof fn lemma_title_push_from(secs: Seq<(Seq<char>, Seq<int>)>, t: Seq<char>, nodes: Seq<int>, i: int)
    requires
        0 <= i <= secs.len(),
        title_from(secs, t, i) < 0,
    ensures
        title_from(secs.push((t, nodes)), t, i) == secs.len(),
    decreases secs.len() - i,
{
    if i < secs.len() {
        lemma_title_push_from(secs, t, nodes, i + 1);
    }
}

proof fn lemma_title_update(secs: Seq<(Seq<char>, Seq<int>)>, t: Seq<char>, x: int, nodes: Seq<int>)
    requires
        0 <= x < secs.len(),
        title_from(secs, t, 0) == x,
        secs[x].0 == t,
    ensures
        forall|u: Seq<char>| title_from(secs.update(x, (t, nodes)), u, 0) == title_from(secs, u, 0),
{
    assert forall|u: Seq<char>| title_from(secs.update(x, (t, nodes)), u, 0) == title_from(secs, u, 0) by {
        lemma_title_update_from(secs, t, x, nodes, u, 0);
    }
}

proof fn lemma_title_update_from(secs: Seq<(Seq<char>, Seq<int>)>, t: Seq<char>, x: int, nodes: Seq<int>, u: Seq<char>, i: int)
    requires
        0 <= x < secs.len(),
        0 <= i <= secs.len(),
        secs[x].0 == t,
    ensures
        title_from(secs.update(x, (t, nodes)), u, i) == title_from(secs, u, i),
    decreases secs.len() - i,
{
    if i < secs.len() {
        lemma_title_update_from(secs, t, x, nodes, u, i + 1);
    }
}

/// Positions as mathematical indices.
pub open spec fn idx(v: Seq<usize>) -> Seq<int> {
    v.map_values(|i: usize| i as int)
}

/// The first section whose heading contains `kw`.
fn find_section_in(secs: &Vec<(Vec<char>, Vec<usize>)>, kw: &str) -> (r: Option<usize>)
    ensures
        as_index(r) == find_section(sections_view(secs@), kw@, 0),
        r matches Some(i) ==> i < secs.len(),
{
    let ghost sv = sections_view(secs@);
    let mut i: usize = 0;
    while i < secs.len()
        invariant
            i <= secs.len() == sv.len(),
            sv == sections_view(secs@),
            find_section(sv, kw@, 0) == find_section(sv, kw@, i as int),
        decreases secs.len() - i,
    {
        if heading_is(&secs[i].0, kw) {
            return Some(i);
        }
        i = i + 1;
    }
    None
}

/// The non-empty paragraph texts among `nodes`.
fn paragraphs_among(doc: &Document, nodes: &Vec<usize>) -> (r: Vec<Vec<char>>)
    requires
        forall|m: int| 0 <= m < nodes@.len() ==> #[trigger] nodes@[m] < doc@.len(),
    ensures
        views(r@) == paragraph_texts(doc@, idx(nodes@)),
{
    let mut r: Vec<Vec<char>> = Vec::new();
    let mut i: usize = 0;
    proof {
        assert(idx(nodes@).take(0) =~= Seq::<int>::empty());
        assert(views(r@) =~= Seq::<Seq<char>>::empty());
    }
    while i < nodes.len()
        invariant
            i <= nodes.len(),
            forall|m: int| 0 <= m < nodes@.len() ==> #[trigger] nodes@[m] < doc@.len(),
            views(r@) == paragraph_texts(doc@, idx(nodes@).take(i as int)),
        decreases nodes.len() - i,
    {
        let k = nodes[i];
        proof {
            assert(idx(nodes@).take(i + 1).drop_last() =~= idx(nodes@).take(i as int));
            assert(idx(nodes@).take(i + 1).last() == k as int);
        }
        if element_named(doc, k, "p") {
            let t = text_of(doc, k);
            if t.len() > 0 {
                let ghost before = r@;
                r.push(t);
                proof {
                    assert(views(r@) =~= views(before).push(t@));
                }
            }
        }
        i = i + 1;
    }
    proof {
        assert(idx(nodes@).take(nodes.len() as int) =~= idx(nodes@));
    }
    r
}

/// The non-empty texts of the `li` elements in `lo .. hi`.
fn li_items(doc: &Document, lo: usize, hi: usize) -> (r: Vec<Vec<char>>)
    requires
        lo <= hi <= doc@.len(),
    ensures
        views(r@) == li_texts(doc@, lo as int, hi as int),
{
    let mut r: Vec<Vec<char>> = Vec::new();
    let mut k: usize = lo;
    proof {
        assert(views(r@) =~= Seq::<Seq<char>>::empty());
    }
    while k < hi
        invariant
            lo <= k <= hi <= doc@.len(),
            views(r@) == li_texts(doc@, lo as int, k as int),
        decreases hi - k,
    {
        if element_named(doc, k, "li") {
            let t = text_of(doc, k);
            if t.len() > 0 {
                let ghost before = r@;
                r.push(t);
                proof {
                    assert(views(r@) =~= views(before).push(t@));
                }
            }
        }
        k = k + 1;
    }
    r
}

/// The items of list `u`.
fn items_of_list(doc: &Document, u: usize) -> (r: Vec<Vec<char>>)
    requires
        u < doc@.len(),
    ensures
        views(r@) == list_items(doc@, u as int),
{
    let e = subtree_end_of(doc, u);
    li_items(doc, u + 1, e)
}

fn is_list_at(doc: &Document, k: usize) -> (b: bool)
    requires
        k < doc@.len(),
    ensures
        b == is_list(doc@[k as int]),
{
    element_named(doc, k, "ul") || element_named(doc, k, "ol")
}

/// The items of all the lists among `nodes`.
fn list_items_among(doc: &Document, nodes: &Vec<usize>) -> (r: Vec<Vec<char>>)
    requires
        forall|m: int| 0 <= m < nodes@.len() ==> #[trigger] nodes@[m] < doc@.len(),
    ensures
        views(r@) == list_texts(doc@, idx(nodes@)),
{
    let mut r: Vec<Vec<char>> = Vec::new();
    let mut i: usize = 0;
    proof {
        assert(idx(nodes@).take(0) =~= Seq::<int>::empty());
        assert(views(r@) =~= Seq::<Seq<char>>::empty());
    }
    while i < nodes.len()
        invariant
            i <= nodes.len(),
            forall|m: int| 0 <= m < nodes@.len() ==> #[trigger] nodes@[m] < doc@.len(),
            views(r@) == list_texts(doc@, idx(nodes@).take(i as int)),
        decreases nodes.len() - i,
    {
        let k = nodes[i];
        proof {
            assert(idx(nodes@).take(i + 1).drop_last() =~= idx(nodes@).take(i as int));
            assert(idx(nodes@).take(i + 1).last() == k as int);
        }
        if is_list_at(doc, k) {
            let items = items_of_list(doc, k);
            let ghost before = r@;
            let mut j: usize = 0;
            while j < items.len()
                invariant
                    j <= items.len(),
                    views(r@) == views(before) + views(items@).take(j as int),
                decreases items.len() - j,
            {
                let ghost mid = r@;
                r.push(copy_chars(&items[j]));
                j = j + 1;
                proof {
                    assert(views(r@) =~= views(mid).push(items@[j - 1]@));
                    assert(views(items@).take(j as int) =~= views(items@).take(j - 1).push(items@[j - 1]@));
                }
            }
            proof {
                assert(views(items@).take(items.len() as int) =~= views(items@));
            }
        }
        i = i + 1;
    }
    proof {
        assert(idx(nodes@).take(nodes.len() as int) =~= idx(nodes@));
    }
    r
}

/// The positions of the lists among `nodes`.
fn lists_among(doc: &Document, nodes: &Vec<usize>) -> (r: Vec<usize>)
    requires
        forall|m: int| 0 <= m < nodes@.len() ==> #[trigger] nodes@[m] < doc@.len(),
    ensures
        idx(r@) == lists_of(doc@, idx(nodes@)),
        forall|m: int| 0 <= m < r@.len() ==> #[trigger] r@[m] < doc@.len(),
{
    let mut r: Vec<usize> = Vec::new();
    let mut i: usize = 0;
    proof {
        assert(idx(nodes@).take(0) =~= Seq::<int>::empty());
        assert(idx(r@) =~= Seq::<int>::empty());
    }
    while i < nodes.len()
        invariant
            i <= nodes.len(),
            forall|m: int| 0 <= m < nodes@.len() ==> #[trigger] nodes@[m] < doc@.len(),
            forall|m: int| 0 <= m < r@.len() ==> #[trigger] r@[m] < doc@.len(),
            idx(r@) == lists_of(doc@, idx(nodes@).take(i as int)),
        decreases nodes.len() - i,
    {
        let k = nodes[i];
        proof {
            assert(idx(nodes@).take(i + 1).drop_last() =~= idx(nodes@).take(i as int));
            assert(idx(nodes@).take(i + 1).last() == k as int);
        }
        if is_list_at(doc, k) {
            let ghost before = r@;
            r.push(k);
            proof {
                assert(idx(r@) =~= idx(before).push(k as int));
            }
        }
        i = i + 1;
    }
    proof {
        assert(idx(nodes@).take(nodes.len() as int) =~= idx(nodes@));
    }
    r
}

/// The sections of a page, as `sections_of` computed them.
pub open spec fn sections_of_page(doc: Seq<NodeView>, secs: Seq<(Vec<char>, Vec<usize>)>) -> bool {
    sections_view(secs) == page_sections(doc) && sections_in(sections_view(secs), doc.len() as int)
}

proof fn lemma_section_nodes(doc: Seq<NodeView>, secs: Seq<(Vec<char>, Vec<usize>)>, i: int)
    requires
        sections_of_page(doc, secs),
        0 <= i < secs.len(),
    ensures
        idx(secs[i].1@) == page_sections(doc)[i].1,
        forall|m: int| 0 <= m < secs[i].1@.len() ==> #[trigger] secs[i].1@[m] < doc.len(),
{
    let sv = sections_view(secs);
    assert(sv[i] == (secs[i].0@, idx(secs[i].1@)));
    assert forall|m: int| 0 <= m < secs[i].1@.len() implies #[trigger] secs[i].1@[m] < doc.len() by {
        assert(sv[i].1[m] == secs[i].1@[m] as int);
    }
}

/// The paragraphs of the section whose heading contains `kw`.
fn grab_paragraphs(doc: &Document, secs: &Vec<(Vec<char>, Vec<usize>)>, kw: &str) -> (r: Vec<Vec<char>>)
    requires
        sections_of_page(doc@, secs@),
    ensures
        views(r@) == section_paragraphs(doc@, kw@),
{
    match find_section_in(secs, kw) {
        Some(i) => {
            proof {
                lemma_section_nodes(doc@, secs@, i as int);
            }
            paragraphs_among(doc, &secs[i].1)
        },
        None => {
            let r: Vec<Vec<char>> = Vec::new();
            proof {
                assert(views(r@) =~= Seq::<Seq<char>>::empty());
            }
            r
        },
    }
}

/// The items of every list of the section whose heading contains `kw`.
fn grab_list(doc: &Document, secs: &Vec<(Vec<char>, Vec<usize>)>, kw: &str) -> (r: Vec<Vec<char>>)
    requires
        sections_of_page(doc@, secs@),
    ensures
        views(r@) == section_list(doc@, kw@),
{
    match find_section_in(secs, kw) {
        Some(i) => {
            proof {
                lemma_section_nodes(doc@, secs@, i as int);
            }
            list_items_among(doc, &secs[i].1)
        },
        None => {
            let r: Vec<Vec<char>> = Vec::new();
            proof {
                assert(views(r@) =~= Seq::<Seq<char>>::empty());
            }
            r
        },
    }
}

/// The items of the `n`-th list of a section.
fn grab_nth_list(doc: &Document, secs: &Vec<(Vec<char>, Vec<usize>)>, kw: &str, n: usize) -> (r: Vec<Vec<char>>)
    requires
        sections_of_page(doc@, secs@),
    ensures
        views(r@) == section_nth_list(doc@, kw@, n as nat),
{
    let empty: Vec<Vec<char>> = Vec::new();
    proof {
        assert(views(empty@) =~= Seq::<Seq<char>>::empty());
    }
    match find_section_in(secs, kw) {
        Some(i) => {
            proof {
                lemma_section_nodes(doc@, secs@, i as int);
            }
            let ls = lists_among(doc, &secs[i].1);
            if ls.len() > n {
                items_of_list(doc, ls[n])
            } else {
                empty
            }
        },
        None => empty,
    }
}

fn holds_index(v: &Vec<usize>, p: usize) -> (b: bool)
    ensures
        b == idx(v@).contains(p as int),
{
    let mut m: usize = 0;
    while m < v.len()
        invariant
            m <= v.len(),
            forall|j: int| 0 <= j < m ==> v@[j] != p,
        decreases v.len() - m,
    {
        if v[m] == p {
            proof {
                assert(idx(v@)[m as int] == p as int);
            }
            return true;
        }
        m = m + 1;
    }
    proof {
        assert forall|j: int| 0 <= j < idx(v@).len() implies idx(v@)[j] != p as int by {
            assert(idx(v@)[j] == v@[j] as int);
        }
    }
    false
}

proof fn lemma_coordinator(ns: Seq<NodeView>, secs: Seq<(Seq<char>, Seq<int>)>, k: int, p: int, j: int)
    requires
        parent_of(ns, k) == Some(p),
        0 <= j < secs.len(),
        heading_mentions(secs[j].0, "programme coordinator"@),
        secs[j].1.contains(p),
    ensures
        in_coordinator_section(ns, secs, k),
{
    match parent_of(ns, k) {
        Some(q) => {
            assert(q == p);
            assert(secs[j].1.contains(q));
        },
        None => {},
    }
}

/// Whether link `k` sits in a programme coordinator section.
fn coordinator_link(doc: &Document, secs: &Vec<(Vec<char>, Vec<usize>)>, k: usize) -> (b: bool)
    requires
        k < doc@.len(),
    ensures
        b == in_coordinator_section(doc@, sections_view(secs@), k as int),
{
    let ghost sv = sections_view(secs@);
    match parent_index(doc, k) {
        None => false,
        Some(p) => {
            let mut j: usize = 0;
            while j < secs.len()
                invariant
                    j <= secs.len() == sv.len(),
                    sv == sections_view(secs@),
                    k < doc@.len(),
                    as_index(Some(p)) == parent_of(doc@, k as int),
                    forall|q: int| 0 <= q < j ==> !(heading_mentions(sv[q].0, "programme coordinator"@)
                        && #[trigger] sv[q].1.contains(p as int)),
                decreases secs.len() - j,
            {
                if heading_is(&secs[j].0, "programme coordinator") && holds_index(&secs[j].1, p) {
                    proof {
                        assert(sv[j as int].1 == idx(secs@[j as int].1@));
                        assert(sv[j as int].1.contains(p as int));
                        lemma_coordinator(doc@, sv, k as int, p as int, j as int);
                    }
                    return true;
                }
                proof {
                    assert(sv[j as int].1 == idx(secs@[j as int].1@));
                }
                j = j + 1;
            }
            false
        },
    }
}

/// The coordinator links: text and target of each.
fn coordinator_links_of(doc: &Document, secs: &Vec<(Vec<char>, Vec<usize>)>) -> (r: Vec<(Vec<char>, Vec<char>)>)
    ensures
        r@.map_values(|x: (Vec<char>, Vec<char>)| (x.0@, x.1@)) == coordinator_links(doc@, sections_view(secs@), doc@.len() as int),
{
    let n = doc.nodes.len();
    assert(doc@.len() == n);
    let mut r: Vec<(Vec<char>, Vec<char>)> = Vec::new();
    let mut k: usize = 0;
    proof {
        assert(r@.map_values(|x: (Vec<char>, Vec<char>)| (x.0@, x.1@)) =~= Seq::<(Seq<char>, Seq<char>)>::empty());
    }
    while k < n
        invariant
            k <= n == doc@.len(),
            r@.map_values(|x: (Vec<char>, Vec<char>)| (x.0@, x.1@)) == coordinator_links(doc@, sections_view(secs@), k as int),
        decreases n - k,
    {
        if element_named(doc, k, "a") && coordinator_link(doc, secs, k) {
            let t = text_of(doc, k);
            let h = href_at(doc, k);
            let ghost before = r@;
            r.push((t, h));
            proof {
                assert(r@.map_values(|x: (Vec<char>, Vec<char>)| (x.0@, x.1@)) =~= before.map_values(|x: (Vec<char>, Vec<char>)| (x.0@, x.1@)).push((t@, h@)));
            }
        }
        k = k + 1;
    }
    r
}

/// The `href` of element `k`, or the empty text.
fn href_at(doc: &Document, k: usize) -> (r: Vec<char>)
    requires
        k < doc@.len(),
    ensures
        r@ == href_of(doc@, k as int),
{
    match attribute(doc, k, "href") {
        Some(h) => h,
        None => Vec::new(),
    }
}

fn is_services_link(doc: &Document, k: usize) -> (b: bool)
    requires
        k < doc@.len(),
    ensures
        b == (services_pred(doc@))(k as int),
{
    if !element_named(doc, k, "a") {
        return false;
    }
    let t = to_ascii_lower(&text_of(doc, k));
    let pat = chars_of("student services");
    has_substring(&t, pat.as_slice())
}

fn is_description_link(doc: &Document, k: usize) -> (b: bool)
    requires
        k < doc@.len(),
    ensures
        b == (description_pred(doc@))(k as int),
{
    if !element_named(doc, k, "a") {
        return false;
    }
    let t = to_ascii_lower(&text_of(doc, k));
    let pat = chars_of("short description");
    let here = chars_of("here");
    has_substring(&t, pat.as_slice()) || same_chars(&t, &here)
}

/// The target of the first link to student services.
fn services_link(doc: &Document) -> (r: Option<Vec<char>>)
    ensures
        opt_chars(r) == first_link(doc@, services_pred(doc@)),
{
    let n = doc.nodes.len();
    assert(doc@.len() == n);
    let mut k: usize = 0;
    while k < n
        invariant
            k <= n == doc@.len(),
            first_where(n as int, services_pred(doc@), 0) == first_where(n as int, services_pred(doc@), k as int),
        decreases n - k,
    {
        if is_services_link(doc, k) {
            return Some(href_at(doc, k));
        }
        k = k + 1;
    }
    None
}

/// The target of the first link to the short course descriptions.
fn description_link(doc: &Document) -> (r: Option<Vec<char>>)
    ensures
        opt_chars(r) == first_link(doc@, description_pred(doc@)),
{
    let n = doc.nodes.len();
    assert(doc@.len() == n);
    let mut k: usize = 0;
    while k < n
        invariant
            k <= n == doc@.len(),
            first_where(n as int, description_pred(doc@), 0) == first_where(n as int, description_pred(doc@), k as int),
        decreases n - k,
    {
        if is_description_link(doc, k) {
            return Some(href_at(doc, k));
        }
        k = k + 1;
    }
    None
}

/// The completion requirements paragraph.
fn completion_of(doc: &Document) -> (r: Option<Vec<char>>)
    ensures
        opt_chars(r) == completion_text(doc@),
{
    let n = doc.nodes.len();
    assert(doc@.len() == n);
    let mut k: usize = 0;
    while k < n
        invariant
            k <= n == doc@.len(),
            first_where(n as int, completion_pred(doc@), 0) == first_where(n as int, completion_pred(doc@), k as int),
        decreases n - k,
    {
        if element_named(doc, k, "h3") && heading_is(&text_of(doc, k), "requirements for the completion") {
            return match next_sibling_of(doc, k) {
                Some(j) => {
                    proof {
                        lemma_scan_end(doc@, doc@[k as int].depth, k + 1);
                    }
                    if element_named(doc, j, "p") {
                        Some(text_of(doc, j))
                    } else {
                        None
                    }
                },
                None => None,
            };
        }
        k = k + 1;
    }
    None
}

/// A course row as values.
pub open spec fn row_view(r: CourseRow) -> RowView {
    RowView {
        course: r.course@,
        ects: r.ects@,
        l: r.l@,
        s: r.s@,
        t: r.t@,
        lw: r.lw@,
        extra: match r.extra {
            Some(e) => Some(e@),
            None => None,
        },
        total: r.total@,
    }
}

/// Course rows as values.
pub open spec fn rows_view(v: Seq<CourseRow>) -> Seq<RowView> {
    v.map_values(|r: CourseRow| row_view(r))
}

/// A course table as values.
pub open spec fn table_view(t: CourseTable) -> TableView {
    TableView { title: t.title@, caption: t.caption@, rows: rows_view(t.rows@) }
}

/// Course tables as values.
pub open spec fn tables_view(v: Seq<CourseTable>) -> Seq<TableView> {
    v.map_values(|t: CourseTable| table_view(t))
}

/// The lower-cased texts of the elements called `name` in `lo .. hi`.
fn lowered_texts_in(doc: &Document, name: &str, lo: usize, hi: usize) -> (r: Vec<Vec<char>>)
    requires
        lo <= hi <= doc@.len(),
    ensures
        views(r@) == lowered_texts(doc@, name@, lo as int, hi as int),
{
    let mut r: Vec<Vec<char>> = Vec::new();
    let mut k: usize = lo;
    proof {
        assert(views(r@) =~= Seq::<Seq<char>>::empty());
    }
    while k < hi
        invariant
            lo <= k <= hi <= doc@.len(),
            views(r@) == lowered_texts(doc@, name@, lo as int, k as int),
        decreases hi - k,
    {
        if element_named(doc, k, name) {
            let t = text_of(doc, k);
            let l = to_lowercase(t.as_slice());
            let ghost before = r@;
            r.push(l);
            proof {
                assert(views(r@) =~= views(before).push(l@));
            }
        }
        k = k + 1;
    }
    r
}

/// The texts of the elements called `name` in `lo .. hi`.
fn element_texts_in(doc: &Document, name: &str, lo: usize, hi: usize) -> (r: Vec<Vec<char>>)
    requires
        lo <= hi <= doc@.len(),
    ensures
        views(r@) == element_texts(doc@, name@, lo as int, hi as int),
{
    let mut r: Vec<Vec<char>> = Vec::new();
    let mut k: usize = lo;
    proof {
        assert(views(r@) =~= Seq::<Seq<char>>::empty());
    }
    while k < hi
        invariant
            lo <= k <= hi <= doc@.len(),
            views(r@) == element_texts(doc@, name@, lo as int, k as int),
        decreases hi - k,
    {
        if element_named(doc, k, name) {
            let t = text_of(doc, k);
            let ghost before = r@;
            r.push(t);
            proof {
                assert(views(r@) =~= views(before).push(t@));
            }
        }
        k = k + 1;
    }
    r
}

/// Whether some text among `ts` contains `p`.
fn any_has(ts: &Vec<Vec<char>>, p: &str) -> (b: bool)
    ensures
        b == any_contains(views(ts@), p@),
{
    let pat = chars_of(p);
    let mut j: usize = 0;
    while j < ts.len()
        invariant
            j <= ts.len(),
            pat@ == p@,
            forall|q: int| 0 <= q < j ==> !contains(#[trigger] views(ts@)[q], p@),
        decreases ts.len() - j,
    {
        if has_substring(&ts[j], pat.as_slice()) {
            proof {
                assert(contains(views(ts@)[j as int], p@));
            }
            return true;
        }
        j = j + 1;
    }
    false
}

/// The text without its trailing dots.
fn without_trailing_dots(c: &Vec<char>) -> (r: Vec<char>)
    ensures
        r@ == strip_dots(c@),
{
    let mut n: usize = c.len();
    proof {
        assert(c@.take(n as int) =~= c@);
    }
    while n > 0 && c[n - 1] == '.'
        invariant
            n <= c.len(),
            strip_dots(c@) == strip_dots(c@.take(n as int)),
        decreases n,
    {
        proof {
            assert(c@.take(n as int).drop_last() =~= c@.take(n - 1));
        }
        n = n - 1;
    }
    let r = slice_of(c, 0, n);
    proof {
        assert(c@.subrange(0, n as int) =~= c@.take(n as int));
    }
    r
}

fn numbered_cell(c: &Vec<char>) -> (b: bool)
    ensures
        b == numbered(c@),
{
    if c.len() == 0 || c[c.len() - 1] != '.' {
        return false;
    }
    let s = without_trailing_dots(c);
    parse_bounded(&s, 0xffff_ffff).is_some()
}

fn cell_at(cells: &Vec<Vec<char>>, off: usize, n: usize) -> (r: String)
    requires
        off <= 1,
        n < 8,
    ensures
        r@ == cell(views(cells@), off as int, n as int),
{
    if off + n < cells.len() {
        string_from(cells[off + n].as_slice())
    } else {
        string_from(&[])
    }
}

/// The course row a table row gives.
fn row_from_cells(cells: &Vec<Vec<char>>) -> (r: Option<CourseRow>)
    ensures
        match r {
            Some(row) => row_of(views(cells@)) == Some(row_view(row)),
            None => row_of(views(cells@)) is None,
        },
{
    if cells.len() < 2 {
        return None;
    }
    let off: usize = if numbered_cell(&cells[0]) { 1 } else { 0 };
    let n = cells.len() - off;
    if n < 6 {
        return None;
    }
    let extra = if n > 7 { Some(cell_at(cells, off, 6)) } else { None };
    let total = if n > 7 { cell_at(cells, off, 7) } else { cell_at(cells, off, 6) };
    let row = CourseRow {
        course: cell_at(cells, off, 0),
        ects: cell_at(cells, off, 1),
        l: cell_at(cells, off, 2),
        s: cell_at(cells, off, 3),
        t: cell_at(cells, off, 4),
        lw: cell_at(cells, off, 5),
        extra,
        total,
    };
    Some(row)
}

/// The course rows of the `tr` elements in `lo .. hi`.
fn rows_in(doc: &Document, lo: usize, hi: usize) -> (r: Vec<CourseRow>)
    requires
        lo <= hi <= doc@.len(),
    ensures
        rows_view(r@) == rows_between(doc@, lo as int, hi as int),
{
    let mut r: Vec<CourseRow> = Vec::new();
    let mut k: usize = lo;
    proof {
        assert(rows_view(r@) =~= Seq::<RowView>::empty());
    }
    while k < hi
        invariant
            lo <= k <= hi <= doc@.len(),
            rows_view(r@) == rows_between(doc@, lo as int, k as int),
        decreases hi - k,
    {
        if element_named(doc, k, "tr") {
            let e = subtree_end_of(doc, k);
            let cells = element_texts_in(doc, "td", k + 1, e);
            match row_from_cells(&cells) {
                Some(row) => {
                    let ghost before = r@;
                    let ghost rv = row_view(row);
                    r.push(row);
                    proof {
                        assert(rows_view(r@) =~= rows_view(before).push(rv));
                    }
                },
                None => {},
            }
        }
        k = k + 1;
    }
    r
}

/// Whitespace runs collapsed to single spaces.
fn squeezed(s: &Vec<char>) -> (r: Vec<char>)
    ensures
        r@ == squeeze(s@),
{
    let w = split_words(s);
    let r = join_with(&w, &[' ']);
    proof {
        assert([' ']@ =~= " "@) by {
            reveal_strlit(" ");
        }
    }
    r
}

/// The heading of table `t`.
fn heading_of_table(doc: &Document, t: usize) -> (r: Vec<char>)
    requires
        t < doc@.len(),
    ensures
        r@ == table_heading(doc@, t as int),
{
    let h: Vec<char> = match prev_sibling_element_of(doc, t) {
        Some(e) => {
            proof {
                lemma_scan_prev_element(doc@, doc@[t as int].depth, t - 1);
            }
            text_of(doc, e)
        },
        None => match parent_index(doc, t) {
            Some(p) => match prev_sibling_element_of(doc, p) {
                Some(e) => {
                    proof {
                        lemma_scan_prev_element(doc@, doc@[p as int].depth, p - 1);
                    }
                    text_of(doc, e)
                },
                None => Vec::new(),
            },
            None => Vec::new(),
        },
    };
    squeezed(&h)
}

fn legend_text(doc: &Document, e: usize) -> (r: Vec<char>)
    requires
        e < doc@.len(),
    ensures
        r@ == legend_of(doc@, e as int),
{
    let x = text_of(doc, e);
    let l = to_lowercase(x.as_slice());
    let a = chars_of("l = lecture");
    let b = chars_of("legend:");
    if has_substring(&l, a.as_slice()) || has_substring(&l, b.as_slice()) {
        x
    } else {
        Vec::new()
    }
}

/// The legend of table `t`.
fn caption_of_table(doc: &Document, t: usize) -> (r: Vec<char>)
    requires
        t < doc@.len(),
    ensures
        r@ == table_caption(doc@, t as int),
{
    let c: Vec<char> = match next_sibling_element_of(doc, t) {
        Some(e) => {
            proof {
                lemma_scan_next_element(doc@, doc@[t as int].depth, t + 1);
            }
            legend_text(doc, e)
        },
        None => match parent_index(doc, t) {
            Some(p) => match next_sibling_element_of(doc, p) {
                Some(e) => {
                    proof {
                        lemma_scan_next_element(doc@, doc@[p as int].depth, p + 1);
                    }
                    legend_text(doc, e)
                },
                None => Vec::new(),
            },
            None => Vec::new(),
        },
    };
    squeezed(&c)
}

/// The course tables of the page.
fn course_tables_of(doc: &Document) -> (r: Vec<CourseTable>)
    ensures
        tables_view(r@) == tables_before(doc@, doc@.len() as int),
{
    let n = doc.nodes.len();
    assert(doc@.len() == n);
    let mut r: Vec<CourseTable> = Vec::new();
    let mut t: usize = 0;
    proof {
        assert(tables_view(r@) =~= Seq::<TableView>::empty());
    }
    while t < n
        invariant
            t <= n == doc@.len(),
            tables_view(r@) == tables_before(doc@, t as int),
        decreases n - t,
    {
        if element_named(doc, t, "table") && within_content(doc, t) {
            let e = subtree_end_of(doc, t);
            let hs = lowered_texts_in(doc, "th", t + 1, e);
            if any_has(&hs, "ects") && any_has(&hs, "course") {
                let rows = rows_in(doc, t + 1, e);
                if rows.len() > 0 {
                    let title = string_from(heading_of_table(doc, t).as_slice());
                    let caption = string_from(caption_of_table(doc, t).as_slice());
                    let ghost before = r@;
                    let table = CourseTable { title, caption, rows };
                    let ghost tv = table_view(table);
                    r.push(table);
                    proof {
                        assert(tables_view(r@) =~= tables_view(before).push(tv));
                    }
                }
            }
        }
        t = t + 1;
    }
    r
}

/// The inner HTML of node `k`.
fn inner_html_at(doc: &Document, k: usize) -> (r: Vec<char>)
    requires
        k < doc@.len(),
    ensures
        r@ == inner_of(doc@[k as int]),
{
    proof {
        assert(doc@[k as int] == doc.nodes@[k as int]@);
    }
    match &doc.nodes[k].kind {
        NodeKind::Element(_, _, h) => copy_chars(h),
        _ => Vec::new(),
    }
}

/// The lines of the general information paragraph.
fn general_info_lines(doc: &Document) -> (r: Vec<Vec<char>>)
    ensures
        views(r@) == general_lines(doc@),
{
    let inner: Vec<char> = match first_content_paragraph(doc) {
        Some(k) => {
            proof {
                lemma_first_where(doc@.len() as int, content_p_pred(doc@), 0);
            }
            inner_html_at(doc, k)
        },
        None => Vec::new(),
    };
    let br = chars_of("<br");
    proof {
        reveal_strlit("<br");
    }
    let chunks = split_by(&inner, br.as_slice());
    let mut r: Vec<Vec<char>> = Vec::new();
    let mut i: usize = 0;
    proof {
        assert(views(chunks@).take(0) =~= Seq::<Seq<char>>::empty());
        assert(views(r@) =~= Seq::<Seq<char>>::empty());
    }
    while i < chunks.len()
        invariant
            i <= chunks.len(),
            views(r@) == info_lines(views(chunks@).take(i as int)),
        decreases chunks.len() - i,
    {
        proof {
            assert(views(chunks@).take(i + 1).drop_last() =~= views(chunks@).take(i as int));
            assert(views(chunks@).take(i + 1).last() == chunks@[i as int]@);
        }
        let d = decode_entities(chunks[i].as_slice());
        let l = trimmed(&d);
        if l.len() > 0 {
            let ghost before = r@;
            r.push(l);
            proof {
                assert(views(r@) =~= views(before).push(l@));
            }
        }
        i = i + 1;
    }
    proof {
        assert(views(chunks@).take(chunks.len() as int) =~= views(chunks@));
    }
    r
}

fn em_dash() -> (r: String)
    ensures
        r@ == "\u{2014}"@,
{
    let r = string_from(&['\u{2014}']);
    proof {
        reveal_strlit("\u{2014}");
        assert(['\u{2014}']@ =~= "\u{2014}"@);
    }
    r
}

/// The value of a labelled line.
fn peel_label(lines: &Vec<Vec<char>>, label: &str) -> (r: String)
    ensures
        r@ == peel(views(lines@), label@),
{
    let ghost lv = views(lines@);
    let lab = chars_of(label);
    let ll = to_lowercase(lab.as_slice());
    let mut i: usize = 0;
    while i < lines.len()
        invariant
            i <= lines.len() == lv.len(),
            lv == views(lines@),
            ll@ == lowercase(label@),
            line_with(lv, label@, 0) == line_with(lv, label@, i as int),
        decreases lines.len() - i,
    {
        let lower = to_lowercase(lines[i].as_slice());
        if has_substring(&lower, ll.as_slice()) {
            return match text_after(&lines[i], ':') {
                Some(v) => string_from(trimmed(&v).as_slice()),
                None => em_dash(),
            };
        }
        i = i + 1;
    }
    em_dash()
}

/// Texts as `String`s.
fn to_strings(v: Vec<Vec<char>>) -> (r: Vec<String>)
    ensures
        strings(r@) == views(v@),
{
    let mut r: Vec<String> = Vec::new();
    let mut i: usize = 0;
    while i < v.len()
        invariant
            i <= v.len(),
            strings(r@) == views(v@).take(i as int),
        decreases v.len() - i,
    {
        let ghost before = r@;
        let s = string_from(v[i].as_slice());
        r.push(s);
        proof {
            assert(strings(r@) =~= strings(before).push(v@[i as int]@));
            assert(views(v@).take(i + 1) =~= views(v@).take(i as int).push(v@[i as int]@));
        }
        i = i + 1;
    }
    proof {
        assert(views(v@).take(v.len() as int) =~= views(v@));
    }
    r
}

fn opt_string(o: Option<Vec<char>>) -> (r: Option<String>)
    ensures
        match r {
            Some(s) => opt_chars(o) == Some(s@),
            None => opt_chars(o) is None,
        },
{
    match o {
        Some(v) => Some(string_from(v.as_slice())),
        None => None,
    }
}

/// Texts as values.
pub open spec fn strings(v: Seq<String>) -> Seq<Seq<char>> {
    v.map_values(|s: String| s@)
}

/// An optional `String` as a value.
pub open spec fn opt_string_view(o: Option<String>) -> Option<Seq<char>> {
    match o {
        Some(s) => Some(s@),
        None => None,
    }
}

/// The page has an `h1` to take the programme's name from.
pub open spec fn has_title(ns: Seq<NodeView>) -> bool {
    first_named(ns, "h1"@) is Some
}

/// The programme's name: the text of the page's first `h1`.
pub open spec fn page_title(ns: Seq<NodeView>) -> Seq<char> {
    match first_named(ns, "h1"@) {
        Some(k) => node_text(ns, k),
        None => Seq::empty(),
    }
}

/// `p` is what the page `ns` says, part by part.
pub open spec fn extracted(ns: Seq<NodeView>, p: ProgrammeInfo) -> bool {
    let lines = general_lines(ns);
    &&& p.name@ == page_title(ns)
    &&& p.programme_type@ == peel(lines, "type of programme"@)
    &&& p.degree_awarded@ == peel(lines, "degree awarded"@)
    &&& p.duration@ == peel(lines, "duration"@)
    &&& p.ects_credits@ == peel(lines, "ects-credits"@)
    &&& p.structure@ == peel(lines, "programme structure"@)
    &&& p.mode_of_study@ == peel(lines, "mode of study"@)
    &&& p.language_of_study@ == peel(lines, "language of study"@)
    &&& p.coordinators@.map_values(|x: (String, String)| (x.0@, x.1@))
        == coordinator_links(ns, page_sections(ns), ns.len() as int)
    &&& opt_string_view(p.student_services) == first_link(ns, services_pred(ns))
    &&& opt_string_view(p.course_description) == first_link(ns, description_pred(ns))
    &&& strings(p.about@) == section_paragraphs(ns, "about the programme"@)
    &&& strings(p.goals@) == section_list(ns, "educational and professional goals"@)
    &&& strings(p.course_structure_notes@) == section_paragraphs(ns, "course structure"@)
    &&& strings(p.field_work@) == section_paragraphs(ns, "field work"@)
    &&& strings(p.admission_requirements@) == section_list(ns, "admission requirements"@)
    &&& strings(p.transfer_criteria@) == section_list(ns, "continuation of studies"@)
    &&& strings(p.advancement_requirements@) == section_paragraphs(ns, "advancement requirements"@)
    &&& opt_string_view(p.completion_requirements) == completion_text(ns)
    &&& strings(p.competencies_general@) == section_nth_list(ns, "graduate competencies"@, 0)
    &&& strings(p.competencies_subject@) == section_nth_list(ns, "graduate competencies"@, 1)
    &&& strings(p.employment_opportunities@) == section_paragraphs(ns, "employment opportunities"@)
    &&& tables_view(p.course_tables@) == tables_before(ns, ns.len() as int)
}

fn coordinator_strings(v: Vec<(Vec<char>, Vec<char>)>) -> (r: Vec<(String, String)>)
    ensures
        r@.map_values(|x: (String, String)| (x.0@, x.1@)) == v@.map_values(|x: (Vec<char>, Vec<char>)| (x.0@, x.1@)),
{
    let mut r: Vec<(String, String)> = Vec::new();
    let mut i: usize = 0;
    while i < v.len()
        invariant
            i <= v.len(),
            r@.map_values(|x: (String, String)| (x.0@, x.1@)) == v@.map_values(|x: (Vec<char>, Vec<char>)| (x.0@, x.1@)).take(i as int),
        decreases v.len() - i,
    {
        let ghost before = r@;
        let a = string_from(v[i].0.as_slice());
        let b = string_from(v[i].1.as_slice());
        r.push((a, b));
        proof {
            let w = v@.map_values(|x: (Vec<char>, Vec<char>)| (x.0@, x.1@));
            assert(r@.map_values(|x: (String, String)| (x.0@, x.1@)) =~= before.map_values(|x: (String, String)| (x.0@, x.1@)).push((a@, b@)));
            assert(w.take(i + 1) =~= w.take(i as int).push(w[i as int]));
        }
        i = i + 1;
    }
    proof {
        assert(v@.map_values(|x: (Vec<char>, Vec<char>)| (x.0@, x.1@)).take(v.len() as int) =~= v@.map_values(|x: (Vec<char>, Vec<char>)| (x.0@, x.1@)));
    }
    r
}

impl ProgrammeInfo {
    /// Reads a programme page from its document tree.
    pub fn from_document(doc: &Document) -> (p: ProgrammeInfo)
        requires
            has_title(doc@),
        ensures
            extracted(doc@, p),
    {
        let h1 = first_named_in(doc, "h1");
        let name = match h1 {
            Some(k) => {
                proof {
                    lemma_first_where(doc@.len() as int, named_pred(doc@, "h1"@), 0);
                }
                string_from(text_of(doc, k).as_slice())
            },
            None => string_from(&[]),
        };
        let secs = sections_of(doc);
        let lines = general_info_lines(doc);
        let coordinators = coordinator_strings(coordinator_links_of(doc, &secs));
        ProgrammeInfo {
            name,
            programme_type: peel_label(&lines, "type of programme"),
            degree_awarded: peel_label(&lines, "degree awarded"),
            duration: peel_label(&lines, "duration"),
            ects_credits: peel_label(&lines, "ects-credits"),
            structure: peel_label(&lines, "programme structure"),
            mode_of_study: peel_label(&lines, "mode of study"),
            language_of_study: peel_label(&lines, "language of study"),
            coordinators,
            student_services: opt_string(services_link(doc)),
            course_description: opt_string(description_link(doc)),
            about: to_strings(grab_paragraphs(doc, &secs, "about the programme")),
            goals: to_strings(grab_list(doc, &secs, "educational and professional goals")),
            course_structure_notes: to_strings(grab_paragraphs(doc, &secs, "course structure")),
            field_work: to_strings(grab_paragraphs(doc, &secs, "field work")),
            admission_requirements: to_strings(grab_list(doc, &secs, "admission requirements")),
            transfer_criteria: to_strings(grab_list(doc, &secs, "continuation of studies")),
            advancement_requirements: to_strings(grab_paragraphs(doc, &secs, "advancement requirements")),
            completion_requirements: opt_string(completion_of(doc)),
            competencies_general: to_strings(grab_nth_list(doc, &secs, "graduate competencies", 0)),
            competencies_subject: to_strings(grab_nth_list(doc, &secs, "graduate competencies", 1)),
            employment_opportunities: to_strings(grab_paragraphs(doc, &secs, "employment opportunities")),
            course_tables: course_tables_of(doc),
        }
    }

    /// Reads a programme page from its HTML; `None` when the page has no `h1`
    /// to name the programme. Reading such a page is refused (the reading
    /// itself, `from_document`, requires the title): `None` is what is
    /// answered in its place, and a caller that must fail there, as the
    /// programme tool does, fails on it.
    pub fn from_html(html: &str) -> (r: Option<ProgrammeInfo>)
        ensures
            r is Some <==> has_title(parsed_document(html@)),
            r matches Some(p) ==> extracted(parsed_document(html@), p),
    {
        let doc = parse_document(html);
        match first_named_in(&doc, "h1") {
            Some(_) => Some(ProgrammeInfo::from_document(&doc)),
            None => None,
        }
    }
}

/// The trimmed text after the first `:` of the first line that
/// starts with `label` (ignoring ASCII case) and has a `:`; an em dash when
/// there is none.
pub open spec fn peel_from(lines: Seq<Seq<char>>, label: Seq<char>, i: int) -> Seq<char>
    decreases lines.len() - i,
{
    if i < 0 || i >= lines.len() {
        "\u{2014}"@
    } else if starts_with(ascii_lower(lines[i]), ascii_lower(label)) && after_first(lines[i], ':') is Some {
        trim(after_first(lines[i], ':')->0)
    } else {
        peel_from(lines, label, i + 1)
    }
}

/// The value of a labelled line among `lines`.
pub fn peel_value(lines: &Vec<String>, label: &str) -> (r: String)
    ensures
        r@ == peel_from(strings(lines@), label@, 0),
{
    let ghost lv = strings(lines@);
    let ll = to_ascii_lower(&chars_of(label));
    let mut i: usize = 0;
    while i < lines.len()
        invariant
            i <= lines.len() == lv.len(),
            lv == strings(lines@),
            ll@ == ascii_lower(label@),
            peel_from(lv, label@, 0) == peel_from(lv, label@, i as int),
        decreases lines.len() - i,
    {
        let line = chars_of(lines[i].as_str());
        let lower = to_ascii_lower(&line);
        if has_prefix(&lower, ll.as_slice()) {
            match text_after(&line, ':') {
                Some(v) => {
                    return string_from(trimmed(&v).as_slice());
                },
                None => {},
            }
        }
        i = i + 1;
    }
    em_dash()
}

/// A link (`a` element) whose parent lies in a section headed "programme coordinator".
pub open spec fn coordinator_pred(ns: Seq<NodeView>, secs: Seq<(Seq<char>, Seq<int>)>) -> spec_fn(int) -> bool {
    |k: int| is_named(ns[k], "a"@) && in_coordinator_section(ns, secs, k)
}

/// A link's text and target.
pub open spec fn link_entry(ns: Seq<NodeView>) -> spec_fn(int) -> (Seq<char>, Seq<char>) {
    |k: int| (node_text(ns, k), href_of(ns, k))
}

/// The coordinators are every link (`a` element) whose parent lies in a
/// section headed "programme coordinator", each once, in document order:
/// its text and its target.
pub proof fn lemma_coordinators_are_all_links(ns: Seq<NodeView>, secs: Seq<(Seq<char>, Seq<int>)>, hi: int)
    requires
        0 <= hi <= ns.len(),
    ensures
        coordinator_links(ns, secs, hi)
            == Seq::new(hi as nat, |k: int| k).filter(coordinator_pred(ns, secs)).map_values(link_entry(ns)),
    decreases hi,
{
    reveal(Seq::filter);
    let pred = coordinator_pred(ns, secs);
    let f = link_entry(ns);
    let s = Seq::new(hi as nat, |k: int| k);
    if hi == 0 {
        assert(s.filter(pred) =~= Seq::<int>::empty());
        assert(s.filter(pred).map_values(f) =~= Seq::<(Seq<char>, Seq<char>)>::empty());
    } else {
        lemma_coordinators_are_all_links(ns, secs, hi - 1);
        let s0 = Seq::new((hi - 1) as nat, |k: int| k);
        assert(s.drop_last() =~= s0);
        assert(s.last() == hi - 1);
        assert(s.filter(pred) == if pred(s.last()) {
            s.drop_last().filter(pred).push(s.last())
        } else {
            s.drop_last().filter(pred)
        });
        if pred(hi - 1) {
            assert(s.filter(pred).map_values(f) =~= s0.filter(pred).map_values(f).push(f(hi - 1)));
        } else {
            assert(s.filter(pred) == s0.filter(pred));
        }
    }
}

} // verus!
