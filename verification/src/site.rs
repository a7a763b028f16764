//! Reading the faculty's listing pages: the programme lists and the staff
//! directory, and the content block of any page with its links made absolute.

use vstd::prelude::*;
use crate::catalog::{Programme, ProgrammeLevel};
use crate::ranking::{lemma_ranked_len, rank_names, ranked_by};
use crate::dom::{
    all_where, as_index, attr_of, attribute, element_at, element_named, first_where, is_element,
    is_named, KindView, NodeKind, depth_of, has_class, has_class_of, lemma_first_where, lemma_scan_up, node_text_run, parent_index, parse_document,
    parsed_document, scan_up, subtree_end, subtree_end_of, text_run_of, Document, NodeView,
};
use crate::programme_page::{content_div, href_of, named_pred, opt_string_view};
use crate::text::{
    chars_of, copy_chars, find, find_from, has_prefix, join, join_with, lemma_find, push_all,
    push_str, slice_of, starts_with, string_from, trim, trimmed, views, eq_ignore_ascii_case, same_chars, same_ignoring_ascii_case,
};

verus! {

/// A page to read.
#[derive(Debug, Clone)]
pub struct StructRequest {
    pub url: String,
}

/* ------------------------------------------------------------------ */
/*  URLs                                                                */
/* ------------------------------------------------------------------ */

/// The faculty's site, against which listed links are resolved.
pub const BASE_URL: &'static str = "https://www.famnit.upr.si";

/// What `url::Url::join` gives for `rel` on the URL that `url::Url::parse`
/// reads from `base`, written out; `None` when either step fails.
pub uninterp spec fn joined_url(base: Seq<char>, rel: Seq<char>) -> Option<Seq<char>>;

/// Parses `base` with `url::Url::parse` and joins `rel` to it with
/// `Url::join`; the text of the result is named by `joined_url`.
#[verifier::external_body]
fn join_url(base: &str, rel: &[char]) -> (r: Option<String>)
    ensures
        opt_string_view(r) == joined_url(base@, rel@),
{
    let rel: String = rel.iter().collect();
    url::Url::parse(base).and_then(|b| b.join(&rel)).ok().map(|u| u.to_string())
}

/* ------------------------------------------------------------------ */
/*  Ancestors                                                           */
/* ------------------------------------------------------------------ */

/// The nearest ancestor of `k` that satisfies `p`, climbing through element
/// parents only (as a descendant combinator does).
pub open spec fn up_find(ns: Seq<NodeView>, k: int, p: spec_fn(int) -> bool) -> Option<int>
    decreases k + 1,
{
    if k < 0 || k >= ns.len() {
        None
    } else {
        match scan_up(ns, ns[k].depth, k - 1) {
            Some(q) => if 0 <= q < k && is_element(ns[q]) {
                if p(q) {
                    Some(q)
                } else {
                    up_find(ns, q, p)
                }
            } else {
                None
            },
            None => None,
        }
    }
}

/// `div.content`, as a predicate on positions.
pub open spec fn content_at(ns: Seq<NodeView>) -> spec_fn(int) -> bool {
    |k: int| content_div(ns, k)
}

/// An element whose `id` is `id`.
pub open spec fn id_pred(ns: Seq<NodeView>, id: Seq<char>) -> spec_fn(int) -> bool {
    |k: int| attr_of(ns[k], "id"@) == Some(id)
}

pub proof fn lemma_up_find(ns: Seq<NodeView>, k: int, p: spec_fn(int) -> bool)
    ensures
        up_find(ns, k, p) matches Some(q) ==> 0 <= q < k < ns.len() && p(q),
    decreases k + 1,
{
    if 0 <= k < ns.len() {
        lemma_scan_up(ns, ns[k].depth, k - 1);
        match scan_up(ns, ns[k].depth, k - 1) {
            Some(q) => {
                if 0 <= q < k && is_element(ns[q]) && !p(q) {
                    lemma_up_find(ns, q, p);
                }
            },
            None => {},
        }
    }
}

/// The nearest element ancestor of `k` called `name`.
fn ancestor_named(doc: &Document, k: usize, name: &str) -> (r: Option<usize>)
    requires
        k < doc@.len(),
    ensures
        as_index(r) == up_find(doc@, k as int, named_pred(doc@, name@)),
{
    let mut cur: usize = k;
    loop
        invariant
            cur < doc@.len(),
            up_find(doc@, k as int, named_pred(doc@, name@)) == up_find(doc@, cur as int, named_pred(doc@, name@)),
        decreases cur,
    {
        proof {
            lemma_scan_up(doc@, doc@[cur as int].depth, cur - 1);
        }
        match parent_index(doc, cur) {
            None => {
                return None;
            },
            Some(p) => {
                if !element_at(doc, p) {
                    return None;
                }
                if element_named(doc, p, name) {
                    return Some(p);
                }
                cur = p;
            },
        }
    }
}

/// The nearest element ancestor of `k` that is a `div.content`.
fn ancestor_content(doc: &Document, k: usize) -> (r: Option<usize>)
    requires
        k < doc@.len(),
    ensures
        as_index(r) == up_find(doc@, k as int, content_at(doc@)),
{
    let mut cur: usize = k;
    loop
        invariant
            cur < doc@.len(),
            up_find(doc@, k as int, content_at(doc@)) == up_find(doc@, cur as int, content_at(doc@)),
        decreases cur,
    {
        proof {
            lemma_scan_up(doc@, doc@[cur as int].depth, cur - 1);
        }
        match parent_index(doc, cur) {
            None => {
                return None;
            },
            Some(p) => {
                if !element_at(doc, p) {
                    return None;
                }
                if element_named(doc, p, "div") && crate::dom::has_class_of(doc, p, "content") {
                    return Some(p);
                }
                cur = p;
            },
        }
    }
}

/// The nearest element ancestor of `k` whose `id` is `id`.
fn ancestor_with_id(doc: &Document, k: usize, id: &str) -> (r: Option<usize>)
    requires
        k < doc@.len(),
    ensures
        as_index(r) == up_find(doc@, k as int, id_pred(doc@, id@)),
{
    let want = chars_of(id);
    let mut cur: usize = k;
    loop
        invariant
            cur < doc@.len(),
            want@ == id@,
            up_find(doc@, k as int, id_pred(doc@, id@)) == up_find(doc@, cur as int, id_pred(doc@, id@)),
        decreases cur,
    {
        proof {
            lemma_scan_up(doc@, doc@[cur as int].depth, cur - 1);
        }
        match parent_index(doc, cur) {
            None => {
                return None;
            },
            Some(p) => {
                if !element_at(doc, p) {
                    return None;
                }
                let found = match attribute(doc, p, "id") {
                    Some(v) => crate::text::same_chars(&v, &want),
                    None => false,
                };
                if found {
                    return Some(p);
                }
                cur = p;
            },
        }
    }
}

/* ------------------------------------------------------------------ */
/*  Programme lists                                                     */
/* ------------------------------------------------------------------ */

/// `div.content ul li a`: a link inside a list item of a list inside the
/// page's content.
pub open spec fn list_link(ns: Seq<NodeView>, k: int) -> bool {
    &&& is_named(ns[k], "a"@)
    &&& match up_find(ns, k, named_pred(ns, "li"@)) {
        Some(l) => match up_find(ns, l, named_pred(ns, "ul"@)) {
            Some(u) => up_find(ns, u, content_at(ns)) is Some,
            None => false,
        },
        None => false,
    }
}

/// The text before the first `(`, as `split('(').next()` gives it.
pub open spec fn before_paren(s: Seq<char>) -> Seq<char> {
    let k = find(s, "("@);
    if k < 0 {
        s
    } else {
        s.take(k)
    }
}

/// The programme a list link names, with its resolved address, if it names one.
pub open spec fn listed(ns: Seq<NodeView>, k: int) -> Option<(Seq<char>, Seq<char>)> {
    let name = trim(before_paren(node_text_run(ns, k)));
    match attr_of(ns[k], "href"@) {
        Some(h) => if name.len() > 0 && !starts_with(h, "javascript:"@) {
            match joined_url(BASE_URL@, h) {
                Some(u) => Some((name, u)),
                None => None,
            }
        } else {
            None
        },
        None => None,
    }
}

/// The programmes listed by the links before `hi`: name and address.
pub open spec fn listed_before(ns: Seq<NodeView>, hi: int) -> Seq<(Seq<char>, Seq<char>)>
    decreases hi,
{
    if hi <= 0 {
        Seq::empty()
    } else {
        let r = listed_before(ns, hi - 1);
        if list_link(ns, hi - 1) {
            match listed(ns, hi - 1) {
                Some(e) => r.push(e),
                None => r,
            }
        } else {
            r
        }
    }
}

/// Programmes as their names and addresses.
pub open spec fn programmes_view(v: Seq<Programme>) -> Seq<(Seq<char>, Seq<char>)> {
    v.map_values(|p: Programme| (p.name@, p.url@))
}

fn is_list_link(doc: &Document, k: usize) -> (b: bool)
    requires
        k < doc@.len(),
    ensures
        b == list_link(doc@, k as int),
{
    if !element_named(doc, k, "a") {
        return false;
    }
    match ancestor_named(doc, k, "li") {
        Some(l) => {
            proof {
                lemma_up_find(doc@, k as int, named_pred(doc@, "li"@));
            }
            match ancestor_named(doc, l, "ul") {
                Some(u) => {
                    proof {
                        lemma_up_find(doc@, l as int, named_pred(doc@, "ul"@));
                    }
                    ancestor_content(doc, u).is_some()
                },
                None => false,
            }
        },
        None => false,
    }
}

fn text_before_paren(s: &Vec<char>) -> (r: Vec<char>)
    ensures
        r@ == before_paren(s@),
{
    let pat: [char; 1] = ['('];
    proof {
        reveal_strlit("(");
        assert(pat@ =~= "("@);
        lemma_find(s@, "("@);
    }
    match find_from(s, pat.as_slice(), 0) {
        Some(k) => {
            let r = slice_of(s, 0, k);
            proof {
                assert(s@.subrange(0, k as int) =~= s@.take(k as int));
            }
            r
        },
        None => copy_chars(s),
    }
}

fn listed_at(doc: &Document, k: usize) -> (r: Option<(Vec<char>, String)>)
    requires
        k < doc@.len(),
    ensures
        match r {
            Some(e) => listed(doc@, k as int) == Some((e.0@, e.1@)),
            None => listed(doc@, k as int) is None,
        },
{
    let raw = text_run_of(doc, k);
    let name = trimmed(&text_before_paren(&raw));
    match attribute(doc, k, "href") {
        Some(h) => {
            let js = chars_of("javascript:");
            if name.len() > 0 && !has_prefix(&h, js.as_slice()) {
                match join_url(BASE_URL, h.as_slice()) {
                    Some(u) => Some((name, u)),
                    None => None,
                }
            } else {
                None
            }
        },
        None => None,
    }
}

/// Reads the programmes listed on a programme list page: every link in a
/// list in the page's content that has a name (the text before any
/// parenthesis) and a target other than a script, with the target resolved
/// against the faculty's site.
pub fn programmes_on_page(doc: &Document, level: ProgrammeLevel) -> (r: Vec<Programme>)
    ensures
        programmes_view(r@) == listed_before(doc@, doc@.len() as int),
        forall|i: int| 0 <= i < r@.len() ==> (#[trigger] r@[i]).level == level,
{
    let n = doc.nodes.len();
    assert(doc@.len() == n);
    let mut r: Vec<Programme> = Vec::new();
    let mut k: usize = 0;
    proof {
        assert(programmes_view(r@) =~= Seq::<(Seq<char>, Seq<char>)>::empty());
    }
    while k < n
        invariant
            k <= n == doc@.len(),
            programmes_view(r@) == listed_before(doc@, k as int),
            forall|i: int| 0 <= i < r@.len() ==> (#[trigger] r@[i]).level == level,
        decreases n - k,
    {
        if is_list_link(doc, k) {
            match listed_at(doc, k) {
                Some((name, url)) => {
                    let ghost before = r@;
                    let p = Programme { name: string_from(name.as_slice()), url, level };
                    let ghost pv = (p.name@, p.url@);
                    r.push(p);
                    proof {
                        assert(programmes_view(r@) =~= programmes_view(before).push(pv));
                    }
                },
                None => {},
            }
        }
        k = k + 1;
    }
    r
}

/// Reads the programmes listed on a programme list page given as HTML.
pub fn parse_programme_list_page(html: &str, level: ProgrammeLevel) -> (r: Vec<Programme>)
    ensures
        programmes_view(r@) == listed_before(parsed_document(html@), parsed_document(html@).len() as int),
        forall|i: int| 0 <= i < r@.len() ==> (#[trigger] r@[i]).level == level,
{
    let doc = parse_document(html);
    programmes_on_page(&doc, level)
}

/* ------------------------------------------------------------------ */
/*  Staff directory                                                     */
/* ------------------------------------------------------------------ */

/// `#osebje-list tr`: a table row inside the staff list.
pub open spec fn staff_row(ns: Seq<NodeView>, k: int) -> bool {
    is_named(ns[k], "tr"@) && up_find(ns, k, id_pred(ns, "osebje-list"@)) is Some
}

/// The first link below node `e`.
pub open spec fn first_link_below(ns: Seq<NodeView>, e: int) -> Option<int> {
    first_where(subtree_end(ns, e), named_pred(ns, "a"@), e + 1)
}

/// The trimmed text of an optional link, or the empty text.
pub open spec fn link_text(ns: Seq<NodeView>, a: Option<int>) -> Seq<char> {
    match a {
        Some(k) => trim(node_text_run(ns, k)),
        None => Seq::empty(),
    }
}

/// The target of an optional link, or the empty text.
pub open spec fn link_target(ns: Seq<NodeView>, a: Option<int>) -> Seq<char> {
    match a {
        Some(k) => href_of(ns, k),
        None => Seq::empty(),
    }
}

/// The Markdown bullet for a staff member and the name as "given surname".
pub open spec fn staff_line(surname: Seq<char>, given: Seq<char>, profile: Seq<char>) -> Seq<char> {
    "- **"@ + surname + " "@ + given + "**"@ + if profile.len() > 0 {
        " \u{2022} [Profile]("@ + profile + ")"@
    } else {
        Seq::empty()
    }
}

/// What a row of the staff list gives: nothing for a header row (one with a
/// `th`) or a row of fewer than five cells; else its bullet and the name.
pub open spec fn staff_entry(ns: Seq<NodeView>, r: int) -> Option<(Seq<char>, Seq<char>)> {
    let e = subtree_end(ns, r);
    if first_where(e, named_pred(ns, "th"@), r + 1) is Some {
        None
    } else {
        let tds = all_where(named_pred(ns, "td"@), r + 1, e);
        if tds.len() < 5 {
            None
        } else {
            let sa = first_link_below(ns, tds[0]);
            let surname = link_text(ns, sa);
            let given = link_text(ns, first_link_below(ns, tds[1]));
            Some((staff_line(surname, given, link_target(ns, sa)), given + " "@ + surname))
        }
    }
}

/// The entries of the staff rows before `hi`.
pub open spec fn staff_entries(ns: Seq<NodeView>, hi: int) -> Seq<(Seq<char>, Seq<char>)>
    decreases hi,
{
    if hi <= 0 {
        Seq::empty()
    } else {
        let r = staff_entries(ns, hi - 1);
        if staff_row(ns, hi - 1) {
            match staff_entry(ns, hi - 1) {
                Some(x) => r.push(x),
                None => r,
            }
        } else {
            r
        }
    }
}

/// The bullets of the entries.
pub open spec fn entry_lines(v: Seq<(Seq<char>, Seq<char>)>) -> Seq<Seq<char>> {
    v.map_values(|x: (Seq<char>, Seq<char>)| x.0)
}

/// The names of the entries.
pub open spec fn entry_names(v: Seq<(Seq<char>, Seq<char>)>) -> Seq<Seq<char>> {
    v.map_values(|x: (Seq<char>, Seq<char>)| x.1)
}

/// The first position in `lo .. hi` of an element called `name`.
fn first_named_between(doc: &Document, name: &str, lo: usize, hi: usize) -> (r: Option<usize>)
    requires
        lo <= hi <= doc@.len(),
    ensures
        as_index(r) == first_where(hi as int, named_pred(doc@, name@), lo as int),
{
    let mut k: usize = lo;
    while k < hi
        invariant
            lo <= k <= hi <= doc@.len(),
            first_where(hi as int, named_pred(doc@, name@), lo as int) == first_where(hi as int, named_pred(doc@, name@), k as int),
        decreases hi - k,
    {
        if element_named(doc, k, name) {
            return Some(k);
        }
        k = k + 1;
    }
    None
}

/// The positions in `lo .. hi` of the elements called `name`.
fn named_between(doc: &Document, name: &str, lo: usize, hi: usize) -> (r: Vec<usize>)
    requires
        lo <= hi <= doc@.len(),
    ensures
        r@.map_values(|i: usize| i as int) == all_where(named_pred(doc@, name@), lo as int, hi as int),
        forall|m: int| 0 <= m < r@.len() ==> lo <= #[trigger] r@[m] < hi,
{
    let mut r: Vec<usize> = Vec::new();
    let mut k: usize = lo;
    proof {
        assert(r@.map_values(|i: usize| i as int) =~= Seq::<int>::empty());
    }
    while k < hi
        invariant
            lo <= k <= hi <= doc@.len(),
            r@.map_values(|i: usize| i as int) == all_where(named_pred(doc@, name@), lo as int, k as int),
            forall|m: int| 0 <= m < r@.len() ==> lo <= #[trigger] r@[m] < hi,
        decreases hi - k,
    {
        if element_named(doc, k, name) {
            let ghost before = r@;
            r.push(k);
            proof {
                assert(r@.map_values(|i: usize| i as int) =~= before.map_values(|i: usize| i as int).push(k as int));
            }
        }
        k = k + 1;
    }
    r
}

fn link_below(doc: &Document, e: usize) -> (r: Option<usize>)
    requires
        e < doc@.len(),
    ensures
        as_index(r) == first_link_below(doc@, e as int),
        r matches Some(a) ==> a < doc@.len(),
{
    let end = subtree_end_of(doc, e);
    let r = first_named_between(doc, "a", e + 1, end);
    proof {
        lemma_first_where(end as int, named_pred(doc@, "a"@), e + 1);
    }
    r
}

fn link_text_of(doc: &Document, a: Option<usize>) -> (r: Vec<char>)
    requires
        a matches Some(k) ==> k < doc@.len(),
    ensures
        r@ == link_text(doc@, as_index(a)),
{
    match a {
        Some(k) => trimmed(&text_run_of(doc, k)),
        None => Vec::new(),
    }
}

fn link_target_of(doc: &Document, a: Option<usize>) -> (r: Vec<char>)
    requires
        a matches Some(k) ==> k < doc@.len(),
    ensures
        r@ == link_target(doc@, as_index(a)),
{
    match a {
        Some(k) => match attribute(doc, k, "href") {
            Some(h) => h,
            None => Vec::new(),
        },
        None => Vec::new(),
    }
}

fn staff_entry_at(doc: &Document, row: usize) -> (r: Option<(Vec<char>, Vec<char>)>)
    requires
        row < doc@.len(),
    ensures
        match r {
            Some(x) => staff_entry(doc@, row as int) == Some((x.0@, x.1@)),
            None => staff_entry(doc@, row as int) is None,
        },
{
    let e = subtree_end_of(doc, row);
    if first_named_between(doc, "th", row + 1, e).is_some() {
        return None;
    }
    let tds = named_between(doc, "td", row + 1, e);
    if tds.len() < 5 {
        return None;
    }
    proof {
        assert(tds@.map_values(|i: usize| i as int)[0] == tds@[0] as int);
        assert(tds@.map_values(|i: usize| i as int)[1] == tds@[1] as int);
    }
    let sa = link_below(doc, tds[0]);
    let ga = link_below(doc, tds[1]);
    let surname = link_text_of(doc, sa);
    let given = link_text_of(doc, ga);
    let profile = link_target_of(doc, sa);
    let mut line: Vec<char> = Vec::new();
    push_str(&mut line, "- **");
    push_all(&mut line, surname.as_slice());
    push_str(&mut line, " ");
    push_all(&mut line, given.as_slice());
    push_str(&mut line, "**");
    if profile.len() > 0 {
        push_str(&mut line, " \u{2022} [Profile](");
        push_all(&mut line, profile.as_slice());
        push_str(&mut line, ")");
    }
    let mut name: Vec<char> = Vec::new();
    push_all(&mut name, given.as_slice());
    push_str(&mut name, " ");
    push_all(&mut name, surname.as_slice());
    proof {
        let empty: Seq<char> = Seq::empty();
        assert(line@ =~= staff_line(surname@, given@, profile@));
        assert(name@ =~= given@ + " "@ + surname@);
    }
    Some((line, name))
}

/// The staff directory as Markdown bullets joined by newlines, and the names
/// of the staff as "given surname".
pub fn staff_markdown(doc: &Document) -> (r: (String, Vec<String>))
    ensures
        r.0@ == join(entry_lines(staff_entries(doc@, doc@.len() as int)), "\n"@),
        r.1@.map_values(|s: String| s@) == entry_names(staff_entries(doc@, doc@.len() as int)),
{
    let n = doc.nodes.len();
    assert(doc@.len() == n);
    let mut lines: Vec<Vec<char>> = Vec::new();
    let mut names: Vec<String> = Vec::new();
    let mut k: usize = 0;
    proof {
        assert(views(lines@) =~= Seq::<Seq<char>>::empty());
        assert(names@.map_values(|s: String| s@) =~= Seq::<Seq<char>>::empty());
    }
    while k < n
        invariant
            k <= n == doc@.len(),
            views(lines@) == entry_lines(staff_entries(doc@, k as int)),
            names@.map_values(|s: String| s@) == entry_names(staff_entries(doc@, k as int)),
        decreases n - k,
    {
        let is_row = element_named(doc, k, "tr") && ancestor_with_id(doc, k, "osebje-list").is_some();
        if is_row {
            match staff_entry_at(doc, k) {
                Some((line, name)) => {
                    let ghost l0 = lines@;
                    let ghost n0 = names@;
                    let ghost before = staff_entries(doc@, k as int);
                    let ghost lv = line@;
                    let ghost nv = name@;
                    lines.push(line);
                    names.push(string_from(name.as_slice()));
                    proof {
                        assert(views(lines@) =~= views(l0).push(lv));
                        assert(entry_lines(before.push((lv, nv))) =~= entry_lines(before).push(lv));
                        assert(names@.map_values(|s: String| s@) =~= n0.map_values(|s: String| s@).push(nv));
                        assert(entry_names(before.push((lv, nv))) =~= entry_names(before).push(nv));
                    }
                },
                None => {},
            }
        }
        k = k + 1;
    }
    let nl: [char; 1] = ['\n'];
    proof {
        reveal_strlit("\n");
        assert(nl@ =~= "\n"@);
    }
    let joined = join_with(&lines, nl.as_slice());
    (string_from(joined.as_slice()), names)
}

/// The staff directory of a page given as HTML.
pub fn staff_html_to_markdown(html: &str) -> (r: (String, Vec<String>))
    ensures
        r.0@ == join(entry_lines(staff_entries(parsed_document(html@), parsed_document(html@).len() as int)), "\n"@),
        r.1@.map_values(|s: String| s@) == entry_names(staff_entries(parsed_document(html@), parsed_document(html@).len() as int)),
{
    let doc = parse_document(html);
    staff_markdown(&doc)
}

/* ------------------------------------------------------------------ */
/*  Page content with absolute links                                    */
/* ------------------------------------------------------------------ */

/// The error `url::Url::parse` reports for a text, written out; `None`
/// when the text parses.
pub uninterp spec fn url_parse_failure(s: Seq<char>) -> Option<Seq<char>>;

/// Calls `url::Url::parse`; the text of its error is named by `url_parse_failure`.
#[verifier::external_body]
fn parse_failure(s: &str) -> (r: Option<String>)
    ensures
        opt_string_view(r) == url_parse_failure(s@),
{
    url::Url::parse(s).err().map(|e| e.to_string())
}

/// The children of node `e`, of any kind.
pub open spec fn kid_pred(ns: Seq<NodeView>, e: int) -> spec_fn(int) -> bool {
    |k: int| ns[k].depth == ns[e].depth + 1
}

/// The positions of the children of `e`, in order.
pub open spec fn kids_of(ns: Seq<NodeView>, e: int) -> Seq<int> {
    all_where(kid_pred(ns, e), e + 1, subtree_end(ns, e))
}

/// An element left out of the rebuilt HTML: scripts, styles and style sheet links.
pub open spec fn dropped(n: NodeView) -> bool {
    match n.kind {
        KindView::Element { name, .. } => {
            ||| eq_ignore_ascii_case(name, "script"@)
            ||| eq_ignore_ascii_case(name, "style"@)
            ||| eq_ignore_ascii_case(name, "link"@) && match attr_of(n, "rel"@) {
                Some(r) => eq_ignore_ascii_case(r, "stylesheet"@),
                None => false,
            }
        },
        _ => false,
    }
}

/// The value written for an attribute: link targets resolved against `base`
/// where they resolve.
pub open spec fn attr_value(base: Seq<char>, name: Seq<char>, v: Seq<char>) -> Seq<char> {
    if name == "href"@ || name == "src"@ {
        match joined_url(base, v) {
            Some(u) => u,
            None => v,
        }
    } else {
        v
    }
}

/// The attributes written out, inline styles left out.
pub open spec fn attrs_text(base: Seq<char>, attrs: Seq<(Seq<char>, Seq<char>)>) -> Seq<char>
    decreases attrs.len(),
{
    if attrs.len() == 0 {
        Seq::empty()
    } else {
        let r = attrs_text(base, attrs.drop_last());
        let a = attrs.last();
        if eq_ignore_ascii_case(a.0, "style"@) {
            r
        } else {
            r + " "@ + a.0 + "=\""@ + attr_value(base, a.0, a.1) + "\""@
        }
    }
}

/// Element `e` written back as HTML with absolute links; comments and other
/// nodes are left out.
pub open spec fn rebuilt(ns: Seq<NodeView>, base: Seq<char>, e: int) -> Seq<char>
    decreases 2 * (ns.len() - e) + 1, 0int,
{
    if e < 0 || e >= ns.len() {
        Seq::empty()
    } else {
        match ns[e].kind {
            KindView::Element { name, attrs, .. } => if dropped(ns[e]) {
                Seq::empty()
            } else {
                "<"@ + name + attrs_text(base, attrs) + ">"@ + rebuilt_kids(ns, base, e, kids_of(ns, e))
                    + "</"@ + name + ">"@
            },
            _ => Seq::empty(),
        }
    }
}

/// The children in `kids` of element `e`, written back in order.
pub open spec fn rebuilt_kids(ns: Seq<NodeView>, base: Seq<char>, e: int, kids: Seq<int>) -> Seq<char>
    decreases 2 * (ns.len() - e), kids.len(),
{
    if kids.len() == 0 {
        Seq::empty()
    } else {
        let k = kids.last();
        let r = rebuilt_kids(ns, base, e, kids.drop_last());
        if 0 <= e < k < ns.len() {
            match ns[k].kind {
                KindView::Text { text } => r + text,
                KindView::Element { .. } => r + rebuilt(ns, base, k),
                KindView::Other => r,
            }
        } else {
            r
        }
    }
}

fn is_dropped(doc: &Document, e: usize) -> (b: bool)
    requires
        e < doc@.len(),
    ensures
        b == dropped(doc@[e as int]),
{
    proof {
        assert(doc@[e as int] == doc.nodes@[e as int]@);
    }
    match &doc.nodes[e].kind {
        NodeKind::Element(name, _, _) => {
            if same_ignoring_ascii_case(name, &chars_of("script")) || same_ignoring_ascii_case(name, &chars_of("style")) {
                return true;
            }
            if same_ignoring_ascii_case(name, &chars_of("link")) {
                match attribute(doc, e, "rel") {
                    Some(r) => same_ignoring_ascii_case(&r, &chars_of("stylesheet")),
                    None => false,
                }
            } else {
                false
            }
        },
        _ => false,
    }
}

/// Writes the attributes out after `out`.
fn write_attrs(out: &mut Vec<char>, base: &str, attrs: &Vec<(Vec<char>, Vec<char>)>)
    ensures
        final(out)@ == old(out)@ + attrs_text(base@, attrs@.map_values(|p: (Vec<char>, Vec<char>)| (p.0@, p.1@))),
{
    let ghost av = attrs@.map_values(|p: (Vec<char>, Vec<char>)| (p.0@, p.1@));
    let style = chars_of("style");
    let href = chars_of("href");
    let src = chars_of("src");
    let mut i: usize = 0;
    proof {
        assert(av.take(0) =~= Seq::<(Seq<char>, Seq<char>)>::empty());
        assert(out@ =~= old(out)@ + attrs_text(base@, av.take(0)));
    }
    while i < attrs.len()
        invariant
            i <= attrs.len() == av.len(),
            av == attrs@.map_values(|p: (Vec<char>, Vec<char>)| (p.0@, p.1@)),
            style@ == "style"@,
            href@ == "href"@,
            src@ == "src"@,
            out@ == old(out)@ + attrs_text(base@, av.take(i as int)),
        decreases attrs.len() - i,
    {
        proof {
            assert(av.take(i + 1).drop_last() =~= av.take(i as int));
            assert(av.take(i + 1).last() == (attrs@[i as int].0@, attrs@[i as int].1@));
        }
        let name = &attrs[i].0;
        let value = &attrs[i].1;
        if !same_ignoring_ascii_case(name, &style) {
            let ghost before = out@;
            push_str(out, " ");
            push_all(out, name.as_slice());
            push_str(out, "=\"");
            if same_chars(name, &href) || same_chars(name, &src) {
                match join_url(base, value.as_slice()) {
                    Some(u) => push_str(out, u.as_str()),
                    None => push_all(out, value.as_slice()),
                }
            } else {
                push_all(out, value.as_slice());
            }
            push_str(out, "\"");
            proof {
                assert(out@ =~= before + " "@ + name@ + "=\""@ + attr_value(base@, name@, value@) + "\""@);
            }
        }
        i = i + 1;
    }
    proof {
        assert(av.take(attrs.len() as int) =~= av);
    }
}

/// Element `e` written back as HTML with its links made absolute against `base`.
fn rebuild(doc: &Document, base: &str, e: usize) -> (r: Vec<char>)
    requires
        e < doc@.len(),
    ensures
        r@ == rebuilt(doc@, base@, e as int),
    decreases doc@.len() - e,
{
    proof {
        assert(doc@[e as int] == doc.nodes@[e as int]@);
    }
    match &doc.nodes[e].kind {
        NodeKind::Element(name, attrs, _) => {
            if is_dropped(doc, e) {
                return Vec::new();
            }
            let mut out: Vec<char> = Vec::new();
            push_str(&mut out, "<");
            push_all(&mut out, name.as_slice());
            write_attrs(&mut out, base, attrs);
            push_str(&mut out, ">");
            let end = subtree_end_of(doc, e);
            let d = depth_of(doc, e);
            let ghost head = out@;
            let ghost p = kid_pred(doc@, e as int);
            let mut k: usize = e + 1;
            proof {
                assert(rebuilt_kids(doc@, base@, e as int, all_where(p, e + 1, e + 1)) =~= Seq::<char>::empty());
                assert(out@ =~= head + rebuilt_kids(doc@, base@, e as int, all_where(p, e + 1, k as int)));
            }
            while k < end
                invariant
                    e < k <= end <= doc@.len(),
                    d == doc@[e as int].depth,
                    p == kid_pred(doc@, e as int),
                    out@ == head + rebuilt_kids(doc@, base@, e as int, all_where(p, e + 1, k as int)),
                decreases end - k,
            {
                let ghost kids = all_where(p, e + 1, k as int);
                let ghost before = out@;
                let dk = depth_of(doc, k);
                if dk > d && dk - 1 == d {
                    proof {
                        assert(all_where(p, e + 1, k + 1) == kids.push(k as int));
                        assert(kids.push(k as int).drop_last() =~= kids);
                        assert(doc@[k as int] == doc.nodes@[k as int]@);
                    }
                    match &doc.nodes[k].kind {
                        NodeKind::Text(t) => {
                            push_all(&mut out, t.as_slice());
                        },
                        NodeKind::Element(_, _, _) => {
                            let sub = rebuild(doc, base, k);
                            push_all(&mut out, sub.as_slice());
                        },
                        NodeKind::Other => {},
                    }
                    proof {
                        assert(out@ =~= head + rebuilt_kids(doc@, base@, e as int, kids.push(k as int)));
                    }
                } else {
                    proof {
                        assert(all_where(p, e + 1, k + 1) == kids);
                    }
                }
                k = k + 1;
            }
            push_str(&mut out, "</");
            push_all(&mut out, name.as_slice());
            push_str(&mut out, ">");
            proof {
                assert(end == subtree_end(doc@, e as int));
                assert(out@ =~= "<"@ + name@ + attrs_text(base@, attrs@.map_values(|q: (Vec<char>, Vec<char>)| (q.0@, q.1@)))
                    + ">"@ + rebuilt_kids(doc@, base@, e as int, kids_of(doc@, e as int)) + "</"@ + name@ + ">"@);
            }
            out
        },
        _ => Vec::new(),
    }
}

/// `div.app`.
pub open spec fn app_pred(ns: Seq<NodeView>) -> spec_fn(int) -> bool {
    |k: int| is_named(ns[k], "div"@) && has_class(ns[k], "app"@)
}

/// The page's first `div.app`, written back with absolute links.
pub open spec fn app_content(ns: Seq<NodeView>, base: Seq<char>) -> Option<Seq<char>> {
    match first_where(ns.len() as int, app_pred(ns), 0) {
        Some(e) => Some(rebuilt(ns, base, e)),
        None => None,
    }
}

/// The message for a page address that does not parse.
pub open spec fn invalid_url_message(url: Seq<char>, err: Seq<char>) -> Seq<char> {
    "Invalid page URL '"@ + url + "': "@ + err
}

/// The error for a page address that does not parse, if it does not.
pub fn page_url_error(page_url: &str) -> (r: Option<String>)
    ensures
        r is Some <==> url_parse_failure(page_url@) is Some,
        r matches Some(m) ==> m@ == invalid_url_message(page_url@, url_parse_failure(page_url@)->0),
{
    match parse_failure(page_url) {
        Some(e) => {
            let mut m: Vec<char> = Vec::new();
            push_str(&mut m, "Invalid page URL '");
            push_str(&mut m, page_url);
            push_str(&mut m, "': ");
            push_str(&mut m, e.as_str());
            Some(string_from(m.as_slice()))
        },
        None => None,
    }
}

/// The first `div.app` of the document, written back with its links made
/// absolute against `page_url`; `None` when the page has none.
pub fn app_content_of(doc: &Document, page_url: &str) -> (r: Option<String>)
    ensures
        opt_string_view(r) == app_content(doc@, page_url@),
{
    let n = doc.nodes.len();
    assert(doc@.len() == n);
    let mut k: usize = 0;
    while k < n
        invariant
            k <= n == doc@.len(),
            first_where(n as int, app_pred(doc@), 0) == first_where(n as int, app_pred(doc@), k as int),
        decreases n - k,
    {
        if element_named(doc, k, "div") && has_class_of(doc, k, "app") {
            let out = rebuild(doc, page_url, k);
            return Some(string_from(out.as_slice()));
        }
        k = k + 1;
    }
    None
}

/// The content block of a fetched page: the page address's parse error as
/// the caller's error, else the first `div.app` with absolute links, if any.
pub fn absolutized_app_div(page_url: &str, html: &str) -> (r: Result<Option<String>, String>)
    ensures
        match r {
            Err(m) => url_parse_failure(page_url@) is Some
                && m@ == invalid_url_message(page_url@, url_parse_failure(page_url@)->0),
            Ok(o) => url_parse_failure(page_url@) is None
                && opt_string_view(o) == app_content(parsed_document(html@), page_url@),
        },
{
    match page_url_error(page_url) {
        Some(m) => Err(m),
        None => {
            let doc = parse_document(html);
            Ok(app_content_of(&doc, page_url))
        },
    }
}

/// The `k` staff names most similar to `query`, one per line.
pub fn similar_staff_names(names: Vec<String>, query: &str, k: usize) -> (r: String)
    requires
        k <= names.len(),
    ensures
        exists|ranked: Seq<String>| #[trigger] ranked_by(names@, query@, ranked)
            && r@ == join(ranked.take(k as int).map_values(|s: String| s@), "\n"@),
{
    let ghost nv = names@;
    let ranked = rank_names(names, query);
    proof {
        lemma_ranked_len(nv, query@, ranked@);
    }
    let mut parts: Vec<Vec<char>> = Vec::new();
    let mut i: usize = 0;
    while i < k
        invariant
            i <= k <= ranked.len(),
            views(parts@) == ranked@.take(i as int).map_values(|s: String| s@),
        decreases k - i,
    {
        let ghost before = parts@;
        let c = chars_of(ranked[i].as_str());
        parts.push(c);
        proof {
            assert(views(parts@) =~= views(before).push(ranked@[i as int]@));
            assert(ranked@.take(i + 1).map_values(|s: String| s@) =~= ranked@.take(i as int).map_values(|s: String| s@).push(ranked@[i as int]@));
        }
        i = i + 1;
    }
    let j = join_with(&parts, chars_of("\n").as_slice());
    proof {
        assert(ranked_by(nv, query@, ranked@));
    }
    string_from(j.as_slice())
}

/// How many names the similar-names tool returns: `k`, or 5 when not given.
pub open spec fn names_wanted(k: Option<i64>) -> i64 {
    match k {
        Some(k) => k,
        None => 5,
    }
}

/// The similar-names tool: the `k` staff names (5 when not given) most
/// similar to `query`, one per line; `None` when `k` is negative or more
/// than there are names.
pub fn similar_names_reply(names: Vec<String>, query: &str, k: Option<i64>) -> (r: Option<String>)
    ensures
        (0 <= names_wanted(k) <= names.len()) <==> r is Some,
        r matches Some(t) ==> exists|ranked: Seq<String>| #[trigger] ranked_by(names@, query@, ranked)
            && t@ == join(ranked.take(names_wanted(k) as int).map_values(|s: String| s@), "\n"@),
{
    let k: i64 = match k {
        Some(k) => k,
        None => 5,
    };
    if k < 0 || k as u64 > names.len() as u64 {
        return None;
    }
    Some(similar_staff_names(names, query, k as usize))
}

} // verus!
