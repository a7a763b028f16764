//! The catalogue of study programmes: levels, entries, and the replies of the
//! programme tools (listing, similar names, picking the programme a question
//! is about).

use vstd::prelude::*;
use crate::text::{chars_of, eq_ignore_ascii_case, join, join_with, lowercase, push_all, push_str, same_chars, same_ignoring_ascii_case, string_from, to_lowercase, views};
use crate::ranking::{lemma_ranked_len, rank_names, ranked_by};
use crate::programme::{filter_view, markdown, ProgrammeInfo, ProgrammeSection};

verus! {

/// The level at which a programme is offered.
#[derive(Debug, Clone, Copy, PartialEq, Eq, Structural, Hash)]
pub enum ProgrammeLevel {
    Undergraduate,
    Master,
    Doctoral,
}

/// The name under which a level is shown.
pub open spec fn level_label(l: ProgrammeLevel) -> Seq<char> {
    match l {
        ProgrammeLevel::Undergraduate => "Undergraduate"@,
        ProgrammeLevel::Master => "Master"@,
        ProgrammeLevel::Doctoral => "Doctoral"@,
    }
}

impl ProgrammeLevel {
    /// The name under which the level is shown.
    pub fn label(&self) -> (r: String)
        ensures
            r@ == level_label(*self),
    {
        match self {
            ProgrammeLevel::Undergraduate => String::from_str("Undergraduate"),
            ProgrammeLevel::Master => String::from_str("Master"),
            ProgrammeLevel::Doctoral => String::from_str("Doctoral"),
        }
    }
}

/// A study programme listed on the faculty's pages.
#[derive(Debug, Clone)]
pub struct Programme {
    pub name: String,
    pub url: String,
    pub level: ProgrammeLevel,
}

/* ------------------------------------------------------------------ */
/*  Levels asked for                                                    */
/* ------------------------------------------------------------------ */

/// The level a request names: `undergraduate`, `master` or `doctoral`.
pub open spec fn level_named(s: Seq<char>) -> Option<ProgrammeLevel> {
    if s == "undergraduate"@ {
        Some(ProgrammeLevel::Undergraduate)
    } else if s == "master"@ {
        Some(ProgrammeLevel::Master)
    } else if s == "doctoral"@ {
        Some(ProgrammeLevel::Doctoral)
    } else {
        None
    }
}

/// Reads a level filter as written; anything else means no filter.
pub fn parse_level(s: Option<&str>) -> (r: Option<ProgrammeLevel>)
    ensures
        r == match s {
            Some(t) => level_named(t@),
            None => None,
        },
{
    match s {
        Some(t) => level_of_chars(&chars_of(t)),
        None => None,
    }
}

fn level_of_chars(c: &Vec<char>) -> (r: Option<ProgrammeLevel>)
    ensures
        r == level_named(c@),
{
    if same_chars(c, &chars_of("undergraduate")) {
        Some(ProgrammeLevel::Undergraduate)
    } else if same_chars(c, &chars_of("master")) {
        Some(ProgrammeLevel::Master)
    } else if same_chars(c, &chars_of("doctoral")) {
        Some(ProgrammeLevel::Doctoral)
    } else {
        None
    }
}

/// Reads a level filter in any letter case.
pub fn parse_level_any_case(s: &str) -> (r: Option<ProgrammeLevel>)
    ensures
        r == level_named(lowercase(s@)),
{
    let l = to_lowercase(chars_of(s).as_slice());
    level_of_chars(&l)
}

/// A programme passes a level filter.
pub open spec fn admitted(p: Programme, target: Option<ProgrammeLevel>) -> bool {
    match target {
        Some(l) => p.level == l,
        None => true,
    }
}

/* ------------------------------------------------------------------ */
/*  Listing                                                             */
/* ------------------------------------------------------------------ */

/// The names of the programmes at level `l` that pass the filter, in order.
pub open spec fn names_at(ps: Seq<Programme>, l: ProgrammeLevel, target: Option<ProgrammeLevel>) -> Seq<Seq<char>>
    decreases ps.len(),
{
    if ps.len() == 0 {
        Seq::empty()
    } else {
        let r = names_at(ps.drop_last(), l, target);
        if ps.last().level == l && admitted(ps.last(), target) {
            r.push(ps.last().name@)
        } else {
            r
        }
    }
}

/// One bullet per name.
pub open spec fn bullets(names: Seq<Seq<char>>) -> Seq<char>
    decreases names.len(),
{
    if names.len() == 0 {
        Seq::empty()
    } else {
        bullets(names.drop_last()) + "- "@ + names.last() + "\n"@
    }
}

/// A level's heading and bullets; nothing when it lists no programme.
pub open spec fn group_md(l: ProgrammeLevel, names: Seq<Seq<char>>) -> Seq<char> {
    if names.len() == 0 {
        Seq::empty()
    } else {
        "\n### "@ + level_label(l) + "\n"@ + bullets(names)
    }
}

/// The reply when no programme passes the filter.
pub open spec fn no_programmes_message() -> Seq<char> {
    "No programmes found for the specified level."@
}

/// The programme listing: the programmes that pass the filter grouped by
/// level, the groups in the order of their labels (Doctoral, Master,
/// Undergraduate).
pub open spec fn listing_md(ps: Seq<Programme>, target: Option<ProgrammeLevel>) -> Seq<char> {
    let d = names_at(ps, ProgrammeLevel::Doctoral, target);
    let m = names_at(ps, ProgrammeLevel::Master, target);
    let u = names_at(ps, ProgrammeLevel::Undergraduate, target);
    if d.len() + m.len() + u.len() == 0 {
        no_programmes_message()
    } else {
        group_md(ProgrammeLevel::Doctoral, d) + group_md(ProgrammeLevel::Master, m)
            + group_md(ProgrammeLevel::Undergraduate, u)
    }
}

fn write_group(out: &mut Vec<char>, l: ProgrammeLevel, names: &Vec<Vec<char>>)
    ensures
        final(out)@ == old(out)@ + group_md(l, views(names@)),
{
    if names.len() == 0 {
        return;
    }
    push_str(out, "\n### ");
    push_str(out, l.label().as_str());
    push_str(out, "\n");
    let ghost head = out@;
    let mut i: usize = 0;
    proof {
        assert(views(names@).take(0) =~= Seq::<Seq<char>>::empty());
    }
    while i < names.len()
        invariant
            i <= names.len(),
            out@ == head + bullets(views(names@).take(i as int)),
        decreases names.len() - i,
    {
        proof {
            assert(views(names@).take(i + 1).drop_last() =~= views(names@).take(i as int));
        }
        push_str(out, "- ");
        push_all(out, names[i].as_slice());
        push_str(out, "\n");
        i = i + 1;
    }
    proof {
        assert(views(names@).take(names.len() as int) =~= views(names@));
    }
}

/// The programme listing, as the listing tool replies.
pub fn list_programmes_markdown(programmes: &Vec<Programme>, level: Option<ProgrammeLevel>) -> (r: String)
    ensures
        r@ == listing_md(programmes@, level),
{
    let mut d: Vec<Vec<char>> = Vec::new();
    let mut m: Vec<Vec<char>> = Vec::new();
    let mut u: Vec<Vec<char>> = Vec::new();
    let mut i: usize = 0;
    proof {
        assert(programmes@.take(0) =~= Seq::<Programme>::empty());
        assert(views(d@) =~= Seq::<Seq<char>>::empty());
        assert(views(m@) =~= Seq::<Seq<char>>::empty());
        assert(views(u@) =~= Seq::<Seq<char>>::empty());
    }
    while i < programmes.len()
        invariant
            i <= programmes.len(),
            views(d@) == names_at(programmes@.take(i as int), ProgrammeLevel::Doctoral, level),
            views(m@) == names_at(programmes@.take(i as int), ProgrammeLevel::Master, level),
            views(u@) == names_at(programmes@.take(i as int), ProgrammeLevel::Undergraduate, level),
        decreases programmes.len() - i,
    {
        let p = &programmes[i];
        proof {
            assert(programmes@.take(i + 1).drop_last() =~= programmes@.take(i as int));
            assert(programmes@.take(i + 1).last() == programmes@[i as int]);
        }
        let pass = match level {
            Some(l) => p.level == l,
            None => true,
        };
        if pass {
            let name = chars_of(p.name.as_str());
            match p.level {
                ProgrammeLevel::Doctoral => {
                    let ghost b = d@;
                    d.push(name);
                    proof {
                        assert(views(d@) =~= views(b).push(p.name@));
                    }
                },
                ProgrammeLevel::Master => {
                    let ghost b = m@;
                    m.push(name);
                    proof {
                        assert(views(m@) =~= views(b).push(p.name@));
                    }
                },
                ProgrammeLevel::Undergraduate => {
                    let ghost b = u@;
                    u.push(name);
                    proof {
                        assert(views(u@) =~= views(b).push(p.name@));
                    }
                },
            }
        }
        i = i + 1;
    }
    proof {
        assert(programmes@.take(programmes.len() as int) =~= programmes@);
    }
    if d.len() == 0 && m.len() == 0 && u.len() == 0 {
        return String::from_str("No programmes found for the specified level.");
    }
    let mut out: Vec<char> = Vec::new();
    write_group(&mut out, ProgrammeLevel::Doctoral, &d);
    write_group(&mut out, ProgrammeLevel::Master, &m);
    write_group(&mut out, ProgrammeLevel::Undergraduate, &u);
    proof {
        assert(out@ =~= listing_md(programmes@, level));
    }
    string_from(out.as_slice())
}

/* ------------------------------------------------------------------ */
/*  Similar names                                                       */
/* ------------------------------------------------------------------ */

/// The names of the programmes that pass the filter, in order.
pub open spec fn admitted_names(ps: Seq<Programme>, target: Option<ProgrammeLevel>) -> Seq<String>
    decreases ps.len(),
{
    if ps.len() == 0 {
        Seq::empty()
    } else {
        let r = admitted_names(ps.drop_last(), target);
        if admitted(ps.last(), target) {
            r.push(ps.last().name)
        } else {
            r
        }
    }
}

/// How many ranked names a request for `k` of `n` gets: all of them when
/// `k` is negative or at least `n`.
pub open spec fn top_count(k: i64, n: nat) -> int {
    if k < 0 || k >= n {
        n as int
    } else {
        k as int
    }
}

/// The first names of a ranking, joined as the tool lists them.
pub open spec fn similar_reply(ranked: Seq<String>, k: i64) -> Seq<char> {
    join(ranked.take(top_count(k, ranked.len())).map_values(|s: String| s@), " \n - "@)
}

fn admitted_name_list(programmes: &Vec<Programme>, level: Option<ProgrammeLevel>) -> (r: Vec<String>)
    ensures
        r@ == admitted_names(programmes@, level),
{
    let mut r: Vec<String> = Vec::new();
    let mut i: usize = 0;
    proof {
        assert(programmes@.take(0) =~= Seq::<Programme>::empty());
    }
    while i < programmes.len()
        invariant
            i <= programmes.len(),
            r@ == admitted_names(programmes@.take(i as int), level),
        decreases programmes.len() - i,
    {
        proof {
            assert(programmes@.take(i + 1).drop_last() =~= programmes@.take(i as int));
            assert(programmes@.take(i + 1).last() == programmes@[i as int]);
        }
        let pass = match level {
            Some(l) => programmes[i].level == l,
            None => true,
        };
        if pass {
            r.push(programmes[i].name.clone());
        }
        i = i + 1;
    }
    proof {
        assert(programmes@.take(programmes.len() as int) =~= programmes@);
    }
    r
}

/// The names most similar to `query` among the programmes that pass the
/// filter, at most `k` of them (all when `k` is negative), as the similar
/// names tool replies.
pub fn similar_programme_names(programmes: &Vec<Programme>, query: &str, k: i64, level: Option<ProgrammeLevel>) -> (r: String)
    ensures
        admitted_names(programmes@, level).len() == 0 ==> r@ == no_programmes_message(),
        admitted_names(programmes@, level).len() > 0 ==> exists|ranked: Seq<String>|
            #[trigger] ranked_by(admitted_names(programmes@, level), query@, ranked)
                && r@ == similar_reply(ranked, k),
{
    let names = admitted_name_list(programmes, level);
    if names.len() == 0 {
        return String::from_str("No programmes found for the specified level.");
    }
    let ghost nv = names@;
    let ranked = rank_names(names, query);
    let n = ranked.len();
    let count: usize = if k < 0 || k as u64 >= n as u64 { n } else { k as usize };
    let mut parts: Vec<Vec<char>> = Vec::new();
    let mut i: usize = 0;
    while i < count
        invariant
            i <= count <= ranked.len(),
            count == top_count(k, ranked@.len()),
            views(parts@) == ranked@.take(i as int).map_values(|s: String| s@),
        decreases count - i,
    {
        let ghost before = parts@;
        let c = chars_of(ranked[i].as_str());
        parts.push(c);
        proof {
            assert(views(parts@) =~= views(before).push(ranked@[i as int]@));
            assert(ranked@.take(i + 1).map_values(|s: String| s@) =~= ranked@.take(i as int).map_values(|s: String| s@).push(ranked@[i as int]@));
        }
        i = i + 1;
    }
    let sep = chars_of(" \n - ");
    let out = join_with(&parts, sep.as_slice());
    proof {
        assert(ranked_by(nv, query@, ranked@));
    }
    string_from(out.as_slice())
}

/* ------------------------------------------------------------------ */
/*  Picking the programme a question is about                           */
/* ------------------------------------------------------------------ */

/// The positions of the programmes named `best` (ignoring ASCII case) that
/// pass the filter.
pub open spec fn match_positions(ps: Seq<Programme>, best: Seq<char>, target: Option<ProgrammeLevel>) -> Seq<int>
    decreases ps.len(),
{
    if ps.len() == 0 {
        Seq::empty()
    } else {
        let r = match_positions(ps.drop_last(), best, target);
        let p = ps.last();
        if eq_ignore_ascii_case(p.name@, best) && admitted(p, target) {
            r.push(ps.len() - 1)
        } else {
            r
        }
    }
}

proof fn lemma_match_positions(ps: Seq<Programme>, best: Seq<char>, target: Option<ProgrammeLevel>)
    ensures
        forall|m: int| 0 <= m < match_positions(ps, best, target).len() ==> {
            let i = #[trigger] match_positions(ps, best, target)[m];
            &&& 0 <= i < ps.len()
            &&& eq_ignore_ascii_case(ps[i].name@, best)
            &&& admitted(ps[i], target)
        },
    decreases ps.len(),
{
    if ps.len() > 0 {
        lemma_match_positions(ps.drop_last(), best, target);
        let r = match_positions(ps.drop_last(), best, target);
        assert forall|m: int| 0 <= m < r.len() implies ps[#[trigger] r[m]] == ps.drop_last()[r[m]] by {}
    }
}

/// The programme picked for a question carries the best-ranked name (up to
/// ASCII case), is at the requested level when one is named, and is the
/// only programme that does both.
pub proof fn lemma_pick_is_named_match(ps: Seq<Programme>, best: Seq<char>, level: Option<Seq<char>>)
    ensures
        pick(ps, best, level) matches Ok(i) ==> {
            let target = match level {
                Some(l) => level_named(lowercase(l)),
                None => None,
            };
            &&& 0 <= i < ps.len()
            &&& eq_ignore_ascii_case(ps[i].name@, best)
            &&& admitted(ps[i], target)
            &&& match_positions(ps, best, target) == seq![i]
        },
{
    let target = match level {
        Some(l) => level_named(lowercase(l)),
        None => None,
    };
    lemma_match_positions(ps, best, target);
    let pos = match_positions(ps, best, target);
    if pos.len() == 1 {
        assert(pos =~= seq![pos[0]]);
    }
}

/// The labels of the levels of the programmes at `pos`, joined by commas.
pub open spec fn levels_text(ps: Seq<Programme>, pos: Seq<int>) -> Seq<char> {
    join(pos.map_values(|i: int| level_label(ps[i].level)), ", "@)
}

/// What the tool makes of the best-ranked name: the position of the one
/// programme it names at the requested level, or the reply that explains
/// why there is none.
pub open spec fn pick(ps: Seq<Programme>, best: Seq<char>, level: Option<Seq<char>>) -> Result<int, Seq<char>> {
    let target = match level {
        Some(l) => level_named(lowercase(l)),
        None => None,
    };
    let pos = match_positions(ps, best, target);
    if pos.len() > 1 {
        Err("Found '"@ + best + "' at multiple levels: "@ + levels_text(ps, pos)
            + ". Please specify which one you are interested in."@)
    } else if pos.len() == 0 {
        Err("No programme found for '"@ + best + "' at the specified level."@)
    } else {
        Ok(pos[0])
    }
}

/// An optional string as a value.
pub open spec fn opt_str(o: Option<&str>) -> Option<Seq<char>> {
    match o {
        Some(s) => Some(s@),
        None => None,
    }
}

/// A result with a `String` error as a value.
pub open spec fn result_view(r: Result<usize, String>) -> Result<int, Seq<char>> {
    match r {
        Ok(i) => Ok(i as int),
        Err(m) => Err(m@),
    }
}

/// Picks the programme named `best` at the requested level.
pub fn pick_programme(programmes: &Vec<Programme>, best: &str, level: Option<&str>) -> (r: Result<usize, String>)
    ensures
        result_view(r) == pick(programmes@, best@, opt_str(level)),
        r matches Ok(i) ==> i < programmes.len(),
{
    let target = match level {
        Some(l) => parse_level_any_case(l),
        None => None,
    };
    let b = chars_of(best);
    let mut pos: Vec<usize> = Vec::new();
    let mut i: usize = 0;
    proof {
        assert(programmes@.take(0) =~= Seq::<Programme>::empty());
        assert(pos@.map_values(|x: usize| x as int) =~= Seq::<int>::empty());
    }
    while i < programmes.len()
        invariant
            i <= programmes.len(),
            b@ == best@,
            pos@.map_values(|x: usize| x as int) == match_positions(programmes@.take(i as int), best@, target),
            forall|m: int| 0 <= m < pos@.len() ==> #[trigger] pos@[m] < i,
        decreases programmes.len() - i,
    {
        proof {
            assert(programmes@.take(i + 1).drop_last() =~= programmes@.take(i as int));
            assert(programmes@.take(i + 1).last() == programmes@[i as int]);
        }
        let name = chars_of(programmes[i].name.as_str());
        let pass = match target {
            Some(l) => programmes[i].level == l,
            None => true,
        };
        if same_ignoring_ascii_case(&name, &b) && pass {
            let ghost before = pos@;
            pos.push(i);
            proof {
                assert(pos@.map_values(|x: usize| x as int) =~= before.map_values(|x: usize| x as int).push(i as int));
            }
        }
        i = i + 1;
    }
    proof {
        assert(programmes@.take(programmes.len() as int) =~= programmes@);
    }
    let ghost pv = pos@.map_values(|x: usize| x as int);
    if pos.len() > 1 {
        let mut labels: Vec<Vec<char>> = Vec::new();
        let mut j: usize = 0;
        while j < pos.len()
            invariant
                j <= pos.len(),
                pv == pos@.map_values(|x: usize| x as int),
                forall|m: int| 0 <= m < pos@.len() ==> #[trigger] pos@[m] < programmes.len(),
                views(labels@) == pv.take(j as int).map_values(|x: int| level_label(programmes@[x].level)),
            decreases pos.len() - j,
        {
            let ghost before = labels@;
            let l = programmes[pos[j]].level.label();
            let c = chars_of(l.as_str());
            labels.push(c);
            proof {
                assert(pv[j as int] == pos@[j as int] as int);
                assert(views(labels@) =~= views(before).push(level_label(programmes@[pv[j as int]].level)));
                assert(pv.take(j + 1).map_values(|x: int| level_label(programmes@[x].level)) =~= pv.take(j as int).map_values(|x: int| level_label(programmes@[x].level)).push(level_label(programmes@[pv[j as int]].level)));
            }
            j = j + 1;
        }
        proof {
            assert(pv.take(pos.len() as int) =~= pv);
        }
        let joined = join_with(&labels, chars_of(", ").as_slice());
        let mut m: Vec<char> = Vec::new();
        push_str(&mut m, "Found '");
        push_str(&mut m, best);
        push_str(&mut m, "' at multiple levels: ");
        push_all(&mut m, joined.as_slice());
        push_str(&mut m, ". Please specify which one you are interested in.");
        return Err(string_from(m.as_slice()));
    }
    if pos.len() == 0 {
        let mut m: Vec<char> = Vec::new();
        push_str(&mut m, "No programme found for '");
        push_str(&mut m, best);
        push_str(&mut m, "' at the specified level.");
        return Err(string_from(m.as_slice()));
    }
    proof {
        assert(pv[0] == pos@[0] as int);
    }
    Ok(pos[0])
}

/// The reply when no programme name is close to the question at all.
pub open spec fn no_match_message(query: Seq<char>) -> Seq<char> {
    "No programme found matching the name '"@ + query + "'."@
}

/// Finds the programme a question names: the names are ranked by similarity
/// to `query`, and the best-ranked one is picked at the requested level.
pub fn resolve_programme(programmes: &Vec<Programme>, query: &str, level: Option<&str>) -> (r: Result<usize, String>)
    ensures
        programmes.len() == 0 ==> result_view(r) == Err::<int, Seq<char>>(no_match_message(query@)),
        programmes.len() > 0 ==> exists|ranked: Seq<String>|
            #[trigger] ranked_by(admitted_names(programmes@, None), query@, ranked)
                && ranked.len() > 0
                && result_view(r) == pick(programmes@, ranked[0]@, opt_str(level)),
        r matches Ok(i) ==> i < programmes.len(),
{
    let names = admitted_name_list(programmes, None);
    if programmes.len() == 0 {
        let mut m: Vec<char> = Vec::new();
        push_str(&mut m, "No programme found matching the name '");
        push_str(&mut m, query);
        push_str(&mut m, "'.");
        return Err(string_from(m.as_slice()));
    }
    let ghost nv = names@;
    proof {
        lemma_admitted_all(programmes@);
    }
    let ranked = rank_names(names, query);
    proof {
        lemma_ranked_len(nv, query@, ranked@);
    }
    let r = pick_programme(programmes, ranked[0].as_str(), level);
    proof {
        assert(ranked_by(nv, query@, ranked@));
    }
    r
}

proof fn lemma_admitted_all(ps: Seq<Programme>)
    ensures
        admitted_names(ps, None).len() == ps.len(),
    decreases ps.len(),
{
    if ps.len() > 0 {
        lemma_admitted_all(ps.drop_last());
    }
}

/// The reply about a programme: its page rendered (only the sections asked
/// for, when some are) with a source line, or, when the page could not be
/// read, a note saying so.
pub open spec fn info_reply(target: Programme, info: Option<ProgrammeInfo>, f: Option<Seq<ProgrammeSection>>) -> Seq<char> {
    match info {
        Some(i) => markdown(i, f) + "\n\n---\n*Source: ["@ + target.url@ + "]("@ + target.url@ + ")*"@,
        None => "Could not retrieve information for '"@ + target.name@ + "'."@,
    }
}

/// The programme information tool's reply, given the page read from the
/// programme's address (`None` when it could not be fetched).
pub fn programme_info_reply(target: &Programme, info: Option<&ProgrammeInfo>, sections: Option<&Vec<ProgrammeSection>>) -> (r: String)
    ensures
        r@ == info_reply(*target, match info {
            Some(i) => Some(*i),
            None => None,
        }, filter_view(sections)),
{
    let mut out: Vec<char> = Vec::new();
    match info {
        Some(i) => {
            let md = i.to_markdown(sections);
            push_str(&mut out, md.as_str());
            push_str(&mut out, "\n\n---\n*Source: [");
            push_str(&mut out, target.url.as_str());
            push_str(&mut out, "](");
            push_str(&mut out, target.url.as_str());
            push_str(&mut out, ")*");
        },
        None => {
            push_str(&mut out, "Could not retrieve information for '");
            push_str(&mut out, target.name.as_str());
            push_str(&mut out, "'.");
        },
    }
    string_from(out.as_slice())
}

/* ------------------------------------------------------------------ */
/*  Tool requests                                                       */
/* ------------------------------------------------------------------ */

/// A request for the programme list, optionally at one level.
#[derive(Debug, Clone)]
pub struct ListProgrammesRequest {
    pub level: Option<String>,
}

/// A request for the programme names most similar to a name.
#[derive(Debug, Clone)]
pub struct SimilarProgrammesRequest {
    pub name: String,
    /// How many names to return (5 when not given).
    pub k: Option<i32>,
    pub level: Option<String>,
}

/// A request for a programme's information.
#[derive(Debug, Clone)]
pub struct ProgrammeInfoRequest {
    pub name: String,
    pub level: Option<String>,
}

/// The level filter a request's level names.
pub open spec fn requested_level(level: Option<String>) -> Option<ProgrammeLevel> {
    match level {
        Some(l) => level_named(l@),
        None => None,
    }
}

/// The listing tool: the programmes, at the requested level if it names one.
pub fn list_all_programmes(programmes: &Vec<Programme>, request: &ListProgrammesRequest) -> (r: String)
    ensures
        r@ == listing_md(programmes@, requested_level(request.level)),
{
    let level = match &request.level {
        Some(l) => parse_level(Some(l.as_str())),
        None => None,
    };
    list_programmes_markdown(programmes, level)
}

/// How many names a similar names request asks for.
pub open spec fn requested_count(k: Option<i32>) -> i64 {
    match k {
        Some(n) => n as i64,
        None => 5,
    }
}

/// The similar names tool for a request.
pub fn get_similar_programme_names(programmes: &Vec<Programme>, request: &SimilarProgrammesRequest) -> (r: String)
    ensures
        admitted_names(programmes@, requested_level(request.level)).len() == 0 ==> r@ == no_programmes_message(),
        admitted_names(programmes@, requested_level(request.level)).len() > 0 ==> exists|ranked: Seq<String>|
            #[trigger] ranked_by(admitted_names(programmes@, requested_level(request.level)), request.name@, ranked)
                && r@ == similar_reply(ranked, requested_count(request.k)),
{
    let level = match &request.level {
        Some(l) => parse_level(Some(l.as_str())),
        None => None,
    };
    let k: i64 = match request.k {
        Some(n) => n as i64,
        None => 5,
    };
    similar_programme_names(programmes, request.name.as_str(), k, level)
}

/// The programme a programme information request is about, or the reply
/// explaining why there is none.
pub fn programme_for_request(programmes: &Vec<Programme>, request: &ProgrammeInfoRequest) -> (r: Result<usize, String>)
    ensures
        programmes.len() == 0 ==> result_view(r) == Err::<int, Seq<char>>(no_match_message(request.name@)),
        programmes.len() > 0 ==> exists|ranked: Seq<String>|
            #[trigger] ranked_by(admitted_names(programmes@, None), request.name@, ranked)
                && ranked.len() > 0
                && result_view(r) == pick(programmes@, ranked[0]@, match request.level {
                    Some(l) => Some(l@),
                    None => None,
                }),
        r matches Ok(i) ==> i < programmes.len(),
{
    match &request.level {
        Some(l) => resolve_programme(programmes, request.name.as_str(), Some(l.as_str())),
        None => resolve_programme(programmes, request.name.as_str(), None),
    }
}

/// The similar-names reply lists the first `k` names of the ranking when
/// `0 <= k` and there are more than `k` names, and every name otherwise (a
/// negative `k` asks for all of them).
pub proof fn lemma_similar_reply_takes_k(ranked: Seq<String>, k: i64)
    ensures
        0 <= k < ranked.len() ==> similar_reply(ranked, k)
            == join(ranked.take(k as int).map_values(|s: String| s@), " \n - "@),
        (k < 0 || k >= ranked.len()) ==> similar_reply(ranked, k)
            == join(ranked.map_values(|s: String| s@), " \n - "@),
{
    if k < 0 || k >= ranked.len() {
        assert(ranked.take(ranked.len() as int) =~= ranked);
    }
}

} // verus!
