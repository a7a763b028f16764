//! Programme records: the sections a reader can ask for, and the Markdown
//! rendering of a programme page.

use vstd::prelude::*;
use crate::text::{string_from, chars_of, decimal, lowercase, push_all, push_str, same_chars, to_decimal, to_lowercase};

verus! {

/// A section of a programme page that can be asked for by name.
#[derive(Debug, Clone, Copy, PartialEq, Eq, Structural, Hash)]
pub enum ProgrammeSection {
    GeneralInfo,
    Coordinators,
    About,
    Goals,
    CourseStructure,
    FieldWork,
    CourseTables,
    AdmissionRequirements,
    TransferCriteria,
    AdvancementRequirements,
    CompletionRequirements,
    Competencies,
    EmploymentOpportunities,
}

/// The section a lower-cased name stands for.
pub open spec fn section_named(s: Seq<char>) -> Option<ProgrammeSection> {
    if s == "general_info"@ {
        Some(ProgrammeSection::GeneralInfo)
    } else if s == "coordinators"@ {
        Some(ProgrammeSection::Coordinators)
    } else if s == "about"@ {
        Some(ProgrammeSection::About)
    } else if s == "goals"@ {
        Some(ProgrammeSection::Goals)
    } else if s == "course_structure"@ {
        Some(ProgrammeSection::CourseStructure)
    } else if s == "field_work"@ {
        Some(ProgrammeSection::FieldWork)
    } else if s == "course_tables"@ {
        Some(ProgrammeSection::CourseTables)
    } else if s == "admission_requirements"@ {
        Some(ProgrammeSection::AdmissionRequirements)
    } else if s == "transfer_criteria"@ {
        Some(ProgrammeSection::TransferCriteria)
    } else if s == "advancement_requirements"@ {
        Some(ProgrammeSection::AdvancementRequirements)
    } else if s == "completion_requirements"@ {
        Some(ProgrammeSection::CompletionRequirements)
    } else if s == "competencies"@ {
        Some(ProgrammeSection::Competencies)
    } else if s == "employment_opportunities"@ {
        Some(ProgrammeSection::EmploymentOpportunities)
    } else {
        None
    }
}

fn is_name(s: &Vec<char>, lit: &str) -> (b: bool)
    ensures
        b == (s@ == lit@),
{
    let v = chars_of(lit);
    same_chars(s, &v)
}

impl ProgrammeSection {
    /// Reads a section name as a caller writes it, in any letter case.
    pub fn from_str(s: &str) -> (r: Option<ProgrammeSection>)
        ensures
            r == section_named(lowercase(s@)),
    {
        let chars = chars_of(s);
        let l = to_lowercase(chars.as_slice());
        if is_name(&l, "general_info") {
            Some(ProgrammeSection::GeneralInfo)
        } else if is_name(&l, "coordinators") {
            Some(ProgrammeSection::Coordinators)
        } else if is_name(&l, "about") {
            Some(ProgrammeSection::About)
        } else if is_name(&l, "goals") {
            Some(ProgrammeSection::Goals)
        } else if is_name(&l, "course_structure") {
            Some(ProgrammeSection::CourseStructure)
        } else if is_name(&l, "field_work") {
            Some(ProgrammeSection::FieldWork)
        } else if is_name(&l, "course_tables") {
            Some(ProgrammeSection::CourseTables)
        } else if is_name(&l, "admission_requirements") {
            Some(ProgrammeSection::AdmissionRequirements)
        } else if is_name(&l, "transfer_criteria") {
            Some(ProgrammeSection::TransferCriteria)
        } else if is_name(&l, "advancement_requirements") {
            Some(ProgrammeSection::AdvancementRequirements)
        } else if is_name(&l, "completion_requirements") {
            Some(ProgrammeSection::CompletionRequirements)
        } else if is_name(&l, "competencies") {
            Some(ProgrammeSection::Competencies)
        } else if is_name(&l, "employment_opportunities") {
            Some(ProgrammeSection::EmploymentOpportunities)
        } else {
            None
        }
    }
}

/// One course row of a timetable.
#[derive(Debug)]
pub struct CourseRow {
    pub course: String,
    pub ects: String,
    pub l: String,
    pub s: String,
    pub t: String,
    pub lw: String,
    /// An extra column such as FW or SE, when the table has one.
    pub extra: Option<String>,
    pub total: String,
}

/// A timetable of courses with its heading and legend.
#[derive(Debug)]
pub struct CourseTable {
    pub title: String,
    pub caption: String,
    pub rows: Vec<CourseRow>,
}

/// Everything extracted from one programme page.
#[derive(Debug)]
pub struct ProgrammeInfo {
    pub name: String,
    pub programme_type: String,
    pub degree_awarded: String,
    pub duration: String,
    pub ects_credits: String,
    pub structure: String,
    pub mode_of_study: String,
    pub language_of_study: String,
    /// Coordinator names with the links to their pages.
    pub coordinators: Vec<(String, String)>,
    pub student_services: Option<String>,
    pub course_description: Option<String>,
    pub about: Vec<String>,
    pub goals: Vec<String>,
    pub course_structure_notes: Vec<String>,
    pub field_work: Vec<String>,
    pub admission_requirements: Vec<String>,
    pub transfer_criteria: Vec<String>,
    pub advancement_requirements: Vec<String>,
    pub completion_requirements: Option<String>,
    pub competencies_general: Vec<String>,
    pub competencies_subject: Vec<String>,
    pub employment_opportunities: Vec<String>,
    pub course_tables: Vec<CourseTable>,
}

/// The filter a caller passes, as a sequence.
pub open spec fn filter_view(f: Option<&Vec<ProgrammeSection>>) -> Option<Seq<ProgrammeSection>> {
    match f {
        Some(v) => Some(v@),
        None => None,
    }
}

/// A section is rendered when there is no filter, the filter is empty, or it names the section.
pub open spec fn renders(f: Option<Seq<ProgrammeSection>>, s: ProgrammeSection) -> bool {
    match f {
        None => true,
        Some(v) => v.len() == 0 || v.contains(s),
    }
}

/// Whether `s` is to be rendered under the filter `f`.
pub fn should_render(f: Option<&Vec<ProgrammeSection>>, s: ProgrammeSection) -> (b: bool)
    ensures
        b == renders(filter_view(f), s),
{
    match f {
        None => true,
        Some(v) => {
            if v.len() == 0 {
                return true;
            }
            let mut i: usize = 0;
            while i < v.len()
                invariant
                    i <= v.len(),
                    filter_view(f) == Some(v@),
                    v.len() > 0,
                    forall|j: int| 0 <= j < i ==> v@[j] != s,
                decreases v.len() - i,
            {
                if v[i] == s {
                    proof {
                        assert(v@[i as int] == s);
                    }
                    return true;
                }
                i = i + 1;
            }
            false
        },
    }
}

/// The lines of a paragraph block: each paragraph followed by a blank line.
pub open spec fn para_lines(ps: Seq<String>) -> Seq<char>
    decreases ps.len(),
{
    if ps.len() == 0 {
        Seq::empty()
    } else {
        para_lines(ps.drop_last()) + ps.last()@ + "\n\n"@
    }
}

/// A titled block of paragraphs; nothing when there are no paragraphs.
pub open spec fn paras_md(title: Seq<char>, ps: Seq<String>) -> Seq<char> {
    if ps.len() == 0 {
        Seq::empty()
    } else {
        "## "@ + title + "\n\n"@ + para_lines(ps)
    }
}

/// Items numbered from 1, one per line.
pub open spec fn numbered_lines(items: Seq<String>) -> Seq<char>
    decreases items.len(),
{
    if items.len() == 0 {
        Seq::empty()
    } else {
        numbered_lines(items.drop_last()) + decimal(items.len()) + ". "@ + items.last()@ + "\n"@
    }
}

/// A titled numbered list followed by a blank line; nothing when there are no items.
pub open spec fn list_md(title: Seq<char>, items: Seq<String>) -> Seq<char> {
    if items.len() == 0 {
        Seq::empty()
    } else {
        "## "@ + title + "\n\n"@ + numbered_lines(items) + "\n"@
    }
}

fn write_para_lines(out: &mut Vec<char>, ps: &Vec<String>)
    ensures
        final(out)@ == old(out)@ + para_lines(ps@),
{
    let mut i: usize = 0;
    while i < ps.len()
        invariant
            i <= ps.len(),
            out@ == old(out)@ + para_lines(ps@.take(i as int)),
        decreases ps.len() - i,
    {
        push_str(out, ps[i].as_str());
        push_str(out, "\n\n");
        i = i + 1;
        proof {
            assert(ps@.take(i as int).drop_last() =~= ps@.take(i - 1));
            assert(out@ =~= old(out)@ + para_lines(ps@.take(i as int)));
        }
    }
    proof {
        assert(ps@.take(ps.len() as int) =~= ps@);
    }
}

fn write_paras(out: &mut Vec<char>, title: &str, ps: &Vec<String>)
    ensures
        final(out)@ == old(out)@ + paras_md(title@, ps@),
{
    if ps.len() > 0 {
        push_str(out, "## ");
        push_str(out, title);
        push_str(out, "\n\n");
        write_para_lines(out, ps);
        proof {
            assert(out@ =~= old(out)@ + paras_md(title@, ps@));
        }
    } else {
        proof {
            assert(out@ =~= old(out)@ + paras_md(title@, ps@));
        }
    }
}

fn write_numbered_lines(out: &mut Vec<char>, items: &Vec<String>)
    ensures
        final(out)@ == old(out)@ + numbered_lines(items@),
{
    let mut i: usize = 0;
    while i < items.len()
        invariant
            i <= items.len(),
            out@ == old(out)@ + numbered_lines(items@.take(i as int)),
        decreases items.len() - i,
    {
        let n = to_decimal((i + 1) as u64);
        push_all(out, n.as_slice());
        push_str(out, ". ");
        push_str(out, items[i].as_str());
        push_str(out, "\n");
        i = i + 1;
        proof {
            assert(items@.take(i as int).drop_last() =~= items@.take(i - 1));
            assert(items@.take(i as int).len() == i);
            assert(out@ =~= old(out)@ + numbered_lines(items@.take(i as int)));
        }
    }
    proof {
        assert(items@.take(items.len() as int) =~= items@);
    }
}

fn write_list(out: &mut Vec<char>, title: &str, items: &Vec<String>)
    ensures
        final(out)@ == old(out)@ + list_md(title@, items@),
{
    if items.len() > 0 {
        push_str(out, "## ");
        push_str(out, title);
        push_str(out, "\n\n");
        write_numbered_lines(out, items);
        push_str(out, "\n");
        proof {
            assert(out@ =~= old(out)@ + list_md(title@, items@));
        }
    } else {
        proof {
            assert(out@ =~= old(out)@ + list_md(title@, items@));
        }
    }
}


/// The general-information block.
pub open spec fn general_md(info: ProgrammeInfo) -> Seq<char> {
    "**Type:** "@ + info.programme_type@ + "\n"@
    + "**Degree awarded:** "@ + info.degree_awarded@ + "\n"@
    + "**Duration:** "@ + info.duration@ + "\n"@
    + "**ECTS credits:** "@ + info.ects_credits@ + "\n"@
    + "**Structure:** "@ + info.structure@ + "\n"@
    + "**Mode:** "@ + info.mode_of_study@ + "\n"@
    + "**Language:** "@ + info.language_of_study@ + "\n\n"@
}

/// One bullet per coordinator, linking to the coordinator's page.
pub open spec fn coordinator_lines(cs: Seq<(String, String)>) -> Seq<char>
    decreases cs.len(),
{
    if cs.len() == 0 {
        Seq::empty()
    } else {
        coordinator_lines(cs.drop_last()) + "- ["@ + cs.last().0@ + "]("@ + cs.last().1@ + ")\n"@
    }
}

/// The coordinators block with the optional Student Services and course-description links.
pub open spec fn coordinators_md(info: ProgrammeInfo) -> Seq<char> {
    "## Programme coordinator(s)\n"@ + coordinator_lines(info.coordinators@)
    + (match info.student_services {
        Some(link) => "\nContact for admin procedures: [Student Services]("@ + link@ + ")\n\n"@,
        None => Seq::empty(),
    })
    + (match info.course_description {
        Some(link) => "Short course descriptions: [PDF]("@ + link@ + ")\n\n"@,
        None => Seq::empty(),
    })
}

/// One table row; the extra cell appears only when the row has one.
pub open spec fn row_md(r: CourseRow) -> Seq<char> {
    "| "@ + r.course@ + " | "@ + r.ects@ + " | "@ + r.l@ + " | "@ + r.s@ + " | "@ + r.t@ + " | "@ + r.lw@
    + (match r.extra {
        Some(e) => " | "@ + e@,
        None => Seq::empty(),
    })
    + " | "@ + r.total@ + " |\n"@
}

/// All rows of a table.
pub open spec fn rows_md(rows: Seq<CourseRow>) -> Seq<char>
    decreases rows.len(),
{
    if rows.len() == 0 {
        Seq::empty()
    } else {
        rows_md(rows.drop_last()) + row_md(rows.last())
    }
}

/// A table shows the extra column when its first row has an extra cell.
pub open spec fn has_extra(rows: Seq<CourseRow>) -> bool {
    rows.len() > 0 && rows[0].extra is Some
}

/// One course table: heading, header row, separator, rows and legend.
pub open spec fn table_md(t: CourseTable) -> Seq<char> {
    "### "@ + t.title@ + "\n\n"@
    + "| Course | ECTS | L | S | T | LW"@ + (if has_extra(t.rows@) { " | Extra "@ } else { ""@ }) + "| Total |\n"@
    + "|---|---|---|---|---|---"@ + (if has_extra(t.rows@) { "|---"@ } else { ""@ }) + "|---|\n"@
    + rows_md(t.rows@)
    + "\n"@ + t.caption@ + "\n\n"@
}

/// All course tables.
pub open spec fn tables_md(ts: Seq<CourseTable>) -> Seq<char>
    decreases ts.len(),
{
    if ts.len() == 0 {
        Seq::empty()
    } else {
        tables_md(ts.drop_last()) + table_md(ts.last())
    }
}

/// The completion block, when the page states the requirements.
pub open spec fn completion_md(c: Option<String>) -> Seq<char> {
    match c {
        Some(c) => "### Requirements for completion of studies\n"@ + c@ + "\n\n"@,
        None => Seq::empty(),
    }
}

/// The competencies block: general and subject-specific lists, when either is non-empty.
pub open spec fn competencies_md(general: Seq<String>, subject: Seq<String>) -> Seq<char> {
    if general.len() == 0 && subject.len() == 0 {
        Seq::empty()
    } else {
        "## Graduate competencies\n"@
        + (if general.len() > 0 { "\n**General:**\n"@ + numbered_lines(general) } else { Seq::empty() })
        + (if subject.len() > 0 { "\n**Subject-specific:**\n"@ + numbered_lines(subject) } else { Seq::empty() })
        + "\n"@
    }
}

/// A block that appears only when its section is rendered.
pub open spec fn when(b: bool, s: Seq<char>) -> Seq<char> {
    if b {
        s
    } else {
        Seq::empty()
    }
}

/// The whole Markdown rendering of a programme under a section filter.
pub open spec fn markdown(info: ProgrammeInfo, f: Option<Seq<ProgrammeSection>>) -> Seq<char> {
    "# "@ + info.name@ + "\n\n"@
    + when(renders(f, ProgrammeSection::GeneralInfo), general_md(info))
    + when(renders(f, ProgrammeSection::Coordinators), coordinators_md(info))
    + when(renders(f, ProgrammeSection::About), paras_md("About the programme"@, info.about@))
    + when(renders(f, ProgrammeSection::Goals), list_md("Educational & professional goals"@, info.goals@))
    + when(renders(f, ProgrammeSection::CourseStructure), paras_md("Course structure (notes)"@, info.course_structure_notes@))
    + when(renders(f, ProgrammeSection::FieldWork), paras_md("Field work"@, info.field_work@))
    + when(renders(f, ProgrammeSection::CourseTables), "## Course tables\n"@ + tables_md(info.course_tables@))
    + when(renders(f, ProgrammeSection::AdmissionRequirements), list_md("Admission requirements"@, info.admission_requirements@))
    + when(renders(f, ProgrammeSection::TransferCriteria), list_md("Continuation of studies (transfer criteria)"@, info.transfer_criteria@))
    + when(renders(f, ProgrammeSection::AdvancementRequirements), paras_md("Advancement requirements"@, info.advancement_requirements@))
    + when(renders(f, ProgrammeSection::CompletionRequirements), completion_md(info.completion_requirements))
    + when(renders(f, ProgrammeSection::Competencies), competencies_md(info.competencies_general@, info.competencies_subject@))
    + when(renders(f, ProgrammeSection::EmploymentOpportunities), paras_md("Graduate employment opportunities"@, info.employment_opportunities@))
}

/// Every section is rendered when no filter is given, when the filter is
/// empty, and when the filter names every section: the renderings agree.
pub proof fn lemma_full_filter_renders_all(info: ProgrammeInfo, f: Seq<ProgrammeSection>)
    requires
        f.len() == 0 || forall|s: ProgrammeSection| #[trigger] f.contains(s),
    ensures
        markdown(info, Some(f)) == markdown(info, None),
{
    assert forall|s: ProgrammeSection| #[trigger] renders(Some(f), s) == renders(None, s) by {
        if f.len() != 0 {
            assert(f.contains(s));
        }
    }
}

fn write_labelled(out: &mut Vec<char>, label: &str, value: &String, end: &str)
    ensures
        final(out)@ == old(out)@ + label@ + value@ + end@,
{
    push_str(out, label);
    push_str(out, value.as_str());
    push_str(out, end);
}

fn write_general(out: &mut Vec<char>, info: &ProgrammeInfo)
    ensures
        final(out)@ == old(out)@ + general_md(*info),
{
    write_labelled(out, "**Type:** ", &info.programme_type, "\n");
    write_labelled(out, "**Degree awarded:** ", &info.degree_awarded, "\n");
    write_labelled(out, "**Duration:** ", &info.duration, "\n");
    write_labelled(out, "**ECTS credits:** ", &info.ects_credits, "\n");
    write_labelled(out, "**Structure:** ", &info.structure, "\n");
    write_labelled(out, "**Mode:** ", &info.mode_of_study, "\n");
    write_labelled(out, "**Language:** ", &info.language_of_study, "\n\n");
    proof {
        assert(out@ =~= old(out)@ + general_md(*info));
    }
}

fn write_coordinators(out: &mut Vec<char>, info: &ProgrammeInfo)
    ensures
        final(out)@ == old(out)@ + coordinators_md(*info),
{
    push_str(out, "## Programme coordinator(s)\n");
    let ghost start = out@;
    let cs = &info.coordinators;
    let mut i: usize = 0;
    while i < cs.len()
        invariant
            i <= cs.len(),
            out@ == start + coordinator_lines(cs@.take(i as int)),
        decreases cs.len() - i,
    {
        push_str(out, "- [");
        push_str(out, cs[i].0.as_str());
        push_str(out, "](");
        push_str(out, cs[i].1.as_str());
        push_str(out, ")\n");
        i = i + 1;
        proof {
            assert(cs@.take(i as int).drop_last() =~= cs@.take(i - 1));
            assert(out@ =~= start + coordinator_lines(cs@.take(i as int)));
        }
    }
    proof {
        assert(cs@.take(cs.len() as int) =~= cs@);
    }
    let ghost mid = out@;
    match &info.student_services {
        Some(link) => {
            push_str(out, "\nContact for admin procedures: [Student Services](");
            push_str(out, link.as_str());
            push_str(out, ")\n\n");
        },
        None => {},
    }
    let ghost mid2 = out@;
    match &info.course_description {
        Some(link) => {
            push_str(out, "Short course descriptions: [PDF](");
            push_str(out, link.as_str());
            push_str(out, ")\n\n");
        },
        None => {},
    }
    proof {
        assert(out@ =~= old(out)@ + coordinators_md(*info));
    }
}

fn write_row(out: &mut Vec<char>, r: &CourseRow)
    ensures
        final(out)@ == old(out)@ + row_md(*r),
{
    push_str(out, "| ");
    push_str(out, r.course.as_str());
    push_str(out, " | ");
    push_str(out, r.ects.as_str());
    push_str(out, " | ");
    push_str(out, r.l.as_str());
    push_str(out, " | ");
    push_str(out, r.s.as_str());
    push_str(out, " | ");
    push_str(out, r.t.as_str());
    push_str(out, " | ");
    push_str(out, r.lw.as_str());
    match &r.extra {
        Some(e) => {
            push_str(out, " | ");
            push_str(out, e.as_str());
        },
        None => {},
    }
    push_str(out, " | ");
    push_str(out, r.total.as_str());
    push_str(out, " |\n");
    proof {
        assert(out@ =~= old(out)@ + row_md(*r));
    }
}

fn write_table(out: &mut Vec<char>, t: &CourseTable)
    ensures
        final(out)@ == old(out)@ + table_md(*t),
{
    push_str(out, "### ");
    push_str(out, t.title.as_str());
    push_str(out, "\n\n");
    let extra = t.rows.len() > 0 && t.rows[0].extra.is_some();
    push_str(out, "| Course | ECTS | L | S | T | LW");
    if extra {
        push_str(out, " | Extra ");
    } else {
        push_str(out, "");
    }
    push_str(out, "| Total |\n");
    push_str(out, "|---|---|---|---|---|---");
    if extra {
        push_str(out, "|---");
    } else {
        push_str(out, "");
    }
    push_str(out, "|---|\n");
    let ghost start = out@;
    let mut i: usize = 0;
    while i < t.rows.len()
        invariant
            i <= t.rows.len(),
            out@ == start + rows_md(t.rows@.take(i as int)),
        decreases t.rows.len() - i,
    {
        write_row(out, &t.rows[i]);
        i = i + 1;
        proof {
            assert(t.rows@.take(i as int).drop_last() =~= t.rows@.take(i - 1));
        }
    }
    proof {
        assert(t.rows@.take(t.rows.len() as int) =~= t.rows@);
    }
    push_str(out, "\n");
    push_str(out, t.caption.as_str());
    push_str(out, "\n\n");
    proof {
        assert(extra == has_extra(t.rows@));
        assert(out@ =~= old(out)@ + table_md(*t));
    }
}

fn write_tables(out: &mut Vec<char>, ts: &Vec<CourseTable>)
    ensures
        final(out)@ == old(out)@ + tables_md(ts@),
{
    let mut i: usize = 0;
    while i < ts.len()
        invariant
            i <= ts.len(),
            out@ == old(out)@ + tables_md(ts@.take(i as int)),
        decreases ts.len() - i,
    {
        write_table(out, &ts[i]);
        i = i + 1;
        proof {
            assert(ts@.take(i as int).drop_last() =~= ts@.take(i - 1));
            assert(out@ =~= old(out)@ + tables_md(ts@.take(i as int)));
        }
    }
    proof {
        assert(ts@.take(ts.len() as int) =~= ts@);
    }
}

fn write_competencies(out: &mut Vec<char>, general: &Vec<String>, subject: &Vec<String>)
    ensures
        final(out)@ == old(out)@ + competencies_md(general@, subject@),
{
    if general.len() > 0 || subject.len() > 0 {
        push_str(out, "## Graduate competencies\n");
        let ghost a = out@;
        if general.len() > 0 {
            push_str(out, "\n**General:**\n");
            write_numbered_lines(out, general);
        }
        let ghost b = out@;
        if subject.len() > 0 {
            push_str(out, "\n**Subject-specific:**\n");
            write_numbered_lines(out, subject);
        }
        push_str(out, "\n");
    }
    proof {
        assert(out@ =~= old(out)@ + competencies_md(general@, subject@));
    }
}

fn write_paras_when(out: &mut Vec<char>, b: bool, title: &str, ps: &Vec<String>)
    ensures
        final(out)@ == old(out)@ + when(b, paras_md(title@, ps@)),
{
    if b {
        write_paras(out, title, ps);
    } else {
        proof {
            assert(out@ =~= old(out)@ + when(b, paras_md(title@, ps@)));
        }
    }
}

fn write_list_when(out: &mut Vec<char>, b: bool, title: &str, items: &Vec<String>)
    ensures
        final(out)@ == old(out)@ + when(b, list_md(title@, items@)),
{
    if b {
        write_list(out, title, items);
    } else {
        proof {
            assert(out@ =~= old(out)@ + when(b, list_md(title@, items@)));
        }
    }
}

fn write_general_when(out: &mut Vec<char>, b: bool, info: &ProgrammeInfo)
    ensures
        final(out)@ == old(out)@ + when(b, general_md(*info)),
{
    if b {
        write_general(out, info);
    } else {
        proof {
            assert(out@ =~= old(out)@ + when(b, general_md(*info)));
        }
    }
}

fn write_coordinators_when(out: &mut Vec<char>, b: bool, info: &ProgrammeInfo)
    ensures
        final(out)@ == old(out)@ + when(b, coordinators_md(*info)),
{
    if b {
        write_coordinators(out, info);
    } else {
        proof {
            assert(out@ =~= old(out)@ + when(b, coordinators_md(*info)));
        }
    }
}

fn write_tables_when(out: &mut Vec<char>, b: bool, ts: &Vec<CourseTable>)
    ensures
        final(out)@ == old(out)@ + when(b, "## Course tables\n"@ + tables_md(ts@)),
{
    if b {
        push_str(out, "## Course tables\n");
        write_tables(out, ts);
        proof {
            assert(out@ =~= old(out)@ + when(b, "## Course tables\n"@ + tables_md(ts@)));
        }
    } else {
        proof {
            assert(out@ =~= old(out)@ + when(b, "## Course tables\n"@ + tables_md(ts@)));
        }
    }
}

fn write_completion_when(out: &mut Vec<char>, b: bool, c: &Option<String>)
    ensures
        final(out)@ == old(out)@ + when(b, completion_md(*c)),
{
    if b {
        match c {
            Some(c) => {
                push_str(out, "### Requirements for completion of studies\n");
                push_str(out, c.as_str());
                push_str(out, "\n\n");
            },
            None => {},
        }
    }
    proof {
        assert(out@ =~= old(out)@ + when(b, completion_md(*c)));
    }
}

fn write_competencies_when(out: &mut Vec<char>, b: bool, general: &Vec<String>, subject: &Vec<String>)
    ensures
        final(out)@ == old(out)@ + when(b, competencies_md(general@, subject@)),
{
    if b {
        write_competencies(out, general, subject);
    } else {
        proof {
            assert(out@ =~= old(out)@ + when(b, competencies_md(general@, subject@)));
        }
    }
}

impl ProgrammeInfo {
    /// Renders the programme as Markdown. With no filter, or an empty one,
    /// every section is rendered; otherwise only the sections the filter names.
    pub fn to_markdown(&self, sections_to_render: Option<&Vec<ProgrammeSection>>) -> (r: String)
        ensures
            r@ == markdown(*self, filter_view(sections_to_render)),
    {
        let f = sections_to_render;
        let mut out: Vec<char> = Vec::new();
        push_str(&mut out, "# ");
        push_str(&mut out, self.name.as_str());
        push_str(&mut out, "\n\n");
        let b = should_render(f, ProgrammeSection::GeneralInfo);
        write_general_when(&mut out, b, self);
        let b = should_render(f, ProgrammeSection::Coordinators);
        write_coordinators_when(&mut out, b, self);
        let b = should_render(f, ProgrammeSection::About);
        write_paras_when(&mut out, b, "About the programme", &self.about);
        let b = should_render(f, ProgrammeSection::Goals);
        write_list_when(&mut out, b, "Educational & professional goals", &self.goals);
        let b = should_render(f, ProgrammeSection::CourseStructure);
        write_paras_when(&mut out, b, "Course structure (notes)", &self.course_structure_notes);
        let b = should_render(f, ProgrammeSection::FieldWork);
        write_paras_when(&mut out, b, "Field work", &self.field_work);
        let b = should_render(f, ProgrammeSection::CourseTables);
        write_tables_when(&mut out, b, &self.course_tables);
        let b = should_render(f, ProgrammeSection::AdmissionRequirements);
        write_list_when(&mut out, b, "Admission requirements", &self.admission_requirements);
        let b = should_render(f, ProgrammeSection::TransferCriteria);
        write_list_when(&mut out, b, "Continuation of studies (transfer criteria)", &self.transfer_criteria);
        let b = should_render(f, ProgrammeSection::AdvancementRequirements);
        write_paras_when(&mut out, b, "Advancement requirements", &self.advancement_requirements);
        let b = should_render(f, ProgrammeSection::CompletionRequirements);
        write_completion_when(&mut out, b, &self.completion_requirements);
        let b = should_render(f, ProgrammeSection::Competencies);
        write_competencies_when(&mut out, b, &self.competencies_general, &self.competencies_subject);
        let b = should_render(f, ProgrammeSection::EmploymentOpportunities);
        write_paras_when(&mut out, b, "Graduate employment opportunities", &self.employment_opportunities);
        proof {
            assert(out@ =~= markdown(*self, filter_view(f)));
        }
        string_from(out.as_slice())
    }
}

/// A paragraph block renders every paragraph, in order, each followed by a
/// blank line: one more paragraph adds exactly that paragraph and a blank
/// line at the end, and the block's length is that of its paragraphs plus
/// two characters each.
pub proof fn lemma_para_lines_all(ps: Seq<String>, p: String)
    ensures
        para_lines(ps.push(p)) == para_lines(ps) + p@ + "\n\n"@,
        para_lines(Seq::<String>::empty()) == Seq::<char>::empty(),
{
    assert(ps.push(p).drop_last() =~= ps);
}

} // verus!
