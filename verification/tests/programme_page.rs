use urska::programme::{CourseRow, CourseTable, ProgrammeInfo, ProgrammeSection};

const PAGE: &str = "<!DOCTYPE html>
<html><head><title>Programme</title></head><body>
<h1>Computer Science</h1>
<div class=\"content main\">
<p>Type of programme: First-cycle<br>Degree awarded: Bachelor &amp; Co<br/>Duration: 3 years<br>ECTS-credits: 180<br>Mode of study: Full-time<br>Language of study: English</p>
<h2>Programme coordinator</h2>
<p><a href=\"/staff/jane\">Jane Doe</a></p>
<h2>About the programme</h2>
<p>First paragraph.</p>
<p>   </p>
<p>Second <b>bold</b> paragraph.</p>
<h2>Educational and professional goals</h2>
<ul><li>Goal one</li><li>Goal two</li></ul>
<h2>Course structure</h2>
<p>Notes here.</p>
<h3>First year</h3>
<table><tr><th>No.</th><th>Course</th><th>ECTS</th><th>L</th><th>S</th><th>T</th><th>LW</th><th>Total</th></tr>
<tr><td>1.</td><td>Analysis I</td><td>6</td><td>45</td><td>0</td><td>45</td><td>0</td><td>90</td></tr>
<tr><td>Programming</td><td>9</td><td>30</td><td>15</td><td>0</td><td>30</td><td>75</td></tr>
<tr><td>Too</td><td>short</td></tr>
</table>
<p>Legend: L = lectures</p>
<h2>Graduate competencies</h2>
<ul><li>General A</li></ul>
<ul><li>Subject B</li></ul>
<h3>Requirements for the completion of studies</h3><p>Pass all exams.</p>
</div>
<a href=\"https://ss.example/\">Student Services</a>
<a href=\"https://cd.example/\">here</a>
</body></html>";

fn info() -> ProgrammeInfo {
    ProgrammeInfo::from_html(PAGE).expect("the page has a title")
}

#[test]
fn page_without_title_is_refused() {
    assert!(ProgrammeInfo::from_html("<html><body><p>no title</p></body></html>").is_none());
}

#[test]
fn name_is_first_heading() {
    assert_eq!(info().name, "Computer Science");
}

#[test]
fn general_information_is_peeled_from_lines() {
    let i = info();
    assert_eq!(i.programme_type, "First-cycle");
    assert_eq!(i.degree_awarded, "Bachelor & Co");
    assert_eq!(i.duration, "3 years");
    assert_eq!(i.ects_credits, "180");
    assert_eq!(i.structure, "\u{2014}");
    assert_eq!(i.mode_of_study, "Full-time");
    assert_eq!(i.language_of_study, "English");
}

#[test]
fn coordinators_and_links() {
    let i = info();
    assert_eq!(i.coordinators, vec![("Jane Doe".to_string(), "/staff/jane".to_string())]);
    assert_eq!(i.student_services, Some("https://ss.example/".to_string()));
    assert_eq!(i.course_description, Some("https://cd.example/".to_string()));
}

#[test]
fn paragraphs_keep_text_node_spacing() {
    let i = info();
    assert_eq!(i.about, vec!["First paragraph.".to_string(), "Second  bold  paragraph.".to_string()]);
    assert_eq!(i.course_structure_notes, vec!["Notes here.".to_string(), "Legend: L = lectures".to_string()]);
}

#[test]
fn lists_of_sections() {
    let i = info();
    assert_eq!(i.goals, vec!["Goal one".to_string(), "Goal two".to_string()]);
    assert_eq!(i.competencies_general, vec!["General A".to_string()]);
    assert_eq!(i.competencies_subject, vec!["Subject B".to_string()]);
    assert!(i.admission_requirements.is_empty());
    assert!(i.employment_opportunities.is_empty());
}

#[test]
fn completion_requirements_follow_their_heading() {
    assert_eq!(info().completion_requirements, Some("Pass all exams.".to_string()));
}

#[test]
fn completion_needs_adjacent_paragraph() {
    let page = "<html><body><h1>P</h1><h3>Requirements for the completion</h3>\n<p>x</p></body></html>";
    let i = ProgrammeInfo::from_html(page).unwrap();
    assert_eq!(i.completion_requirements, None);
}

#[test]
fn course_table_rows() {
    let i = info();
    assert_eq!(i.course_tables.len(), 1);
    let t = &i.course_tables[0];
    assert_eq!(t.title, "First year");
    assert_eq!(t.caption, "Legend: L = lectures");
    assert_eq!(t.rows.len(), 2);
    let r0 = &t.rows[0];
    assert_eq!(
        (r0.course.as_str(), r0.ects.as_str(), r0.l.as_str(), r0.s.as_str(), r0.t.as_str(), r0.lw.as_str(), r0.total.as_str()),
        ("Analysis I", "6", "45", "0", "45", "0", "90")
    );
    assert_eq!(r0.extra, None);
    let r1 = &t.rows[1];
    assert_eq!((r1.course.as_str(), r1.total.as_str()), ("Programming", "75"));
}

#[test]
fn table_with_extra_column() {
    let page = "<html><body><h1>P</h1><div class=\"content\"><p>Plan</p><table>\
        <tr><th>Course</th><th>ECTS</th></tr>\
        <tr><td>A</td><td>6</td><td>1</td><td>2</td><td>3</td><td>4</td><td>FW</td><td>10</td></tr>\
        </table></div></body></html>";
    let i = ProgrammeInfo::from_html(page).unwrap();
    let t = &i.course_tables[0];
    assert_eq!(t.title, "Plan");
    assert_eq!(t.caption, "");
    assert_eq!(t.rows[0].extra, Some("FW".to_string()));
    assert_eq!(t.rows[0].total, "10");
}

#[test]
fn table_without_course_header_is_skipped() {
    let page = "<html><body><h1>P</h1><div class=\"content\"><table>\
        <tr><th>Name</th><th>Room</th></tr>\
        <tr><td>A</td><td>6</td><td>1</td><td>2</td><td>3</td><td>4</td></tr>\
        </table></div></body></html>";
    assert!(ProgrammeInfo::from_html(page).unwrap().course_tables.is_empty());
}

#[test]
fn table_outside_content_is_skipped() {
    let page = "<html><body><h1>P</h1><table>\
        <tr><th>Course</th><th>ECTS</th></tr>\
        <tr><td>A</td><td>6</td><td>1</td><td>2</td><td>3</td><td>4</td></tr>\
        </table></body></html>";
    assert!(ProgrammeInfo::from_html(page).unwrap().course_tables.is_empty());
}

#[test]
fn section_names_read_in_any_case() {
    assert_eq!(ProgrammeSection::from_str("Course_Tables"), Some(ProgrammeSection::CourseTables));
    assert_eq!(ProgrammeSection::from_str("GENERAL_INFO"), Some(ProgrammeSection::GeneralInfo));
    assert_eq!(ProgrammeSection::from_str("tables"), None);
}

fn small_info() -> ProgrammeInfo {
    ProgrammeInfo {
        name: "Maths".to_string(),
        programme_type: "First-cycle".to_string(),
        degree_awarded: "BSc".to_string(),
        duration: "3 years".to_string(),
        ects_credits: "180".to_string(),
        structure: "\u{2014}".to_string(),
        mode_of_study: "Full-time".to_string(),
        language_of_study: "English".to_string(),
        coordinators: vec![("Ann".to_string(), "/ann".to_string())],
        student_services: None,
        course_description: None,
        about: vec!["Intro.".to_string()],
        goals: vec!["G1".to_string(), "G2".to_string()],
        course_structure_notes: vec![],
        field_work: vec![],
        admission_requirements: vec![],
        transfer_criteria: vec![],
        advancement_requirements: vec![],
        completion_requirements: None,
        competencies_general: vec![],
        competencies_subject: vec![],
        employment_opportunities: vec![],
        course_tables: vec![CourseTable {
            title: "Year 1".to_string(),
            caption: "L = lectures".to_string(),
            rows: vec![CourseRow {
                course: "A".to_string(),
                ects: "6".to_string(),
                l: "1".to_string(),
                s: "2".to_string(),
                t: "3".to_string(),
                lw: "4".to_string(),
                extra: None,
                total: "10".to_string(),
            }],
        }],
    }
}

#[test]
fn markdown_of_selected_sections() {
    let filter = vec![ProgrammeSection::Goals, ProgrammeSection::CourseTables];
    let md = small_info().to_markdown(Some(&filter));
    assert_eq!(
        md,
        "# Maths\n\n## Educational & professional goals\n\n1. G1\n2. G2\n\n## Course tables\n### Year 1\n\n| Course | ECTS | L | S | T | LW| Total |\n|---|---|---|---|---|---|---|\n| A | 6 | 1 | 2 | 3 | 4 | 10 |\n\nL = lectures\n\n"
    );
}

#[test]
fn markdown_general_block() {
    let filter = vec![ProgrammeSection::GeneralInfo];
    let md = small_info().to_markdown(Some(&filter));
    assert_eq!(
        md,
        "# Maths\n\n**Type:** First-cycle\n**Degree awarded:** BSc\n**Duration:** 3 years\n**ECTS credits:** 180\n**Structure:** \u{2014}\n**Mode:** Full-time\n**Language:** English\n\n"
    );
}

#[test]
fn empty_filter_renders_everything() {
    let i = small_info();
    let empty: Vec<ProgrammeSection> = vec![];
    assert_eq!(i.to_markdown(Some(&empty)), i.to_markdown(None));
    let all = vec![
        ProgrammeSection::GeneralInfo,
        ProgrammeSection::Coordinators,
        ProgrammeSection::About,
        ProgrammeSection::Goals,
        ProgrammeSection::CourseStructure,
        ProgrammeSection::FieldWork,
        ProgrammeSection::CourseTables,
        ProgrammeSection::AdmissionRequirements,
        ProgrammeSection::TransferCriteria,
        ProgrammeSection::AdvancementRequirements,
        ProgrammeSection::CompletionRequirements,
        ProgrammeSection::Competencies,
        ProgrammeSection::EmploymentOpportunities,
    ];
    assert_eq!(i.to_markdown(Some(&all)), i.to_markdown(None));
}

#[test]
fn coordinators_block() {
    let filter = vec![ProgrammeSection::Coordinators];
    assert_eq!(small_info().to_markdown(Some(&filter)), "# Maths\n\n## Programme coordinator(s)\n- [Ann](/ann)\n");
}
