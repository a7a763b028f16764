use urska::catalog::{
    get_similar_programme_names, list_all_programmes, list_programmes_markdown, parse_level,
    parse_level_any_case, pick_programme, programme_for_request, programme_info_reply, resolve_programme,
    similar_programme_names, ListProgrammesRequest, Programme, ProgrammeInfoRequest, ProgrammeLevel,
    SimilarProgrammesRequest,
};

fn prog(name: &str, level: ProgrammeLevel) -> Programme {
    Programme { name: name.to_string(), url: format!("https://x/{}", name.replace(' ', "-")), level }
}

fn catalogue() -> Vec<Programme> {
    vec![
        prog("Computer Science", ProgrammeLevel::Undergraduate),
        prog("Mathematics", ProgrammeLevel::Undergraduate),
        prog("Computer Science", ProgrammeLevel::Master),
        prog("Bioinformatics", ProgrammeLevel::Master),
        prog("Mathematical Sciences", ProgrammeLevel::Doctoral),
    ]
}

#[test]
fn levels_are_read_exactly_or_in_any_case() {
    assert_eq!(parse_level(Some("master")), Some(ProgrammeLevel::Master));
    assert_eq!(parse_level(Some("Master")), None);
    assert_eq!(parse_level(Some("any")), None);
    assert_eq!(parse_level(None), None);
    assert_eq!(parse_level_any_case("DOCTORAL"), Some(ProgrammeLevel::Doctoral));
    assert_eq!(ProgrammeLevel::Undergraduate.label(), "Undergraduate");
}

#[test]
fn listing_groups_by_level_label() {
    let md = list_programmes_markdown(&catalogue(), None);
    assert_eq!(
        md,
        "\n### Doctoral\n- Mathematical Sciences\n\n### Master\n- Computer Science\n- Bioinformatics\n\n### Undergraduate\n- Computer Science\n- Mathematics\n"
    );
}

#[test]
fn listing_one_level() {
    let req = ListProgrammesRequest { level: Some("master".to_string()) };
    assert_eq!(list_all_programmes(&catalogue(), &req), "\n### Master\n- Computer Science\n- Bioinformatics\n");
    let any = ListProgrammesRequest { level: Some("any".to_string()) };
    assert_eq!(list_all_programmes(&catalogue(), &any), list_programmes_markdown(&catalogue(), None));
}

#[test]
fn listing_nothing() {
    let only_master = vec![prog("Bioinformatics", ProgrammeLevel::Master)];
    assert_eq!(
        list_programmes_markdown(&only_master, Some(ProgrammeLevel::Doctoral)),
        "No programmes found for the specified level."
    );
}

#[test]
fn similar_names_best_first() {
    let r = similar_programme_names(&catalogue(), "mathematics", 2, Some(ProgrammeLevel::Undergraduate));
    assert_eq!(r, "Mathematics \n - Computer Science");
    let all = similar_programme_names(&catalogue(), "bioinformatics", -1, Some(ProgrammeLevel::Master));
    assert_eq!(all, "Bioinformatics \n - Computer Science");
    let none = similar_programme_names(&vec![], "x", 3, None);
    assert_eq!(none, "No programmes found for the specified level.");
}

#[test]
fn similar_names_request_defaults_to_five() {
    let req = SimilarProgrammesRequest { name: "computer science".to_string(), k: None, level: None };
    let r = get_similar_programme_names(&catalogue(), &req);
    assert_eq!(r.matches(" \n - ").count(), 4);
    assert!(r.starts_with("Computer Science \n - Computer Science"));
}

#[test]
fn picking_needs_a_level_when_ambiguous() {
    let ps = catalogue();
    assert_eq!(
        pick_programme(&ps, "Computer Science", None),
        Err("Found 'Computer Science' at multiple levels: Undergraduate, Master. Please specify which one you are interested in.".to_string())
    );
    assert_eq!(pick_programme(&ps, "computer science", Some("MASTER")), Ok(2));
    assert_eq!(
        pick_programme(&ps, "Bioinformatics", Some("doctoral")),
        Err("No programme found for 'Bioinformatics' at the specified level.".to_string())
    );
    assert_eq!(pick_programme(&ps, "Bioinformatics", Some("any")), Ok(3));
}

#[test]
fn resolving_ranks_then_picks() {
    let ps = catalogue();
    assert_eq!(resolve_programme(&ps, "bioinformatic", None), Ok(3));
    assert_eq!(resolve_programme(&vec![], "x", None), Err("No programme found matching the name 'x'.".to_string()));
    let req = ProgrammeInfoRequest { name: "mathematics".to_string(), level: None };
    assert_eq!(programme_for_request(&ps, &req), Ok(1));
}

#[test]
fn info_reply_without_page() {
    let p = prog("Mathematics", ProgrammeLevel::Undergraduate);
    assert_eq!(programme_info_reply(&p, None, None), "Could not retrieve information for 'Mathematics'.");
}
