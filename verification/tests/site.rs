use urska::catalog::ProgrammeLevel;
use urska::site::{absolutized_app_div, page_url_error, parse_programme_list_page, similar_names_reply, similar_staff_names, staff_html_to_markdown};

#[test]
fn programme_list_links_are_resolved() {
    let html = "<html><body><div class=\"content\"><ul>\
        <li><a href=\"/en/education/undergraduate/cs/\">Computer Science (UN)</a></li>\
        <li><a href=\"javascript:void(0)\">Script</a></li>\
        <li><a href=\"/x\">   (only parens)</a></li>\
        <li><a>No link</a></li>\
        <li><a href=\"https://other.example/m\">Mathematics</a></li>\
        </ul></div>\
        <ul><li><a href=\"/outside\">Outside</a></li></ul></body></html>";
    let ps = parse_programme_list_page(html, ProgrammeLevel::Undergraduate);
    assert_eq!(ps.len(), 2);
    assert_eq!(ps[0].name, "Computer Science");
    assert_eq!(ps[0].url, "https://www.famnit.upr.si/en/education/undergraduate/cs/");
    assert_eq!(ps[0].level, ProgrammeLevel::Undergraduate);
    assert_eq!(ps[1].name, "Mathematics");
    assert_eq!(ps[1].url, "https://other.example/m");
}

#[test]
fn list_links_need_a_list_item_in_content() {
    let html = "<html><body><div class=\"content\"><p><a href=\"/p\">Para</a></p>\
        <ol><li><a href=\"/o\">Ordered</a></li></ol></div></body></html>";
    assert!(parse_programme_list_page(html, ProgrammeLevel::Master).is_empty());
}

const STAFF: &str = "<html><body><table id=\"osebje-list\">\
    <tr><th>Surname</th><th>Name</th><th>Phone</th><th>E-mail</th><th>Web</th></tr>\
    <tr><td><a href=\"/staff/doe\">Doe</a></td><td><a>Jane</a></td><td>123</td><td><a>jane@x</a></td><td></td></tr>\
    <tr><td><a>Roe</a></td><td><a> Rick </a></td><td>1</td><td></td><td></td></tr>\
    <tr><td>Short</td><td>row</td></tr>\
    </table><table><tr><td>a</td><td>b</td><td>c</td><td>d</td><td>e</td></tr></table></body></html>";

#[test]
fn staff_list_bullets_and_names() {
    let (md, names) = staff_html_to_markdown(STAFF);
    assert_eq!(md, "- **Doe Jane** \u{2022} [Profile](/staff/doe)\n- **Roe Rick**");
    assert_eq!(names, vec!["Jane Doe".to_string(), "Rick Roe".to_string()]);
}

#[test]
fn staff_list_without_rows() {
    let (md, names) = staff_html_to_markdown("<html><body><p>nothing</p></body></html>");
    assert_eq!(md, "");
    assert!(names.is_empty());
}

#[test]
fn similar_staff_names_take_the_best() {
    let names = vec!["Jane Doe".to_string(), "John Smith".to_string(), "Janet Dow".to_string()];
    let r = similar_staff_names(names, "jane doe", 2);
    assert_eq!(r, "Jane Doe\nJanet Dow");
}

#[test]
fn app_div_is_rebuilt_with_absolute_links() {
    let html = "<html><head><link rel=\"stylesheet\" href=\"/s.css\"></head><body>\
        <div class=\"top app\" style=\"color: red\"><a href=\"/en/page\">Page</a>\
        <script>var x = 1;</script><!-- note --><img src=\"img/p.png\">text &amp; more\
        <LINK rel=\"StyleSheet\" href=\"x.css\"><p>para</p></div></body></html>";
    let r = absolutized_app_div("https://www.famnit.upr.si/en/about/", html).unwrap();
    assert_eq!(
        r,
        Some("<div class=\"top app\"><a href=\"https://www.famnit.upr.si/en/page\">Page</a><img src=\"https://www.famnit.upr.si/en/about/img/p.png\"></img>text & more<p>para</p></div>".to_string())
    );
}

#[test]
fn page_without_app_div() {
    let r = absolutized_app_div("https://www.famnit.upr.si/", "<html><body><div class=\"apps\">x</div></body></html>");
    assert_eq!(r, Ok(None));
}

#[test]
fn invalid_page_url_is_an_error() {
    let r = absolutized_app_div("not a url", "<html></html>");
    assert_eq!(r, Err("Invalid page URL 'not a url': relative URL without a base".to_string()));
    assert!(page_url_error("https://www.famnit.upr.si/").is_none());
}

#[test]
fn similar_names_tool_defaults_to_five() {
    let names: Vec<String> = (0..6).map(|i| format!("Name {}", i)).collect();
    let r = similar_names_reply(names.clone(), "name 3", None).unwrap();
    assert_eq!(r.lines().count(), 5);
    assert_eq!(r.lines().next(), Some("Name 3"));
    assert_eq!(similar_names_reply(names.clone(), "x", Some(7)), None);
    assert_eq!(similar_names_reply(names.clone(), "x", Some(-1)), None);
    assert_eq!(similar_names_reply(vec!["A".into()], "a", Some(0)), Some(String::new()));
}
