use urska::programme_page::peel_value;
use urska::ranking::{rank_names, trigram_vec};

fn strings(v: &[&str]) -> Vec<String> {
    v.iter().map(|s| s.to_string()).collect()
}

#[test]
fn ranking_puts_the_closest_name_first() {
    let names = strings(&["Biology", "Computer Science", "Mathematics"]);
    assert_eq!(rank_names(names, "COMPUTER"), strings(&["Computer Science", "Biology", "Mathematics"]));
}

#[test]
fn ranking_is_stable_for_ties() {
    let names = strings(&["xyz", "abc", "qqq"]);
    assert_eq!(rank_names(names.clone(), "zzz"), names);
    assert_eq!(rank_names(vec![], "x"), Vec::<String>::new());
}

#[test]
fn ranking_keeps_every_name() {
    let names = strings(&["a", "bb", "ccc", "a"]);
    let mut r = rank_names(names.clone(), "ccc");
    assert_eq!(r[0], "ccc");
    r.sort();
    let mut n = names;
    n.sort();
    assert_eq!(r, n);
}

#[test]
fn trigrams_of_short_and_long_text() {
    let short: Vec<char> = "ab".chars().collect();
    assert_eq!(trigram_vec(&short), vec![vec!['a', 'b']]);
    let long: Vec<char> = "abcd".chars().collect();
    assert_eq!(trigram_vec(&long), vec![vec!['a', 'b', 'c'], vec!['b', 'c', 'd']]);
}

#[test]
fn labelled_values_are_peeled() {
    let lines = strings(&["Duration 3 years", "DURATION: 4 years", "Language: English"]);
    assert_eq!(peel_value(&lines, "duration"), "4 years");
    assert_eq!(peel_value(&lines, "mode"), "\u{2014}");
}
