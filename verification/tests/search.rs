use unicode_lookup::rows::search_lines;
use unicode_lookup::rows::split_semicolon;

fn table() -> Vec<String> {
    vec![
        "0041;LATIN CAPITAL LETTER A;Lu;0;L;;;;;N;;;;;".to_string(),
        "0061;LATIN SMALL LETTER A;Ll;0;L;;;;;N;;;;;".to_string(),
        "002A;ASTERISK;Po;0;ON;;;;;N;;;;;".to_string(),
        "FFFF;<noncharacter-FFFF>;Cn;0;BN;;;;;N;;;;;".to_string(),
    ]
}

fn pairs(query: &str, lines: &Vec<String>) -> Vec<(String, String)> {
    search_lines(query, lines).expect("query should compile")
}

#[test]
fn capital_letter_a_scenario() {
    let lines = vec!["0041;LATIN CAPITAL LETTER A;Lu;0;L;;;;;N;;;;;".to_string()];
    let found = pairs("capital letter a", &lines);
    assert_eq!(
        found,
        vec![("0041".to_string(), "LATIN CAPITAL LETTER A".to_string())]
    );
}

#[test]
fn case_insensitive_query() {
    let found = pairs("latin", &table());
    assert_eq!(found.len(), 2);
    assert_eq!(found[0].1, "LATIN CAPITAL LETTER A");
    assert_eq!(found[1].1, "LATIN SMALL LETTER A");
}

#[test]
fn literal_dot_query() {
    let lines = vec![
        "0041;LATIN CAPITAL LETTER A;Lu".to_string(),
        "1F42E;COW FACE .;So".to_string(),
    ];
    let found = pairs(".", &lines);
    assert_eq!(found, vec![("1F42E".to_string(), "COW FACE .".to_string())]);
}

#[test]
fn literal_star_query() {
    let found = pairs("*", &table());
    assert_eq!(found, vec![]);
    let lines = vec!["002A;ASTERISK *;Po".to_string()];
    let found = pairs("*", &lines);
    assert_eq!(found, vec![("002A".to_string(), "ASTERISK *".to_string())]);
}

#[test]
fn absent_query_yields_empty() {
    let found = search_lines("zyxwv", &table());
    assert!(found.is_some());
    assert_eq!(found.unwrap(), vec![]);
}

#[test]
fn short_row_dropped() {
    let lines = vec![
        "LATIN ALL ALONE".to_string(),
        "0041;LATIN CAPITAL LETTER A;Lu".to_string(),
    ];
    let found = pairs("latin", &lines);
    assert_eq!(
        found,
        vec![("0041".to_string(), "LATIN CAPITAL LETTER A".to_string())]
    );
}

#[test]
fn file_order_kept() {
    let found = pairs("a", &table());
    let codes: Vec<String> = found.into_iter().map(|p| p.0).collect();
    assert_eq!(codes, vec!["0041", "0061", "002A", "FFFF"]);
}

#[test]
fn noncharacter_row_found() {
    let found = pairs("noncharacter", &table());
    assert_eq!(
        found,
        vec![("FFFF".to_string(), "<noncharacter-FFFF>".to_string())]
    );
}

#[test]
fn whole_line_is_searched() {
    let found = pairs("asterisk;po", &table());
    assert_eq!(found.len(), 1);
    assert_eq!(found[0].0, "002A");
}

#[test]
fn split_fields_in_order() {
    let fields = split_semicolon("0041;LATIN CAPITAL LETTER A;Lu");
    assert_eq!(fields, vec!["0041", "LATIN CAPITAL LETTER A", "Lu"]);
}

#[test]
fn split_empty_line() {
    assert_eq!(split_semicolon(""), vec![""]);
    assert_eq!(split_semicolon(";"), vec!["", ""]);
    assert_eq!(split_semicolon("a;"), vec!["a", ""]);
}
