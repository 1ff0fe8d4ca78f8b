use password_vault::search::{contains_text, matching_entries};

fn chars(text: &str) -> Vec<char> {
    text.chars().collect()
}

fn strings(items: &[&str]) -> Vec<String> {
    items.iter().map(|s| s.to_string()).collect()
}

#[test]
fn text_is_found_where_it_stands() {
    assert!(contains_text(&chars("hello world"), &chars("hello")));
    assert!(contains_text(&chars("hello world"), &chars("world")));
    assert!(contains_text(&chars("hello world"), &chars("o w")));
    assert!(contains_text(&chars("hello world"), &chars("hello world")));
    assert!(contains_text(&chars("aaab"), &chars("aab")));
    assert!(!contains_text(&chars("hello world"), &chars("worlds")));
    assert!(!contains_text(&chars("hello world"), &chars("Hello")));
    assert!(!contains_text(&chars("abc"), &chars("abcd")));
    assert!(!contains_text(&chars("abab"), &chars("bb")));
}

#[test]
fn the_empty_text_is_found_everywhere() {
    assert!(contains_text(&chars("abc"), &chars("")));
    assert!(contains_text(&chars(""), &chars("")));
    assert!(!contains_text(&chars(""), &chars("a")));
}

#[test]
fn search_ignores_case_and_looks_at_account_and_website() {
    let accounts = strings(&["Alice@Mail", "bob", "carol", "MAILER"]);
    let websites = strings(&["example.org", "mail.example", "Shop.example", "x"]);
    assert_eq!(matching_entries(&accounts, &websites, "mail"), vec![0, 1, 3]);
    assert_eq!(matching_entries(&accounts, &websites, "MAIL"), vec![0, 1, 3]);
    assert_eq!(matching_entries(&accounts, &websites, "shop"), vec![2]);
    assert_eq!(matching_entries(&accounts, &websites, "example"), vec![0, 1, 2]);
    assert_eq!(matching_entries(&accounts, &websites, "nothing"), Vec::<usize>::new());
}

#[test]
fn an_empty_query_matches_every_entry() {
    let accounts = strings(&["a", "b", "c"]);
    let websites = strings(&["x", "y", "z"]);
    assert_eq!(matching_entries(&accounts, &websites, ""), vec![0, 1, 2]);
    assert_eq!(matching_entries(&Vec::new(), &Vec::new(), ""), Vec::<usize>::new());
}

#[test]
fn search_stops_at_the_shorter_list() {
    let accounts = strings(&["mail", "mail", "mail"]);
    let websites = strings(&["x"]);
    assert_eq!(matching_entries(&accounts, &websites, "mail"), vec![0]);
    assert_eq!(matching_entries(&websites, &accounts, "mail"), vec![0]);
}

#[test]
fn search_lowercases_beyond_ascii() {
    let accounts = strings(&["ÄRGER", "straße"]);
    let websites = strings(&["", ""]);
    assert_eq!(matching_entries(&accounts, &websites, "ärger"), vec![0]);
    assert_eq!(matching_entries(&accounts, &websites, "STRA"), vec![1]);
}
