use trivy_exp_dep::names::{strip_quotes, NameSet};

fn owned(names: &[&str]) -> Vec<String> {
    names.iter().map(|n| n.to_string()).collect()
}

#[test]
fn new_set_is_empty() {
    let set = NameSet::new();
    assert!(set.is_empty());
    assert_eq!(set.len(), 0);
    assert_eq!(set.to_vec(), Vec::<String>::new());
}

#[test]
fn insert_adds_once() {
    let mut set = NameSet::new();
    assert!(set.insert("colors".to_string()));
    assert!(set.insert("left-pad".to_string()));
    assert!(!set.insert("colors".to_string()));
    assert_eq!(set.len(), 2);
    assert!(!set.is_empty());
    assert_eq!(set.to_vec(), owned(&["colors", "left-pad"]));
    assert_eq!(set.get(1), "left-pad");
}

#[test]
fn names_are_case_sensitive() {
    let mut set = NameSet::new();
    set.insert("Colors".to_string());
    assert!(set.contains(&"Colors".to_string()));
    assert!(!set.contains(&"colors".to_string()));
    assert!(set.insert("colors".to_string()));
    assert_eq!(set.len(), 2);
}

#[test]
fn from_names_drops_repeats() {
    let set = NameSet::from_names(&owned(&["b", "a", "b", "c", "a"]));
    assert_eq!(set.to_vec(), owned(&["b", "a", "c"]));
}

#[test]
fn difference_keeps_order() {
    let all = NameSet::from_names(&owned(&["a", "b", "c", "d"]));
    let some = NameSet::from_names(&owned(&["d", "b", "x"]));
    assert_eq!(all.difference(&some).to_vec(), owned(&["a", "c"]));
    assert_eq!(all.difference(&NameSet::new()).to_vec(), owned(&["a", "b", "c", "d"]));
    assert!(all.difference(&all).is_empty());
}

#[test]
fn absorb_is_union() {
    let mut set = NameSet::from_names(&owned(&["a", "b"]));
    set.absorb(&NameSet::from_names(&owned(&["b", "c"])));
    assert_eq!(set.to_vec(), owned(&["a", "b", "c"]));
    set.absorb(&NameSet::new());
    assert_eq!(set.len(), 3);
}

#[test]
fn strip_quotes_takes_every_quote_out() {
    assert_eq!(strip_quotes("\"left-pad\""), "left-pad");
    assert_eq!(strip_quotes("a\"b\"\"c"), "abc");
    assert_eq!(strip_quotes("plain"), "plain");
    assert_eq!(strip_quotes("\"\""), "");
    assert_eq!(strip_quotes(""), "");
    assert_eq!(strip_quotes("\u{e9}\"\u{4e2d}"), "\u{e9}\u{4e2d}");
}
