use tunproxy::domain::DomainMap;

fn map_of(names: &[&str]) -> DomainMap {
    let mut map = DomainMap::new();
    for name in names {
        map.add_domain(name);
    }
    map
}

#[test]
fn empty_map_contains_nothing() {
    let map = DomainMap::new();
    assert!(!map.contains("www.youtube.com"));
    assert!(!map.contains(""));
    assert!(!map.contains("youtube"));
}

#[test]
fn listed_name_found_under_top_label() {
    let map = map_of(&["youtube"]);
    assert!(map.contains("youtube.com"));
    assert!(map.contains("www.youtube.com"));
    assert!(map.contains("a.b.youtube.com"));
}

#[test]
fn top_label_never_takes_part() {
    let map = map_of(&["youtube.com", "com"]);
    assert!(!map.contains("www.youtube.com"));
    assert!(!map.contains("youtube.com"));
    assert!(!map.contains("com"));
}

#[test]
fn longer_runs_are_candidates_too() {
    let map = map_of(&["www.youtube"]);
    assert!(map.contains("www.youtube.com"));
    assert!(!map.contains("m.youtube.com"));
    assert!(map.contains("x.www.youtube.com"));
}

#[test]
fn trailing_dot_gives_same_answer() {
    let map = map_of(&["youtube"]);
    assert_eq!(map.contains("www.youtube.com."), map.contains("www.youtube.com"));
    assert!(map.contains("www.youtube.com."));
    assert!(!map.contains("www.google.com."));
    assert!(!map.contains("."));
}

#[test]
fn subdomain_of_found_name_is_found() {
    let map = map_of(&["google"]);
    assert!(map.contains("mail.google.com"));
    assert!(map.contains("x.mail.google.com"));
    assert!(map.contains("y.x.mail.google.com"));
}

#[test]
fn adding_names_keeps_earlier_matches() {
    let mut map = map_of(&["google"]);
    assert!(map.contains("mail.google.com"));
    map.add_domain("youtube");
    assert!(map.contains("mail.google.com"));
    assert!(map.contains("m.youtube.com"));
}

#[test]
fn single_label_has_no_candidates() {
    let map = map_of(&["localhost", ""]);
    assert!(!map.contains("localhost"));
    assert!(!map.contains("localhost."));
}

#[test]
fn empty_labels_are_kept() {
    let map = map_of(&[""]);
    assert!(map.contains("a..b"));
    assert!(!map.contains("a.b"));
    let map = map_of(&["a."]);
    assert!(map.contains("a..b"));
}

#[test]
fn non_ascii_names() {
    let map = map_of(&["bücher"]);
    assert!(map.contains("www.bücher.de"));
    assert!(!map.contains("www.bucher.de"));
}

#[test]
fn names_are_compared_exactly() {
    let map = map_of(&["YouTube"]);
    assert!(!map.contains("www.youtube.com"));
    assert!(map.contains("www.YouTube.com"));
}

#[test]
fn any_prefix_keeps_a_match() {
    let map = map_of(&["google"]);
    assert!(map.contains("mail.google.com"));
    assert!(map.contains("a.b.c.mail.google.com"));
    assert!(map.contains("..mail.google.com"));
}
