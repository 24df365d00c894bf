use shortlink::{find_shortlink, split_segments, Config, ShortlinkEntry, ShortlinkMap};

fn link(t: &str) -> ShortlinkEntry {
    ShortlinkEntry::Link(t.to_string())
}

fn map_of(pairs: Vec<(&str, ShortlinkEntry)>) -> ShortlinkMap {
    let mut m = ShortlinkMap::new();
    for (k, e) in pairs {
        m.insert(k.to_string(), e);
    }
    m
}

fn chars(s: &str) -> Vec<char> {
    s.chars().collect()
}

fn team_map() -> ShortlinkMap {
    map_of(vec![(
        "team",
        ShortlinkEntry::Nested(map_of(vec![
            ("$root", link("https://example.com/team")),
            ("bob", link("https://example.com/bob")),
        ])),
    )])
}

fn abc_map() -> ShortlinkMap {
    map_of(vec![(
        "a",
        ShortlinkEntry::Nested(map_of(vec![(
            "b",
            ShortlinkEntry::Nested(map_of(vec![("c", link("https://x"))])),
        )])),
    )])
}

#[test]
fn single_link() {
    let m = map_of(vec![("docs", link("https://example.com/docs"))]);
    assert_eq!(find_shortlink("docs", &m), Some("https://example.com/docs"));
}

#[test]
fn namespace_root_and_children() {
    let m = team_map();
    assert_eq!(find_shortlink("team", &m), Some("https://example.com/team"));
    assert_eq!(find_shortlink("team/bob", &m), Some("https://example.com/bob"));
    assert_eq!(find_shortlink("team/carl", &m), None);
}

#[test]
fn deep_nesting() {
    let m = abc_map();
    assert_eq!(find_shortlink("a/b/c", &m), Some("https://x"));
    assert_eq!(find_shortlink("a/b", &m), None);
    assert_eq!(find_shortlink("a/b/c/d", &m), None);
}

#[test]
fn empty_path_and_empty_segment() {
    let m = abc_map();
    assert_eq!(find_shortlink("", &m), None);
    assert_eq!(find_shortlink("a//b", &m), None);
    let with_empty = map_of(vec![(
        "a",
        ShortlinkEntry::Nested(map_of(vec![(
            "",
            ShortlinkEntry::Nested(map_of(vec![("b", link("https://empty"))])),
        )])),
    )]);
    assert_eq!(find_shortlink("a//b", &with_empty), Some("https://empty"));
    let top_empty = map_of(vec![("", link("https://top"))]);
    assert_eq!(find_shortlink("", &top_empty), Some("https://top"));
}

#[test]
fn absent_first_segment() {
    let m = team_map();
    assert_eq!(find_shortlink("nobody", &m), None);
    assert_eq!(find_shortlink("nobody/bob", &m), None);
    assert_eq!(find_shortlink("Team", &m), None);
    assert_eq!(find_shortlink("/team", &m), None);
}

#[test]
fn segments_past_link() {
    let m = map_of(vec![("a", link("https://x"))]);
    assert_eq!(find_shortlink("a/b", &m), None);
    assert_eq!(find_shortlink("a/", &m), None);
}

#[test]
fn depth_one_two_three() {
    let m = map_of(vec![
        ("one", link("https://1")),
        (
            "two",
            ShortlinkEntry::Nested(map_of(vec![("x", link("https://2"))])),
        ),
        (
            "three",
            ShortlinkEntry::Nested(map_of(vec![(
                "x",
                ShortlinkEntry::Nested(map_of(vec![("y", link("https://3"))])),
            )])),
        ),
    ]);
    assert_eq!(find_shortlink("one", &m), Some("https://1"));
    assert_eq!(find_shortlink("two/x", &m), Some("https://2"));
    assert_eq!(find_shortlink("three/x/y", &m), Some("https://3"));
}

#[test]
fn root_key_absent_or_nested() {
    let m = map_of(vec![
        (
            "plain",
            ShortlinkEntry::Nested(map_of(vec![("k", link("https://k"))])),
        ),
        (
            "deep",
            ShortlinkEntry::Nested(map_of(vec![(
                "$root",
                ShortlinkEntry::Nested(map_of(vec![("$root", link("https://no"))])),
            )])),
        ),
    ]);
    assert_eq!(find_shortlink("plain", &m), None);
    assert_eq!(find_shortlink("deep", &m), None);
}

#[test]
fn root_key_as_ordinary_top_level_key() {
    let m = map_of(vec![("$root", link("https://top-root"))]);
    assert_eq!(find_shortlink("$root", &m), Some("https://top-root"));
}

#[test]
fn explicit_root_segment_in_namespace() {
    let m = team_map();
    assert_eq!(find_shortlink("team/$root", &m), Some("https://example.com/team"));
}

#[test]
fn repeated_calls_agree() {
    let m = team_map();
    let first = find_shortlink("team/bob", &m);
    let second = find_shortlink("team/bob", &m);
    assert_eq!(first, second);
    assert_eq!(find_shortlink("team/carl", &m), find_shortlink("team/carl", &m));
}

#[test]
fn split_keeps_empty_segments() {
    assert_eq!(split_segments(""), vec![chars("")]);
    assert_eq!(split_segments("abc"), vec![chars("abc")]);
    assert_eq!(
        split_segments("a//b/"),
        vec![chars("a"), chars(""), chars("b"), chars("")]
    );
    assert_eq!(split_segments("/"), vec![chars(""), chars("")]);
    assert_eq!(split_segments("é/ü"), vec![chars("é"), chars("ü")]);
}

#[test]
fn insert_replaces_and_get_finds() {
    let mut m = ShortlinkMap::new();
    assert!(m.get(&chars("k")).is_none());
    assert!(m.insert("k".to_string(), link("https://one")).is_none());
    assert!(m.insert("j".to_string(), link("https://j")).is_none());
    let previous = m.insert("k".to_string(), link("https://two"));
    assert!(matches!(previous, Some(ShortlinkEntry::Link(ref t)) if t == "https://one"));
    assert_eq!(m.entries.len(), 2);
    assert!(matches!(m.get(&chars("k")), Some(ShortlinkEntry::Link(t)) if t == "https://two"));
    assert!(matches!(m.get(&chars("j")), Some(ShortlinkEntry::Link(t)) if t == "https://j"));
    assert!(m.get(&chars("kk")).is_none());
    assert!(m.get(&chars("")).is_none());
}

#[test]
fn config_response() {
    let config = Config {
        bind: vec!["127.0.0.1:8080".to_string()],
        not_found_message: "<h1>not found</h1>".to_string(),
        links: team_map(),
    };
    assert_eq!(config.response("team/bob"), Ok("https://example.com/bob"));
    assert_eq!(config.response("team/carl"), Err("<h1>not found</h1>"));
}
