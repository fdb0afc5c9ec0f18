use reshape::path::parse_path;

fn strings(v: Vec<&str>) -> Vec<String> {
    v.into_iter().map(|x| x.to_string()).collect()
}

#[test]
fn parse_path_splits_on_dots() {
    assert_eq!(parse_path("a.b"), strings(vec!["a", "b"]));
    assert_eq!(parse_path("a.b.c"), strings(vec!["a", "b", "c"]));
}

#[test]
fn parse_path_without_a_dot_is_one_segment() {
    assert_eq!(parse_path("abc"), strings(vec!["abc"]));
}

#[test]
fn parse_path_keeps_empty_segments() {
    assert_eq!(parse_path(""), strings(vec![""]));
    assert_eq!(parse_path("a."), strings(vec!["a", ""]));
    assert_eq!(parse_path(".a"), strings(vec!["", "a"]));
    assert_eq!(parse_path("a..b"), strings(vec!["a", "", "b"]));
}
