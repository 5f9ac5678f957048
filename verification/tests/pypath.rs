use termproof::pypath::PyPath;

fn rendered(path: &str) -> String {
    PyPath::parse(path).to_string()
}

fn joined(base: &str, other: &str) -> String {
    PyPath::parse(base).join(&PyPath::parse(other)).to_string()
}

#[test]
fn parsing_drops_dot_segments_and_duplicate_separators() {
    assert_eq!(rendered("./a"), "a");
    assert_eq!(rendered("a//b"), "a/b");
    assert_eq!(rendered("a/./b"), "a/b");
    assert_eq!(rendered("/tmp//fx/"), "/tmp/fx");
}

#[test]
fn dotdot_is_never_collapsed() {
    assert_eq!(rendered("sub/../a"), "sub/../a");
    assert_eq!(joined("/tmp/fx", "sub/../a"), "/tmp/fx/sub/../a");
    assert_eq!(joined("/tmp/fx", ".."), "/tmp/fx/..");
}

#[test]
fn there_is_no_empty_path() {
    assert_eq!(rendered(""), ".");
    assert_eq!(rendered("/"), "/");
    assert_eq!(joined("/tmp/fx", ""), "/tmp/fx");
    assert_eq!(joined("", ""), ".");
    assert_eq!(joined(".", "a.txt"), "a.txt");
}

#[test]
fn an_absolute_other_wins() {
    assert_eq!(joined("/tmp/fx", "/etc/passwd"), "/etc/passwd");
    assert_eq!(joined("relative", "/etc"), "/etc");
}

#[test]
fn a_relative_base_stays_relative() {
    assert_eq!(joined("work", "a.txt"), "work/a.txt");
    assert!(!PyPath::parse("work").is_absolute());
    assert!(PyPath::parse("/work").is_absolute());
}

#[test]
fn joining_is_associative() {
    let a = PyPath::parse("/a");
    let b = PyPath::parse("b/c");
    let c = PyPath::parse("d");
    assert_eq!(a.join(&b).join(&c), a.join(&b.join(&c)));
    assert_eq!(a.join(&b).join(&c).to_string(), "/a/b/c/d");
}
