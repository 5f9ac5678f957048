use termproof::pyschema::{best_index, descend_choice, dotted_path, path_parts, ErrorRank, PathPart};

fn rank(pointer: &str, weak: bool) -> ErrorRank {
    ErrorRank { path: path_parts(pointer), weak }
}

#[test]
fn pointers_read_as_dotted_paths() {
    assert_eq!(dotted_path("/a/0/b~1c~0d"), "a.0.b/c~d");
    assert_eq!(dotted_path(""), "");
    assert_eq!(dotted_path("/items/11"), "items.11");
    assert_eq!(dotted_path("/~01"), "~1");
}

#[test]
fn numeric_tokens_are_indices() {
    assert_eq!(
        path_parts("/items/3/+4/x/18446744073709551616"),
        vec![
            PathPart::Property("items".to_string()),
            PathPart::Index(3),
            PathPart::Index(4),
            PathPart::Property("x".to_string()),
            PathPart::Property("18446744073709551616".to_string()),
        ]
    );
    assert_eq!(path_parts(""), Vec::<PathPart>::new());
}

#[test]
fn the_shallowest_error_wins() {
    let errors = vec![rank("/a/b", false), rank("/a", false), rank("/c", false)];
    assert_eq!(best_index(&errors), Some(2));
    assert_eq!(best_index(&[]), None);
}

#[test]
fn a_weak_error_ranks_below_its_sibling() {
    let errors = vec![rank("/a", false), rank("/a", true)];
    assert_eq!(best_index(&errors), Some(0));
    let errors = vec![rank("/a", true), rank("/a", false)];
    assert_eq!(best_index(&errors), Some(1));
}

#[test]
fn equals_keep_their_place() {
    let errors = vec![rank("/a", false), rank("/a", false)];
    assert_eq!(best_index(&errors), Some(0));
}

#[test]
fn an_index_sorts_before_a_property() {
    let errors = vec![rank("/x", false), rank("/0", false)];
    assert_eq!(best_index(&errors), Some(0));
    assert_eq!(descend_choice(&errors), Some(1));
}

#[test]
fn descent_stops_where_the_two_lowest_tie() {
    assert_eq!(descend_choice(&[rank("/a/b", false), rank("/a/b", false), rank("/c", false)]), None);
    assert_eq!(descend_choice(&[rank("/a/b", false), rank("/c", false)]), Some(0));
    assert_eq!(descend_choice(&[]), None);
}
