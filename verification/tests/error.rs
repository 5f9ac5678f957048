use termproof::error::CoreError;

#[test]
fn each_error_says_what_and_where() {
    let e = CoreError::Io { path: "a.yaml".to_string(), message: "No such file".to_string() };
    assert_eq!(e.message(), "I/O error reading a.yaml: No such file");
    let e = CoreError::Parse { path: "b.json".to_string(), message: "EOF".to_string() };
    assert_eq!(e.message(), "parse error at b.json: EOF");
    let e = CoreError::Validation { count: 3 };
    assert_eq!(e.message(), "validation failed with 3 error(s)");
    let e = CoreError::InvalidConfig { field: "config".to_string(), message: "bad".to_string() };
    assert_eq!(e.message(), "invalid config value for config: bad");
}
