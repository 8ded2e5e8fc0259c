use cromulent::json::Json;
use cromulent::tools::error::ToolError;
use cromulent::tools::replace::{edit_args, edit_report, text_edits};

fn s(x: &str) -> Json {
    Json::Str(x.to_string())
}

fn obj(members: Vec<(&str, Json)>) -> Json {
    Json::Object(members.into_iter().map(|(k, v)| (k.to_string(), v)).collect())
}

fn edit(old: &str, new: &str) -> Json {
    obj(vec![("oldText", s(old)), ("newText", s(new))])
}

#[test]
fn single_edit_replaces_its_occurrence() {
    let edits = vec![edit("world", "there")];
    assert_eq!(text_edits("hello world\n", &edits).unwrap(), "hello there\n");
}

#[test]
fn edits_are_matched_against_the_unedited_text() {
    // The second edit names text that the first one writes; it is not found.
    let edits = vec![edit("a", "b"), edit("b", "c")];
    match text_edits("a x", &edits) {
        Err(ToolError::EditFailed(m)) => assert_eq!(m, "edits[1]: oldText \"b\" not found in file"),
        other => panic!("unexpected {:?}", other),
    }
    let forward = vec![edit("one", "1"), edit("three", "3")];
    let backward = vec![edit("three", "3"), edit("one", "1")];
    let text = "one two three";
    assert_eq!(text_edits(text, &forward).unwrap(), "1 two 3");
    assert_eq!(text_edits(text, &backward).unwrap(), "1 two 3");
}

#[test]
fn edit_errors() {
    match text_edits("aa", &vec![edit("a", "b")]) {
        Err(ToolError::EditFailed(m)) => assert_eq!(m, "edits[0]: oldText \"a\" found 2 times (must be unique)"),
        other => panic!("unexpected {:?}", other),
    }
    match text_edits("abc", &vec![obj(vec![("newText", s("x"))])]) {
        Err(ToolError::InvalidArguments(m)) => assert_eq!(m, "edits[0]: missing 'oldText'"),
        other => panic!("unexpected {:?}", other),
    }
    match text_edits("abc", &vec![obj(vec![("oldText", s("a"))])]) {
        Err(ToolError::InvalidArguments(m)) => assert_eq!(m, "edits[0]: missing 'newText'"),
        other => panic!("unexpected {:?}", other),
    }
    match text_edits("héllo world", &vec![edit("llo w", "X"), edit("o wo", "Y")]) {
        Err(ToolError::EditFailed(m)) => {
            assert_eq!(m, "Edits overlap: oldText \"llo w\" (bytes 3-8) and oldText \"o wo\" (bytes 5-9)")
        }
        other => panic!("unexpected {:?}", other),
    }
}

#[test]
fn multibyte_text_edits() {
    let edits = vec![edit("é", "e"), edit("ü", "u")];
    assert_eq!(text_edits("café über", &edits).unwrap(), "cafe uber");
}

#[test]
fn empty_old_text_is_refused() {
    match text_edits("abc", &vec![edit("", "x")]) {
        Err(ToolError::EditFailed(m)) => assert_eq!(m, "edits[0]: oldText must not be empty"),
        other => panic!("unexpected {:?}", other),
    }
    match text_edits("abc", &vec![edit("b", "x"), edit("", "y")]) {
        Err(ToolError::EditFailed(m)) => assert_eq!(m, "edits[1]: oldText must not be empty"),
        other => panic!("unexpected {:?}", other),
    }
    assert!(matches!(text_edits("abc", &vec![edit("zz", "x"), edit("", "x")]), Err(ToolError::EditFailed(ref m)) if m.contains("not found")));
}

#[test]
fn edit_arguments_and_report() {
    let a = obj(vec![("path", s("f.txt")), ("edits", Json::Array(vec![edit("a", "b")]))]);
    let (p, v) = edit_args(&a).unwrap();
    assert_eq!(p, "f.txt");
    assert_eq!(v.len(), 1);
    match edit_args(&obj(vec![("edits", Json::Array(vec![]))])) {
        Err(ToolError::InvalidArguments(m)) => assert_eq!(m, "Missing required 'path' argument"),
        other => panic!("unexpected {:?}", other),
    }
    match edit_args(&obj(vec![("path", s("f"))])) {
        Err(ToolError::InvalidArguments(m)) => assert_eq!(m, "Missing or invalid 'edits' array"),
        other => panic!("unexpected {:?}", other),
    }
    match edit_args(&obj(vec![("path", s("f")), ("edits", Json::Array(vec![]))])) {
        Err(ToolError::InvalidArguments(m)) => assert_eq!(m, "'edits' array must not be empty"),
        other => panic!("unexpected {:?}", other),
    }
    assert_eq!(edit_report(2, "/tmp/f.txt"), "Applied 2 edit(s) to '/tmp/f.txt'");
}
