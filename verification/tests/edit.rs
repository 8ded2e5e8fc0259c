use cromulent::json::Json;
use cromulent::tools::error::ToolError;
use cromulent::tools::hashline::edit::{hashline_args, parse_ops};
use cromulent::tools::hashline::hash::compute_line_hash;
use cromulent::tools::hashline::plan::plan_hashline_edit;

fn s(x: &str) -> Json {
    Json::Str(x.to_string())
}

fn obj(members: Vec<(&str, Json)>) -> Json {
    Json::Object(members.into_iter().map(|(k, v)| (k.to_string(), v)).collect())
}

fn anchor(line: usize, text: &str) -> String {
    format!("{}#{}", line, compute_line_hash(line, text))
}

fn edit_failed(e: ToolError) -> String {
    match e {
        ToolError::EditFailed(m) => m,
        other => panic!("expected an edit failure, got {:?}", other),
    }
}

fn invalid(e: ToolError) -> String {
    match e {
        ToolError::InvalidArguments(m) => m,
        other => panic!("expected invalid arguments, got {:?}", other),
    }
}

#[test]
fn replace_one_line() {
    let content = "a\nb\nc\n";
    let ops = parse_ops(&vec![obj(vec![
        ("op", s("replace")),
        ("pos", s(&anchor(2, "b"))),
        ("lines", Json::Array(vec![s("x")])),
    ])])
    .unwrap();
    let out = plan_hashline_edit("/w/f.txt", content, "localized", &ops).unwrap();
    assert!(out.applied);
    assert_eq!(out.new_content, "a\nx\nc\n");
    assert_eq!(out.changed, Some((2, 2)));
    assert_eq!(out.lines_added, 0);
    assert_eq!(out.diff_preview, "- 2#XH:b\n+ 2#YT:x");
    assert_eq!(out.anchors_start, Some(1));
    assert_eq!(out.anchors_end, Some(3));
    assert_eq!(
        out.text,
        "Applied 1 edit(s) to /w/f.txt.\n\nDiff preview:\n- 2#XH:b\n+ 2#YT:x\n\n--- Updated anchors 1-3 ---\n1#RW:a\n2#YT:x\n3#PX:c"
    );
}

#[test]
fn delete_a_line_with_empty_payload() {
    let ops = parse_ops(&vec![obj(vec![("op", s("replace")), ("pos", s(&anchor(2, "b"))), ("lines", Json::Null)])]).unwrap();
    let out = plan_hashline_edit("f", "a\nb\nc\n", "localized", &ops).unwrap();
    assert_eq!(out.new_content, "a\nc\n");
    assert_eq!(out.lines_added, -1);
}

#[test]
fn append_and_prepend() {
    let ops = parse_ops(&vec![
        obj(vec![("op", s("append")), ("pos", s(&anchor(1, "a"))), ("lines", s("mid"))]),
        obj(vec![("op", s("prepend")), ("lines", s("top"))]),
        obj(vec![("op", s("append")), ("lines", s("end"))]),
    ])
    .unwrap();
    let out = plan_hashline_edit("f", "a\nb\n", "localized", &ops).unwrap();
    assert_eq!(out.new_content, "top\na\nmid\nb\nend\n");
    assert_eq!(out.lines_added, 3);
}

#[test]
fn replace_text_unique_match() {
    let ops = parse_ops(&vec![obj(vec![("op", s("replace_text")), ("oldText", s("b\r\n")), ("newText", s("B\n"))])]).unwrap();
    let out = plan_hashline_edit("f", "a\nb\nc\n", "localized", &ops).unwrap();
    assert_eq!(out.new_content, "a\nB\nc\n");
}

#[test]
fn replace_text_errors() {
    let none = parse_ops(&vec![obj(vec![("op", s("replace_text")), ("oldText", s("zz")), ("newText", s("y"))])]).unwrap();
    assert_eq!(
        edit_failed(plan_hashline_edit("f", "a\nb\n", "localized", &none).unwrap_err()),
        "[E_NO_MATCH] replace_text found no exact unique match in the current file."
    );
    let many = parse_ops(&vec![obj(vec![("op", s("replace_text")), ("oldText", s("a")), ("newText", s("y"))])]).unwrap();
    assert_eq!(
        edit_failed(plan_hashline_edit("f", "a\na\n", "localized", &many).unwrap_err()),
        "[E_MULTI_MATCH] replace_text found multiple exact matches in the current file. Re-read and use hashline edits."
    );
    let empty = parse_ops(&vec![obj(vec![("op", s("replace_text")), ("oldText", s("")), ("newText", s("y"))])]).unwrap();
    assert_eq!(
        invalid(plan_hashline_edit("f", "a\n", "localized", &empty).unwrap_err()),
        "[E_BAD_OP] replace_text requires non-empty oldText."
    );
}

#[test]
fn stale_anchor_report() {
    let ops = parse_ops(&vec![obj(vec![("op", s("replace")), ("pos", s("2#ZZ")), ("lines", s("x"))])]).unwrap();
    let e = edit_failed(plan_hashline_edit("f", "a\nb\nc\nd\ne\n", "localized", &ops).unwrap_err());
    let expected = format!(
        "[E_STALE_ANCHOR] 1 stale anchor(s). Retry with the >>> LINE#HASH lines below; keep both endpoints for range replaces.\n\n    1#{}:a\n>>> 2#{}:b\n    3#{}:c\n    4#{}:d",
        compute_line_hash(1, "a"),
        compute_line_hash(2, "b"),
        compute_line_hash(3, "c"),
        compute_line_hash(4, "d")
    );
    assert_eq!(e, expected);
}

#[test]
fn anchor_out_of_range() {
    let ops = parse_ops(&vec![obj(vec![("op", s("replace")), ("pos", s("9#ZZ")), ("lines", s("x"))])]).unwrap();
    assert_eq!(
        edit_failed(plan_hashline_edit("f", "a\n", "localized", &ops).unwrap_err()),
        "[E_RANGE_OOB] Line 9 does not exist (file has 1 lines)"
    );
}

#[test]
fn range_order_is_checked() {
    let ops = parse_ops(&vec![obj(vec![
        ("op", s("replace")),
        ("pos", s(&anchor(2, "b"))),
        ("end", s(&anchor(1, "a"))),
        ("lines", s("x")),
    ])])
    .unwrap();
    assert_eq!(
        invalid(plan_hashline_edit("f", "a\nb\n", "localized", &ops).unwrap_err()),
        "[E_BAD_OP] Range start line 2 must be <= end line 1"
    );
}

#[test]
fn overlapping_edits_are_refused() {
    let ops = parse_ops(&vec![
        obj(vec![("op", s("replace")), ("pos", s(&anchor(1, "a"))), ("end", s(&anchor(2, "b"))), ("lines", s("x"))]),
        obj(vec![("op", s("replace")), ("pos", s(&anchor(2, "b"))), ("lines", s("y"))]),
    ])
    .unwrap();
    assert_eq!(
        edit_failed(plan_hashline_edit("f", "a\nb\nc\n", "localized", &ops).unwrap_err()),
        "[E_OVERLAP] Edits overlap or target the same insertion boundary; merge them into one edit."
    );
}

#[test]
fn no_operations_is_a_noop() {
    let ops = parse_ops(&vec![]).unwrap();
    let out = plan_hashline_edit("/w/f", "a\n", "localized", &ops).unwrap();
    assert!(!out.applied);
    assert_eq!(out.text, "No changes needed for /w/f.");
    assert_eq!(out.new_content, "a\n");
    assert_eq!(out.old_hash, out.new_hash);
}

#[test]
fn protected_and_generated_files() {
    let ops = parse_ops(&vec![obj(vec![("op", s("append")), ("lines", s("x"))])]).unwrap();
    assert_eq!(
        edit_failed(plan_hashline_edit("/repo/target/x.rs", "a\n", "localized", &ops).unwrap_err()),
        "[E_PROTECTED_PATH] Refusing to edit protected/generated path /repo/target/x.rs without broad_refactor scope/user approval."
    );
    assert_eq!(
        edit_failed(plan_hashline_edit("/repo/x.rs", "// Code generated by tool\na\n", "localized", &ops).unwrap_err()),
        "[E_GENERATED_FILE] File appears generated. Ask user before editing or use broad_refactor scope."
    );
    assert!(plan_hashline_edit("/repo/target/x.rs", "a\n", "broad_refactor", &ops).is_ok());
}

#[test]
fn large_edits_need_broad_scope() {
    let content: String = (0..20).map(|i| format!("l{}\n", i)).collect();
    let lines: Vec<Json> = (0..200).map(|i| s(&format!("n{}", i))).collect();
    let ops = parse_ops(&vec![obj(vec![("op", s("append")), ("lines", Json::Array(lines))])]).unwrap();
    assert_eq!(
        edit_failed(plan_hashline_edit("f", &content, "localized", &ops).unwrap_err()),
        "[E_EDIT_TOO_LARGE] Edit is too large for localized scope. Make a smaller edit or ask user for broad_refactor approval."
    );
    assert!(plan_hashline_edit("f", &content, "broad_refactor", &ops).is_ok());
}

#[test]
fn malformed_operations() {
    assert_eq!(invalid(parse_ops(&vec![obj(vec![])]).unwrap_err()), "edits[0]: missing op");
    assert_eq!(
        invalid(parse_ops(&vec![obj(vec![("op", s("replace"))])]).unwrap_err()),
        "[E_BAD_OP] edits[0]: replace requires pos"
    );
    assert_eq!(
        invalid(parse_ops(&vec![obj(vec![("op", s("append")), ("end", s("1#ZZ")), ("lines", s("x"))])]).unwrap_err()),
        "[E_BAD_OP] append does not support end"
    );
    assert_eq!(
        invalid(parse_ops(&vec![obj(vec![("op", s("prepend"))])]).unwrap_err()),
        "[E_BAD_OP] Prepend with empty lines payload."
    );
    assert_eq!(
        invalid(parse_ops(&vec![obj(vec![("op", s("replace_text")), ("newText", s("x"))])]).unwrap_err()),
        "[E_BAD_OP] replace_text requires oldText"
    );
    assert_eq!(
        invalid(parse_ops(&vec![obj(vec![("op", s("move"))])]).unwrap_err()),
        "[E_BAD_OP] Unknown edit op \"move\"."
    );
}

#[test]
fn hashline_arguments() {
    let a = Json::Object(vec![
        ("path".to_string(), Json::Str("f.rs".to_string())),
        ("edits".to_string(), Json::Array(vec![Json::Null])),
    ]);
    let (p, scope, edits) = hashline_args(&a).unwrap();
    assert_eq!((p.as_str(), scope.as_str(), edits.len()), ("f.rs", "localized", 1));
    let b = Json::Object(vec![
        ("path".to_string(), Json::Str("f.rs".to_string())),
        ("scope".to_string(), Json::Str("test".to_string())),
        ("edits".to_string(), Json::Array(vec![])),
    ]);
    match hashline_args(&b) {
        Err(ToolError::InvalidArguments(m)) => assert_eq!(m, "'edits' array must not be empty"),
        other => panic!("unexpected {:?}", other),
    }
}
