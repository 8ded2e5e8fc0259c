use cromulent::json::{Json, JsonNumber};
use cromulent::protocol::AskUserResponse;
use cromulent::tools::ask::{answer_text, ask_request};
use cromulent::tools::error::ToolError;
use cromulent::tools::files::{classify_bytes, edit_text, read_args, read_text, write_args, write_report, LoadedFile};
use cromulent::tools::search::{
    build_glob_regex, build_glob_set, escape_regex, find_args, glob_filter, glob_filter_matches, grep_args, grep_pattern,
    match_blocks, truncate_line, FindCollector, GrepCollector,
};
use cromulent::tools::shell::{bash_args, bash_report, spawn_failure, BashResult, BashRunner};

fn s(x: &str) -> Json {
    Json::Str(x.to_string())
}

fn num(n: i64) -> Json {
    Json::Number(JsonNumber { as_i64: Some(n), as_u64: if n >= 0 { Some(n as u64) } else { None } })
}

fn obj(members: Vec<(&str, Json)>) -> Json {
    Json::Object(members.into_iter().map(|(k, v)| (k.to_string(), v)).collect())
}

#[test]
fn classifies_file_bytes() {
    assert!(matches!(classify_bytes(vec![0x89, b'P', b'N', b'G', 1]), LoadedFile::Image(ref m) if m == "image/png"));
    assert!(matches!(classify_bytes(b"GIF89a..".to_vec()), LoadedFile::Image(ref m) if m == "image/gif"));
    assert!(matches!(classify_bytes(b"RIFF0000WEBPxx".to_vec()), LoadedFile::Image(ref m) if m == "image/webp"));
    assert!(matches!(classify_bytes(vec![b'a', 0, b'b']), LoadedFile::Binary(ref d) if d == "null bytes detected"));
    assert!(matches!(classify_bytes(vec![0xc3, 0x28]), LoadedFile::Binary(ref d) if d == "invalid UTF-8"));
    assert!(matches!(classify_bytes("\u{feff}a\r\nb\rc".as_bytes().to_vec()), LoadedFile::Text(ref t) if t == "a\nb\nc"));
}

#[test]
fn read_arguments() {
    let (p, o, l) = read_args(&obj(vec![("path", s("x.rs")), ("limit", num(5))])).unwrap();
    assert_eq!((p.as_str(), o, l), ("x.rs", 1, Some(5)));
    match read_args(&obj(vec![("path", s("x")), ("offset", num(0))])) {
        Err(ToolError::InvalidArguments(m)) => assert_eq!(m, "Read request field \"offset\" must be a positive integer."),
        other => panic!("unexpected {:?}", other),
    }
    match read_args(&obj(vec![("path", s("x")), ("limit", num(-1))])) {
        Err(ToolError::InvalidArguments(m)) => assert_eq!(m, "Read request field \"limit\" must be a positive integer."),
        other => panic!("unexpected {:?}", other),
    }
    assert!(matches!(read_args(&obj(vec![])), Err(ToolError::InvalidArguments(_))));
}

#[test]
fn read_and_edit_refusals() {
    match read_text("d", LoadedFile::Directory) {
        Err(ToolError::EditFailed(m)) => assert_eq!(m, "[E_DIRECTORY] Path is a directory: d. Use find/ls-style tools to inspect directories."),
        other => panic!("unexpected {:?}", other),
    }
    match edit_text("f", LoadedFile::Binary("invalid UTF-8".to_string())) {
        Err(ToolError::EditFailed(m)) => assert_eq!(m, "[E_BINARY_FILE] Path is a binary file: f (invalid UTF-8)"),
        other => panic!("unexpected {:?}", other),
    }
    assert_eq!(read_text("f", LoadedFile::Text("t".to_string())).unwrap(), "t");
}

#[test]
fn write_arguments_and_report() {
    let (p, c) = write_args(&obj(vec![("path", s("a.txt")), ("content", s("hi"))])).unwrap();
    assert_eq!((p.as_str(), c.as_str()), ("a.txt", "hi"));
    match write_args(&obj(vec![("path", s("a"))])) {
        Err(ToolError::InvalidArguments(m)) => assert_eq!(m, "Missing required 'content' argument"),
        other => panic!("unexpected {:?}", other),
    }
    assert_eq!(write_report(2, "/w/a.txt"), "Wrote 2 bytes to '/w/a.txt'");
}

#[test]
fn bash_tool_report() {
    let (c, t) = bash_args(&obj(vec![("command", s("ls")), ("timeout", num(3))])).unwrap();
    assert_eq!((c.as_str(), t), ("ls", Some(3)));
    let r = BashResult { exit_code: 0, stdout: "  out \n".to_string(), stderr: String::new(), cancelled: false, timed_out: false };
    let (text, is_error, o, e) = bash_report(&r, None).unwrap();
    assert_eq!(text, "STDOUT:\nout\nExit code: 0");
    assert!(!is_error);
    assert_eq!((o.as_str(), e.as_str()), ("out", ""));
    let t = BashResult { exit_code: -1, stdout: String::new(), stderr: String::new(), cancelled: false, timed_out: true };
    let (text2, err2, _, _) = bash_report(&t, Some(5)).unwrap();
    assert_eq!(text2, "Command timed out after 5s.\nExit code: -1");
    assert!(err2);
    let quiet = BashResult { exit_code: 2, stdout: String::new(), stderr: String::new(), cancelled: false, timed_out: false };
    assert_eq!(bash_report(&quiet, None).unwrap().0, "(no output)\nExit code: 2");
    let cancelled = BashResult { exit_code: -1, stdout: String::new(), stderr: String::new(), cancelled: true, timed_out: false };
    assert!(bash_report(&cancelled, None).is_none());
    assert_eq!(spawn_failure("no sh").stderr, "Failed to execute: no sh");
    let mut runner = BashRunner::new("/a".to_string());
    runner.set_cwd("/b".to_string());
    assert_eq!(runner.cwd(), "/b");
}

#[test]
fn ask_user_arguments_and_answers() {
    let args = obj(vec![
        ("question", s("Which?")),
        ("options", Json::Array(vec![obj(vec![("title", s("A"))]), obj(vec![("description", s("no title"))]), obj(vec![("title", s("B")), ("description", s("bee"))])])),
        ("allowMultiple", Json::Bool(true)),
    ]);
    let q = ask_request(&args).unwrap();
    assert_eq!(q.question, "Which?");
    assert_eq!(q.options.len(), 2);
    assert_eq!(q.options[1].description.as_deref(), Some("bee"));
    assert!(q.allow_multiple);
    assert!(q.allow_freeform);
    assert!(!q.allow_comment);
    assert!(ask_request(&obj(vec![])).is_err());
    let a = AskUserResponse { selected: vec!["A".to_string(), "B".to_string()], freeform: Some(String::new()), comment: Some("ok".to_string()) };
    assert_eq!(answer_text(&a), "Selected: A, B\nComment: ok");
    let none = AskUserResponse { selected: vec![], freeform: None, comment: None };
    assert_eq!(answer_text(&none), "User provided no response.");
}

#[test]
fn truncates_at_char_boundary() {
    assert_eq!(truncate_line("hello", 10), "hello");
    assert_eq!(truncate_line("hello", 5), "hello");
    assert_eq!(truncate_line("hello", 3), "hel...");
    assert_eq!(truncate_line("héllo", 2), "hé...");
    assert_eq!(truncate_line("ab", 1), "a...");
}

#[test]
fn glob_to_regex() {
    assert_eq!(build_glob_regex("src/**/*.rs"), "^src/.*[^/]*\\.rs$");
    assert_eq!(build_glob_regex("a?(b)"), "^a.\\(b\\)$");
    let f = glob_filter("*.rs").unwrap();
    assert!(glob_filter_matches(&f, "main.rs"));
    assert!(!glob_filter_matches(&f, "src/main.rs"));
    assert_eq!(escape_regex("a.b*").iter().collect::<String>(), "a\\.b\\*");
}

#[test]
fn grep_arguments_and_blocks() {
    let g = grep_args(&obj(vec![("pattern", s("fo+")), ("context", num(-3)), ("limit", num(0))])).unwrap();
    assert_eq!(g.context, 0);
    assert_eq!(g.limit, 1);
    assert!(!g.literal);
    let p = grep_pattern("fo+", false, false).unwrap();
    let lines: Vec<String> = vec!["a", "foo", "b", "fooo", "c"].into_iter().map(String::from).collect();
    let blocks = match_blocks(&lines, &p, 1, 10);
    assert_eq!(blocks, vec!["Lines 1-3:\n   1: a\n>  2: foo\n   3: b\n".to_string(), "Lines 3-5:\n   3: b\n>  4: fooo\n   5: c\n".to_string()]);
    assert_eq!(match_blocks(&lines, &p, 0, 1).len(), 1);
    assert!(matches!(grep_pattern("(", false, false), Err(ToolError::Regex(_))));
    assert!(grep_pattern("(", true, true).is_ok());
    let mut c = GrepCollector::new(1);
    assert!(c.add_file("f.rs", &blocks));
    assert_eq!(c.report("fo+"), "Found 1 match(es) for pattern: fo+\n\nf.rs:\nLines 1-3:\n   1: a\n>  2: foo\n   3: b\n\n\n[Reached limit of 1 matches]");
    assert_eq!(GrepCollector::new(3).report("zz"), "No matches found for pattern: zz");
}

#[test]
fn find_patterns_and_report() {
    let (p, l, path) = find_args(&obj(vec![("pattern", s("*.rs *.toml"))])).unwrap();
    assert_eq!((p.as_str(), l, path), ("*.rs *.toml", 1000, None));
    let set = build_glob_set("*.rs   *.toml").unwrap();
    assert_eq!(set.len(), 2);
    assert!(set.is_match("Cargo.toml"));
    assert!(!set.is_match("README.md"));
    assert!(matches!(build_glob_set("a[").map(|_| ()), Err(ToolError::InvalidArguments(ref m)) if m.starts_with("Invalid glob pattern: ")));
    let mut c = FindCollector::new(2);
    assert!(!c.add("a.rs".to_string()));
    assert!(c.add("b.rs".to_string()));
    assert_eq!(c.report("*.rs"), "Found 2 file(s) matching pattern: *.rs\n\n1. a.rs\n2. b.rs\n\n[Reached limit of 2 results]");
    assert_eq!(FindCollector::new(5).report("x"), "No files found matching pattern: x");
}

#[test]
fn grep_collector_across_files() {
    let mut c = GrepCollector::new(5);
    assert!(!c.add_file("a.rs", &vec!["b1".to_string(), "b2".to_string()]));
    assert!(!c.add_file("b.rs", &vec!["b3".to_string()]));
    assert_eq!(c.match_count, 3);
    assert_eq!(c.remaining(), 2);
    assert_eq!(c.report("x"), "Found 3 match(es) for pattern: x\n\na.rs:\nb1\na.rs:\nb2\nb.rs:\nb3\n");
}
