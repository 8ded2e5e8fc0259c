use cromulent::json::Json;
use cromulent::tools::hashline::diff::{changed_line_range, compact_diff};
use cromulent::tools::hashline::hash::{
    alphabet, compute_line_hash, file_hash, format_hashline_region, render_hashline, visible_lines,
};
use cromulent::tools::hashline::parse::{parse_line_ref, parse_lines_value, reject_display_prefixes};
use cromulent::tools::hashline::read::format_read_preview;

#[test]
fn hash_normalizes_trailing_ws_and_cr() {
    assert_eq!(compute_line_hash(1, "abc  \r"), compute_line_hash(1, "abc"));
}

#[test]
fn symbol_lines_seeded_by_line() {
    assert_ne!(compute_line_hash(1, "}"), compute_line_hash(2, "}"));
}

#[test]
fn render_prefix() {
    assert!(render_hashline(3, "let x = 1;").starts_with("3#"));
}

#[test]
fn parses_rendered() {
    assert_eq!(parse_line_ref("12#MQ:abc").unwrap().line, 12);
}

#[test]
fn rejects_prefix() {
    assert!(reject_display_prefixes(&["12#MQ:abc".into()]).is_err());
    assert!(reject_display_prefixes(&["+ 12#MQ:abc".into()]).is_err());
}

#[test]
fn rejects_removed_rendered_line() {
    let e = reject_display_prefixes(&["- 12#MQ:abc".into()]).unwrap_err();
    assert!(e.starts_with("[E_INVALID_PATCH]"));
    assert!(reject_display_prefixes(&["- a list item".into(), "-1".into()]).is_ok());
    assert!(reject_display_prefixes(&["-3    old".into()]).is_err());
}

#[test]
fn alphabet_is_sixteen_letters() {
    assert_eq!(alphabet(), "ZPMQVRWSNKTXJBYH");
}

#[test]
fn line_hash_exact_values() {
    assert_eq!(compute_line_hash(1, "fn main() {"), "KX");
    assert_eq!(compute_line_hash(2, "}"), "RT");
    assert_eq!(compute_line_hash(1, "}"), "PS");
    assert_eq!(compute_line_hash(12, "abc"), "HH");
    assert_eq!(compute_line_hash(3, "let x = 1;"), "NQ");
}

#[test]
fn alphanumeric_lines_ignore_line_number() {
    assert_eq!(compute_line_hash(1, "abc"), compute_line_hash(12, "abc"));
}

#[test]
fn render_exact() {
    assert_eq!(render_hashline(3, "let x = 1;"), "3#NQ:let x = 1;");
}

#[test]
fn file_hash_exact_values() {
    assert_eq!(file_hash(""), "02cc5d05");
    assert_eq!(file_hash("hello\n"), "946b5bf9");
    assert_eq!(file_hash("a\nb\nc\n"), "b69fd988");
}

#[test]
fn visible_lines_drop_final_empty_piece() {
    assert_eq!(visible_lines(""), Vec::<String>::new());
    assert_eq!(visible_lines("a\nb\n"), vec!["a".to_string(), "b".to_string()]);
    assert_eq!(visible_lines("a\n\nb"), vec!["a".to_string(), "".to_string(), "b".to_string()]);
}

#[test]
fn region_renders_each_line() {
    let lines = vec!["a".to_string(), "b".to_string(), "c".to_string()];
    assert_eq!(format_hashline_region(&lines, 1), "1#RW:a\n2#XH:b\n3#PX:c");
}

#[test]
fn parse_rendered_round_trip() {
    let r = render_hashline(7, "  value = 3  ");
    let a = parse_line_ref(&r).unwrap();
    assert_eq!(a.line, 7);
    assert_eq!(a.hash, compute_line_hash(7, "  value = 3  "));
    assert_eq!(a.text_hint.as_deref(), Some("  value = 3"));
}

#[test]
fn parse_rejects_bad_refs() {
    assert!(parse_line_ref("abc").is_err());
    assert!(parse_line_ref("0#ZZ").is_err());
    assert!(parse_line_ref("5").is_err());
    assert!(parse_line_ref("5#Z").is_err());
    assert!(parse_line_ref("5#AA").is_err());
    let ok = parse_line_ref(">>> 5#ZZ").unwrap();
    assert_eq!(ok.line, 5);
    assert_eq!(ok.hash, "ZZ");
    assert_eq!(ok.text_hint, None);
}

#[test]
fn rendered_lines_are_rejected_as_payload() {
    let r = render_hashline(4, "x = 1");
    assert!(reject_display_prefixes(&[r]).is_err());
    assert!(reject_display_prefixes(&["plain text".to_string()]).is_ok());
}

#[test]
fn lines_payload_forms() {
    assert_eq!(parse_lines_value(None).unwrap(), Vec::<String>::new());
    assert_eq!(parse_lines_value(Some(&Json::Null)).unwrap(), Vec::<String>::new());
    let s = Json::Str("a\r\nb\n".to_string());
    assert_eq!(parse_lines_value(Some(&s)).unwrap(), vec!["a".to_string(), "b".to_string()]);
    let arr = Json::Array(vec![Json::Str("x".to_string()), Json::Null]);
    assert_eq!(
        parse_lines_value(Some(&arr)).unwrap_err(),
        "[E_INVALID_PATCH] lines array must contain only strings"
    );
    assert_eq!(
        parse_lines_value(Some(&Json::Bool(true))).unwrap_err(),
        "[E_INVALID_PATCH] lines must be a string, string array, or null"
    );
}

#[test]
fn changed_range_and_diff() {
    assert_eq!(changed_line_range("a\nb\nc\n", "a\nb\nc\n"), None);
    assert_eq!(changed_line_range("a\nb\nc\n", "a\nx\nc\n"), Some((2, 2)));
    assert_eq!(compact_diff("a\nb\nc\n", "a\nb\nc\n", 80), "(no changes)");
    assert_eq!(compact_diff("a\nb\nc\n", "a\nx\nc\n", 80), "- 2#XH:b\n+ 2#YT:x");
}

#[test]
fn read_preview_windows() {
    let p = format_read_preview("a\nb\nc\n", 2, Some(1)).unwrap();
    assert_eq!(p.text, "2#XH:b\n\n[Showing lines 2-2 of 3. Use offset=3 to continue.]");
    assert_eq!(p.total_lines, 3);
    assert_eq!(p.returned, 1);
    assert!(p.truncated);
    assert_eq!(p.next_offset, Some(3));
    assert_eq!(p.start, 2);
    assert_eq!(p.end, 2);
    let empty = format_read_preview("", 1, None).unwrap();
    assert_eq!(
        empty.text,
        "File is empty. Use hashline_edit with prepend or append and omit pos to insert content."
    );
    let beyond = format_read_preview("a\n", 5, None).unwrap();
    assert_eq!(
        beyond.text,
        "Offset 5 is beyond end of file (1 lines total). Use offset=1 to read from the start, or offset=1 to read the last line."
    );
}

#[test]
fn reference_refusals_carry_the_code() {
    for bad in ["0#MQ", "1#MQQ", "1#AB", "x#MQ", "12"] {
        let e = parse_line_ref(bad).unwrap_err();
        assert!(e.starts_with("[E_BAD_REF]"), "{}", e);
    }
    assert!(parse_line_ref("12").unwrap_err().contains("missing hash"));
    let a = parse_line_ref(">>> 5 # MQ").unwrap();
    assert_eq!((a.line, a.hash.as_str(), a.text_hint.is_none()), (5, "MQ", true));
}

#[test]
fn visible_lines_join_back() {
    for text in ["a\nb\n", "a\nb", "\n", "x"] {
        let mut joined = visible_lines(text).join("\n");
        if text.ends_with('\n') {
            joined.push('\n');
        }
        assert_eq!(joined, text);
    }
}
