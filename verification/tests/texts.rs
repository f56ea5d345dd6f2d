use caduceus::json::{json_text, Json};
use caduceus::languages::{visit_entry, Visit};
use caduceus::message::{ids_of, Message, ToolResult, ToolUse};
use caduceus::numeral::{byte_count, decimal_text, number_of, signed_decimal_text};
use caduceus::split::{join_texts, lines_of, replaced, split_at_any, words_of};
use caduceus::text::{
    ascii_lowercase, chars_end_with, chars_of, chars_strip_front, find_char, find_text_from,
    holds_text, str_has, str_starts_with, text_of, trim_str,
};

#[test]
fn numerals_are_written_and_read() {
    for n in [0, 9, 10, 4096, u64::MAX] {
        let text = decimal_text(n);
        assert_eq!(text, n.to_string());
        assert_eq!(number_of(&text), Some(n));
    }
    assert_eq!(number_of("18446744073709551616"), None);
    assert_eq!(number_of(""), None);
    assert_eq!(number_of("1a"), None);
    assert_eq!(number_of("-1"), None);
    for n in [i32::MIN, -1, 0, i32::MAX] {
        assert_eq!(signed_decimal_text(n), n.to_string());
    }
    assert_eq!(byte_count("aé€😀"), 10);
}

#[test]
fn texts_are_searched() {
    let s = chars_of("one two two");
    assert_eq!(find_text_from(&s, &chars_of("two"), 0), Some(4));
    assert_eq!(find_text_from(&s, &chars_of("two"), 5), Some(8));
    assert_eq!(find_text_from(&s, &chars_of("six"), 0), None);
    assert_eq!(find_text_from(&s, &[], 3), Some(3));
    assert_eq!(find_char(&s, 'w', 0), 5);
    assert_eq!(find_char(&s, 'x', 0), s.len());
    assert!(str_has("abc", "bc") && !str_has("abc", "cb") && str_has("abc", ""));
    assert!(str_starts_with("abc", "ab") && !str_starts_with("a", "ab"));
    assert!(chars_end_with(&s, "two") && !chars_end_with(&s, "one"));
    assert_eq!(text_of(chars_strip_front(&s, "one ").unwrap()), "two two");
    assert!(holds_text(&["a".to_string(), "b".to_string()], "b"));
    assert_eq!(ascii_lowercase("ÄBc"), "Äbc");
    assert_eq!(trim_str("\u{2003} a b\n"), "a b");
}

#[test]
fn texts_are_split_and_joined() {
    for s in ["", "a", "a\n", "a\r\nb\n\nc", "\n", "a\rb"] {
        let expected: Vec<&str> = s.lines().collect();
        assert_eq!(lines_of(s), expected, "{s:?}");
    }
    for s in ["", " a  b\tc\u{a0}d ", "one"] {
        let expected: Vec<&str> = s.split_whitespace().collect();
        assert_eq!(words_of(s), expected, "{s:?}");
    }
    for s in ["", "a.b!c", ".", "a.."] {
        let expected: Vec<&str> = s.split(['.', '!']).collect();
        assert_eq!(split_at_any(&chars_of(s), &['.', '!']), expected, "{s:?}");
    }
    for (s, p, by) in [("aaa", "aa", "b"), ("x{{e}}y{{e}}", "{{e}}", "1"), ("ab", "c", "d")] {
        assert_eq!(replaced(s, p, by), s.replace(p, by));
    }
    let parts = vec!["a".to_string(), String::new(), "c".to_string()];
    assert_eq!(join_texts(&parts, ", "), "a, , c");
    assert_eq!(join_texts(&[], ", "), "");
}

#[test]
fn values_are_looked_into() {
    let j = Json::Object(vec![
        ("a".to_string(), Json::List(vec![Json::Null, Json::Bool(true)])),
        ("n".to_string(), Json::Number("12".to_string())),
        ("f".to_string(), Json::Number("1.5".to_string())),
        ("s".to_string(), json_text("text")),
    ]);
    assert_eq!(j.get("a").unwrap().as_array().unwrap().len(), 2);
    assert_eq!(j.get("n").unwrap().as_u64(), Some(12));
    assert_eq!(j.get("f").unwrap().as_u64(), None);
    assert_eq!(j.get_str("s"), Some("text"));
    assert_eq!(j.get_str("n"), None);
    assert!(j.get("x").is_none());
    assert!(Json::Null.get("x").is_none());
}

#[test]
fn messages_carry_their_parts() {
    let call = ToolUse { id: "a".into(), name: "t".into(), input: "{}".into() };
    assert_eq!(ids_of(&[call.clone(), call.clone()]), vec!["a", "a"]);
    let r = ToolResult::error("bad").with_tool_use_id("a");
    assert!(r.clone().is_error);
    assert_eq!(Message::system("s").role, "system");
    let m = Message::user("plain");
    assert_eq!(m.content_text(), "plain");
    let copy = m.clone();
    assert_eq!(copy.content, "plain");
}

#[test]
fn directories_are_walked_for_sources() {
    assert_eq!(visit_entry("src", "a/src", true, false), Visit::Descend);
    assert_eq!(visit_entry("target", "a/target", true, false), Visit::Skip);
    assert_eq!(visit_entry(".config", "a/.config", true, false), Visit::Skip);
    assert_eq!(visit_entry("lib.rs", "a/lib.rs", false, true), Visit::Index);
    assert_eq!(visit_entry(".hidden.rs", "a/.hidden.rs", false, true), Visit::Skip);
    assert_eq!(visit_entry("photo.png", "a/photo.png", false, true), Visit::Skip);
    assert_eq!(visit_entry("pipe.rs", "a/pipe.rs", false, false), Visit::Skip);
}
