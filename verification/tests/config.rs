use velotype::config::{
    is_jsonc_file, is_supported_config_file, parse_config_text, parse_json_value,
    parse_jsonc_value, sanitize_config_file_stem, strip_jsonc_comments, ConfigReadError,
    JsoncError, VelotypeConfigDirs,
};
use velotype::json::JsonValue;

fn field<'a>(value: &'a JsonValue, key: &str) -> &'a JsonValue {
    match value {
        JsonValue::Object(entries) => &entries.iter().find(|(k, _)| k == key).expect("field").1,
        _ => panic!("not an object"),
    }
}

#[test]
fn jsonc_comments_are_stripped_without_touching_strings() {
    let text = r#"
        {
            // line comment
            "url": "https://example.com/a//b",
            "text": "/* not a comment */",
            /* block comment */
            "value": 1
        }
        "#;

    let parsed = parse_jsonc_value(text).expect("jsonc should parse");
    assert_eq!(field(&parsed, "url"), &JsonValue::Str("https://example.com/a//b".to_string()));
    assert_eq!(field(&parsed, "text"), &JsonValue::Str("/* not a comment */".to_string()));
    assert_eq!(field(&parsed, "value"), &JsonValue::Number("1".to_string()));
    assert!(strip_jsonc_comments(text).is_ok());
    assert!(!is_supported_config_file("json"));
    assert!(is_jsonc_file("a.JsonC"));
    assert!(!is_jsonc_file("a.json"));
}

#[test]
fn config_text_is_read_by_its_extension() {
    let parsed = parse_config_text("t.jsonc", "{\"b\": [true, null], /* c */ \"a\": 1.5}").unwrap();
    assert_eq!(
        parsed,
        JsonValue::Object(vec![
            ("a".to_string(), JsonValue::Number("1.5".to_string())),
            (
                "b".to_string(),
                JsonValue::Array(vec![JsonValue::Bool(true), JsonValue::Null])
            ),
        ])
    );
    assert!(matches!(
        parse_config_text("t.json", "{/* c */}"),
        Err(ConfigReadError::InvalidJson(_))
    ));
    assert_eq!(
        parse_config_text("t.txt", "{}"),
        Err(ConfigReadError::UnsupportedFile)
    );
    assert_eq!(
        parse_jsonc_value("{/* open"),
        Err(ConfigReadError::UnterminatedBlockComment)
    );
    assert_eq!(
        parse_json_value("{\"k\": 1, \"k\": 2}").unwrap(),
        JsonValue::Object(vec![("k".to_string(), JsonValue::Number("2".to_string()))])
    );
    let err = parse_json_value("[1,").unwrap_err();
    assert_eq!(err.message().is_empty(), false);
}

#[test]
fn config_file_stems_are_sanitized() {
    assert_eq!(sanitize_config_file_stem("My Theme / Blue"), "My_Theme_Blue");
    assert_eq!(sanitize_config_file_stem("  ...  "), "custom");
}

#[test]
fn jsonc_line_comment_becomes_its_line_break() {
    assert_eq!(strip_jsonc_comments("a // x\nb").unwrap(), "a \nb");
    assert_eq!(strip_jsonc_comments("a // no line break").unwrap(), "a ");
}

#[test]
fn jsonc_block_comment_keeps_its_line_breaks() {
    assert_eq!(strip_jsonc_comments("1/* a\nb\n*/2").unwrap(), "1\n\n2");
    assert_eq!(strip_jsonc_comments("/**/x").unwrap(), "x");
}

#[test]
fn jsonc_comment_markers_in_strings_with_escapes_are_kept() {
    let text = r#"{"a": "q\"// not", "b": 1}"#;
    assert_eq!(strip_jsonc_comments(text).unwrap(), text);
}

#[test]
fn jsonc_unterminated_block_comment_is_an_error() {
    assert_eq!(
        strip_jsonc_comments("{ /* open").unwrap_err(),
        JsoncError::UnterminatedBlockComment
    );
    assert_eq!(
        strip_jsonc_comments("/*/").unwrap_err(),
        JsoncError::UnterminatedBlockComment
    );
}

#[test]
fn config_stems_collapse_blanks_and_drop_symbols() {
    assert_eq!(sanitize_config_file_stem("a   b"), "a_b");
    assert_eq!(sanitize_config_file_stem("_.Night-Writer._"), "Night-Writer");
    assert_eq!(sanitize_config_file_stem("Ünïcode 名前"), "Ünïcode_名前");
    assert_eq!(sanitize_config_file_stem(""), "custom");
}

#[test]
fn supported_config_files_are_json_or_jsonc() {
    assert!(is_supported_config_file("theme.json"));
    assert!(is_supported_config_file("dir/theme.JSONC"));
    assert!(!is_supported_config_file("theme.toml"));
    assert!(!is_supported_config_file("json"));
    assert!(is_jsonc_file("a.JsonC"));
    assert!(!is_jsonc_file("a.json"));
}

#[test]
fn config_dirs_are_children_of_the_root() {
    let dirs = VelotypeConfigDirs::from_root("/home/u/.velotype");
    assert_eq!(dirs.languages_dir(), "/home/u/.velotype/languages");
    assert_eq!(dirs.themes_dir(), "/home/u/.velotype/themes");
    assert_eq!(dirs.history_file(), "/home/u/.velotype/.history");
    assert_eq!(dirs.app_config_file(), "/home/u/.velotype/config.toml");
}

#[test]
fn jsonc_stripping_keeps_the_line_count() {
    let text = "{\n // a\n \"k\": /* x\n y */ 1\n}\n";
    let out = strip_jsonc_comments(text).unwrap();
    assert_eq!(out.matches('\n').count(), text.matches('\n').count());
}

#[test]
fn jsonc_stripping_twice_changes_nothing_more() {
    let text = "{\n  \"a\": \"x//y\", // note\n  /* block\n */ \"b\": \"\\\"/*\"\n}";
    let once = strip_jsonc_comments(text).unwrap();
    assert_eq!(once, "{\n  \"a\": \"x//y\", \n  \n \"b\": \"\\\"/*\"\n}");
    let twice = strip_jsonc_comments(&once).unwrap();
    assert_eq!(twice, once);
}

#[test]
fn jsonc_without_comments_comes_back_unchanged() {
    let text = "{\"path\": \"a/b\", \"n\": 1 / 2, \"s\": \"// /* */\"}";
    assert_eq!(strip_jsonc_comments(text).unwrap(), text);
}

#[test]
fn config_dirs_use_backslashes_on_windows() {
    let dirs = VelotypeConfigDirs::from_root_on("C:\\Users\\u\\AppData\\Roaming\\Velotype", true);
    assert_eq!(dirs.themes_dir(), "C:\\Users\\u\\AppData\\Roaming\\Velotype\\themes");
    assert_eq!(dirs.history_file(), "C:\\Users\\u\\AppData\\Roaming\\Velotype\\.history");
    let trailing = VelotypeConfigDirs::from_root_on("D:\\cfg\\", true);
    assert_eq!(trailing.languages_dir(), "D:\\cfg\\languages");
    let drive = VelotypeConfigDirs::from_root_on("E:", true);
    assert_eq!(drive.app_config_file(), "E:config.toml");
    let unix = VelotypeConfigDirs::from_root_on("/etc/velotype/", false);
    assert_eq!(unix.themes_dir(), "/etc/velotype/themes");
}

#[test]
fn jsonc_string_literals_are_copied_whole() {
    let text = "{\"a\": \"x \\\" // y /* z */\" /* gone */, \"b\": 1}";
    assert_eq!(
        strip_jsonc_comments(text).unwrap(),
        "{\"a\": \"x \\\" // y /* z */\" , \"b\": 1}"
    );
}
