use velotype::paste::{
    is_plain_inline_paste_line, is_simple_atx_heading, is_simple_list_marker,
    is_simple_separator, leading_html_tag_name, plain_paste_paragraphs,
    should_split_plain_multiline_paste,
};

fn chars(s: &str) -> Vec<char> {
    s.chars().collect()
}

#[test]
fn accepts_plain_lines_with_script_syntax() {
    let lines = vec![
        "H~2~O".to_string(),
        "CO<sub>2</sub>".to_string(),
        "x<sup>n</sup>".to_string(),
    ];

    assert!(should_split_plain_multiline_paste(&lines));
}

#[test]
fn accepts_closed_safe_inline_html_at_line_start() {
    let lines = vec![
        "<sub>2</sub>".to_string(),
        "<sup>n</sup>".to_string(),
        "<span style=\"color:red\">x</span>".to_string(),
        "<strong>y</strong>".to_string(),
    ];

    assert!(should_split_plain_multiline_paste(&lines));
}

#[test]
fn rejects_block_or_unclosed_html_at_line_start() {
    let lines = vec!["<div>x</div>".to_string(), "<p>y</p>".to_string()];
    assert!(!should_split_plain_multiline_paste(&lines));

    let lines = vec!["<script>x</script>".to_string(), "<sup>n</sup>".to_string()];
    assert!(!should_split_plain_multiline_paste(&lines));

    let lines = vec!["<style>x</style>".to_string(), "<sup>n</sup>".to_string()];
    assert!(!should_split_plain_multiline_paste(&lines));

    let lines = vec!["<span>x".to_string(), "<sup>n</sup>".to_string()];
    assert!(!should_split_plain_multiline_paste(&lines));
}

#[test]
fn rejects_structural_markdown() {
    let lines = vec!["```mermaid".to_string(), "flowchart LR".to_string()];
    assert!(!should_split_plain_multiline_paste(&lines));

    let lines = vec!["- item".to_string(), "- next".to_string()];
    assert!(!should_split_plain_multiline_paste(&lines));

    let lines = vec!["| A |".to_string(), "| --- |".to_string()];
    assert!(!should_split_plain_multiline_paste(&lines));
}

#[test]
fn single_non_blank_line_is_not_split() {
    let lines = vec!["   ".to_string(), "hello".to_string(), "".to_string()];
    assert!(!should_split_plain_multiline_paste(&lines));
    let lines = vec!["a".to_string(), "  ".to_string(), "b".to_string()];
    assert!(should_split_plain_multiline_paste(&lines));
}

#[test]
fn leading_tag_name_is_lowercased_and_requires_terminator() {
    assert_eq!(leading_html_tag_name(&chars("<SPAN class=x>")), Some(chars("span")));
    assert_eq!(leading_html_tag_name(&chars("<br/>")), Some(chars("br")));
    assert_eq!(leading_html_tag_name(&chars("</b>")), None);
    assert_eq!(leading_html_tag_name(&chars("<!-- x -->")), None);
    assert_eq!(leading_html_tag_name(&chars("<span")), None);
    assert_eq!(leading_html_tag_name(&chars("<a.b>")), None);
}

#[test]
fn list_heading_and_separator_markers() {
    assert!(is_simple_list_marker(&chars("- a")));
    assert!(is_simple_list_marker(&chars("12) x")));
    assert!(is_simple_list_marker(&chars("3. x")));
    assert!(!is_simple_list_marker(&chars("1234567890. x")));
    assert!(!is_simple_list_marker(&chars("a. x")));
    assert!(!is_simple_list_marker(&chars("1.x")));
    assert!(is_simple_atx_heading(&chars("### t")));
    assert!(!is_simple_atx_heading(&chars("####### t")));
    assert!(!is_simple_atx_heading(&chars("#t")));
    assert!(is_simple_separator(&chars("- - -")));
    assert!(is_simple_separator(&chars("___")));
    assert!(!is_simple_separator(&chars("-*-")));
    assert!(!is_simple_separator(&chars("--")));
}

#[test]
fn indented_code_and_reference_definitions_are_structural() {
    assert!(!is_plain_inline_paste_line(&chars("    code")));
    assert!(!is_plain_inline_paste_line(&chars("[a]: http://x")));
    assert!(!is_plain_inline_paste_line(&chars("> quote")));
    assert!(!is_plain_inline_paste_line(&chars("$$")));
    assert!(is_plain_inline_paste_line(&chars("   plain text")));
    assert!(is_plain_inline_paste_line(&chars("")));
}

#[test]
fn split_paste_makes_one_paragraph_per_non_blank_line() {
    let lines = vec!["a".to_string(), "  ".to_string(), "b".to_string()];
    assert_eq!(plain_paste_paragraphs(&lines), vec!["a".to_string(), "b".to_string()]);
    let blank = vec![" ".to_string(), "".to_string()];
    assert_eq!(plain_paste_paragraphs(&blank), vec![String::new()]);
    assert!(plain_paste_paragraphs(&[]).is_empty());
}

#[test]
fn tab_indented_code_is_not_plain_text() {
    assert!(!is_plain_inline_paste_line(&chars("\tlet x = 1;")));
    assert!(!is_plain_inline_paste_line(&chars("    let x = 1;")));
    assert!(is_plain_inline_paste_line(&chars("  let x = 1;")));
}

#[test]
fn blank_lines_never_change_whether_a_paste_splits() {
    let to_lines = |items: &[&str]| items.iter().map(|s| s.to_string()).collect::<Vec<_>>();
    let plain = to_lines(&["first", "second"]);
    let padded = to_lines(&["", "first", "   ", "\t", "second", ""]);
    assert!(should_split_plain_multiline_paste(&plain));
    assert!(should_split_plain_multiline_paste(&padded));
    let single = to_lines(&["", "only line", "  "]);
    assert!(!should_split_plain_multiline_paste(&single));
    let structural = to_lines(&["text", "", "# heading"]);
    assert!(!should_split_plain_multiline_paste(&structural));
}
