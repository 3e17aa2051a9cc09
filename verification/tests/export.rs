use velotype::export::{
    collect_display_math_region, escape_html, find_backtick_run, is_closing_fence,
    is_escaped_ascii, is_root_comment_start, is_root_display_math_start,
    is_single_tilde_marker, locate_inline_dollar_math_source, locate_inline_paren_math_source,
    locate_inline_script_source, locate_script_close, looks_like_export_currency, opening_fence,
    previous_char, render_html, rewrite_display_math_blocks, rewrite_inline_math,
    rewrite_inline_math_line, rewrite_unsafe_html_blocks, rewrite_visible_comment_blocks,
    root_html_start, valid_inline_math_body, ExportPiece, InlineSegment, ScriptTag,
    inline_line_html, rendered_block_html, BlockRender, RenderedBlockKind, export_html,
    rewrite_for_export,
};

fn chars(s: &str) -> Vec<char> {
    s.chars().collect()
}

fn lines(s: &str) -> Vec<Vec<char>> {
    s.split('\n').map(chars).collect()
}

fn page(markdown: &str, title: &str) -> String {
    export_html(markdown, ":root { --vlt-bg: #191919; }", title)
}

fn rendered_segments(line: &str) -> String {
    let segments = rewrite_inline_math_line(&chars(line));
    let svgs: Vec<Option<String>> = vec![None; segments.len()];
    inline_line_html(&segments, &svgs)
}

#[test]
fn renders_complete_html_document_with_css() {
    let html = page("# Title\n\ntext", "Doc");
    assert!(html.starts_with("<!doctype html>"));
    assert!(html.contains("<title>Doc</title>"));
    assert!(html.contains("<style>"));
    assert!(html.contains("--vlt-bg:"));
    assert!(html.contains("<h1>Title</h1>"));
    assert!(html.contains("<p>text</p>"));
    assert!(html.ends_with("</main>\n</body>\n</html>\n"));
}

#[test]
fn enables_extended_markdown_features() {
    let markdown = "> [!NOTE]\n> body\n\n| A | B |\n| - | - |\n| 1 | 2 |\n\n- [x] done\n\n~~old~~\n\nhello[^a]\n\n[^a]: footnote";
    let html = page(markdown, "Doc");
    assert!(html.contains("markdown-alert-note"));
    assert!(html.contains("<table>"));
    assert!(html.contains("checked"));
    assert!(html.contains("<del>old</del>"));
    assert!(html.contains("footnote"));
}

#[test]
fn renders_velotype_comment_blocks_as_visible_escaped_text() {
    let html = page("<!--\n<strong>not html</strong>\n-->", "Doc");
    assert!(html.contains("class=\"vlt-comment\""));
    assert!(html.contains("&lt;!--"));
    assert!(html.contains("&lt;strong&gt;not html&lt;/strong&gt;"));
    assert!(!html.contains("<!--\n<strong>not html</strong>\n-->"));
}

#[test]
fn does_not_rewrite_comment_markers_inside_fenced_code() {
    let html = page("```\n<!--\nnot a comment block\n-->\n```", "Doc");
    assert!(!html.contains("class=\"vlt-comment\""));
    assert!(html.contains("&lt;!--"));
    assert!(html.contains("not a comment block"));
}

#[test]
fn escapes_title_and_markdown_body_html() {
    let html = page("# A & B", "A & <B>");
    assert!(html.contains("<title>A &amp; &lt;B&gt;</title>"));
    assert!(html.contains("<h1>A &amp; B</h1>"));
}

#[test]
fn comment_rewrite_is_exact() {
    assert_eq!(
        rewrite_visible_comment_blocks("a\n<!-- x\n<b>\n-->\nz"),
        "a\n<pre class=\"vlt-comment\">&lt;!-- x\n&lt;b&gt;\n--&gt;</pre>\nz"
    );
    assert_eq!(rewrite_visible_comment_blocks("<!-- never closed\nx"), "<!-- never closed\nx");
    assert_eq!(rewrite_visible_comment_blocks("    <!-- deep -->"), "    <!-- deep -->");
    assert_eq!(rewrite_visible_comment_blocks(""), "");
}

#[test]
fn escape_html_replaces_the_five_characters() {
    assert_eq!(escape_html("<a href=\"x\">'&'</a>"), "&lt;a href=&quot;x&quot;&gt;&#39;&amp;&#39;&lt;/a&gt;");
    assert_eq!(escape_html("plain 中文"), "plain 中文");
}

#[test]
fn escapes_risky_raw_html_blocks_are_isolated() {
    let pieces = rewrite_unsafe_html_blocks("<script>alert(1)</script>");
    assert_eq!(pieces, vec![ExportPiece::Block("<script>alert(1)</script>".to_string())]);
    let pieces = rewrite_unsafe_html_blocks("<div>\nsafe\n</DIV>\nafter\n```\n<div>\n```");
    assert_eq!(
        pieces,
        vec![
            ExportPiece::Block("<div>\nsafe\n</DIV>".to_string()),
            ExportPiece::Line("after".to_string()),
            ExportPiece::Line("```".to_string()),
            ExportPiece::Line("<div>".to_string()),
            ExportPiece::Line("```".to_string()),
        ]
    );
    let pieces = rewrite_unsafe_html_blocks("<div>\ntext\n\nnext");
    assert_eq!(pieces[0], ExportPiece::Block("<div>\ntext".to_string()));
    assert_eq!(pieces[1], ExportPiece::Line("".to_string()));
}

#[test]
fn display_math_blocks_are_isolated() {
    let pieces = rewrite_display_math_blocks("$$\n\\frac{1}{2}\n$$\ntext");
    assert_eq!(
        pieces,
        vec![
            ExportPiece::Block("$$\n\\frac{1}{2}\n$$".to_string()),
            ExportPiece::Line("text".to_string()),
        ]
    );
    let pieces = rewrite_display_math_blocks("$$ x $$\ny");
    assert_eq!(pieces[0], ExportPiece::Block("$$ x $$".to_string()));
}

#[test]
fn exports_superscript_and_subscript_as_html_tags() {
    let out = rendered_segments("x^2^ and H~2~O");
    assert!(out.contains("x<sup>2</sup>"));
    assert!(out.contains("H<sub>2</sub>O"));
}

#[test]
fn export_script_rewrite_ignores_code_escaped_and_strikethrough() {
    let out = rendered_segments("`x^2^ H~2~O` \\^2^ \\~2~ ~~old~~");
    assert!(!out.contains("<sup>2</sup>"));
    assert!(!out.contains("<sub>2</sub>"));
    assert!(out.contains("`x^2^ H~2~O`"));
    assert!(out.contains("~~old~~"));
}

#[test]
fn export_inline_math_ignores_code_and_escaped_delimiters() {
    let segments = rewrite_inline_math_line(&chars("`$x$` and \\$y$"));
    assert!(!segments.iter().any(|s| matches!(s, InlineSegment::Math { .. })));
}

#[test]
fn inline_math_is_found_with_its_body() {
    let segments = rewrite_inline_math_line(&chars("before $x^2$ after"));
    assert!(segments.contains(&InlineSegment::Math {
        source: "$x^2$".to_string(),
        body: "x^2".to_string()
    }));
    let segments = rewrite_inline_math_line(&chars("a \\(y\\) b"));
    assert!(segments.contains(&InlineSegment::Math {
        source: "\\(y\\)".to_string(),
        body: "y".to_string()
    }));
}

#[test]
fn fenced_lines_stay_whole_in_inline_rewrite() {
    let all = rewrite_inline_math("```\n$x$\n```\n$y$");
    assert_eq!(all.len(), 4);
    assert_eq!(all[1], vec![InlineSegment::Text("$x$".to_string())]);
    assert!(all[3].iter().any(|s| matches!(s, InlineSegment::Math { .. })));
}

#[test]
fn currency_is_not_math() {
    let line = chars("costs $5 and $10");
    assert_eq!(locate_inline_dollar_math_source(&line, 6), None);
    assert!(looks_like_export_currency(&chars("1$2$"), 1, 3, &chars("2")));
    assert!(looks_like_export_currency(&chars("$1,000$"), 0, 6, &chars("1,000")));
    assert!(!looks_like_export_currency(&chars("$x$"), 0, 2, &chars("x")));
}

#[test]
fn dollar_math_rules() {
    assert_eq!(
        locate_inline_dollar_math_source(&chars("$a$"), 0),
        Some((3, chars("a")))
    );
    assert_eq!(locate_inline_dollar_math_source(&chars("$$a$$"), 0), None);
    assert_eq!(locate_inline_dollar_math_source(&chars("$ a$"), 0), None);
    assert_eq!(locate_inline_dollar_math_source(&chars("\\$a$"), 1), None);
    assert_eq!(locate_inline_dollar_math_source(&chars("$a"), 0), None);
    assert_eq!(locate_inline_paren_math_source(&chars("\\(a\\)"), 0), Some((5, chars("a"))));
    assert_eq!(locate_inline_paren_math_source(&chars("\\(\\)"), 0), None);
    assert!(valid_inline_math_body(&chars("a+b")));
    assert!(!valid_inline_math_body(&chars(" a")));
    assert!(!valid_inline_math_body(&chars("")));
}

#[test]
fn script_rules() {
    assert_eq!(
        locate_inline_script_source(&chars("x^2^"), 1),
        Some((4, chars("2"), ScriptTag::Sup))
    );
    assert_eq!(locate_inline_script_source(&chars("^2^"), 0), None);
    assert_eq!(locate_inline_script_source(&chars("x~~2~"), 1), None);
    assert_eq!(locate_script_close(&chars("x^a b^"), 1, '^'), None);
    assert_eq!(locate_script_close(&chars("H~2~O"), 1, '~'), Some((4, chars("2"))));
    assert!(is_single_tilde_marker(&chars("a~b"), 1));
    assert!(!is_single_tilde_marker(&chars("a~~b"), 1));
    assert_eq!(previous_char(&chars("ab"), 1), Some('a'));
    assert_eq!(previous_char(&chars("ab"), 0), None);
    assert_eq!(previous_char(&chars("ab"), 5), None);
    assert!(is_escaped_ascii(&chars("\\x"), 1));
    assert!(!is_escaped_ascii(&chars("\\\\x"), 2));
}

#[test]
fn backtick_runs() {
    assert_eq!(find_backtick_run(&chars("``a``"), 2, 2), Some(3));
    assert_eq!(find_backtick_run(&chars("``a`"), 2, 2), None);
}

#[test]
fn fences_and_block_starts() {
    assert_eq!(opening_fence(&chars("```rust")), Some(('`', 3)));
    assert_eq!(opening_fence(&chars("   ~~~~")), Some(('~', 4)));
    assert_eq!(opening_fence(&chars("    ```")), None);
    assert_eq!(opening_fence(&chars("``")), None);
    assert!(is_closing_fence(&chars("````  "), '`', 3));
    assert!(!is_closing_fence(&chars("``"), '`', 3));
    assert!(!is_closing_fence(&chars("``` x"), '`', 3));
    assert!(is_root_comment_start(&chars("  <!-- c")));
    assert!(!is_root_comment_start(&chars("    <!-- c")));
    assert!(is_root_display_math_start(&chars("$$")));
    assert!(!is_root_display_math_start(&chars("\u{3000}\u{3000}$$")));
}

#[test]
fn display_math_regions() {
    assert_eq!(collect_display_math_region(&lines("$$\na\n$$\nb"), 0), 3);
    assert_eq!(collect_display_math_region(&lines("$$\na\n\nb"), 0), 2);
    assert_eq!(collect_display_math_region(&lines("$$\na"), 0), 2);
    assert_eq!(collect_display_math_region(&lines("$$ a $$\nb"), 0), 1);
}

#[test]
fn html_starts() {
    let start = root_html_start(&chars("<DIV class=\"x\">")).unwrap();
    assert_eq!(start.name, "div");
    assert!(!start.self_closing);
    assert!(!start.closes_same_line);
    let start = root_html_start(&chars("<br/>")).unwrap();
    assert!(start.self_closing);
    let start = root_html_start(&chars("<span>x</SPAN>")).unwrap();
    assert!(start.closes_same_line);
    assert!(root_html_start(&chars("</div>")).is_none());
    assert!(root_html_start(&chars("<!-- x -->")).is_none());
    assert!(root_html_start(&chars("<div")).is_none());
    assert!(root_html_start(&chars("<a.b>")).is_none());
}

#[test]
fn comment_free_text_is_kept_exactly() {
    let text = "# Title\n\n```\ncode\n```\n- item\n";
    assert_eq!(rewrite_visible_comment_blocks(text), text);
}

#[test]
fn escaped_text_has_no_markup_characters() {
    let out = escape_html("<p class='a'>\"x\"</p>");
    assert!(!out.contains('<') && !out.contains('>') && !out.contains('"') && !out.contains('\''));
}

#[test]
fn inline_math_and_scripts_become_html() {
    let segments = rewrite_inline_math_line(&chars("x^2^ $a<b$"));
    let svgs: Vec<Option<String>> = segments
        .iter()
        .map(|s| match s {
            InlineSegment::Math { .. } => Some("<svg/>".to_string()),
            _ => None,
        })
        .collect();
    assert_eq!(
        inline_line_html(&segments, &svgs),
        "x<sup>2</sup> <span class=\"vlt-inline-math\"><svg/></span>"
    );
    let failed = vec![None; segments.len()];
    assert_eq!(inline_line_html(&segments, &failed), "x<sup>2</sup> $a&lt;b$");
}

#[test]
fn display_blocks_become_svg_or_escaped_source() {
    let raw = "$$\n\\frac{a}\n$$";
    assert_eq!(
        rendered_block_html(RenderedBlockKind::Math, raw, &BlockRender::Rendered("<svg/>".to_string())),
        "<div class=\"vlt-math\"><svg/></div>"
    );
    assert_eq!(
        rendered_block_html(RenderedBlockKind::Math, raw, &BlockRender::Failed),
        "<pre class=\"vlt-math-error\">$$\n\\frac{a}\n$$</pre>"
    );
    assert_eq!(
        rendered_block_html(RenderedBlockKind::Mermaid, "a<b", &BlockRender::Failed),
        "<pre class=\"vlt-mermaid-error\">a&lt;b</pre>"
    );
    assert_eq!(rendered_block_html(RenderedBlockKind::Mermaid, "raw", &BlockRender::Unparsed), "raw");
}

#[test]
fn exported_page_turns_scripts_into_tags() {
    let html = page("x^2^ and H~2~O", "Doc");
    assert!(html.contains("x<sup>2</sup>"));
    assert!(html.contains("H<sub>2</sub>O"));
}

#[test]
fn exported_page_leaves_scripts_in_code_escapes_and_strikethrough() {
    let html = page("`x^2^ H~2~O` \\^2^ \\~2~ ~~old~~", "Doc");
    assert!(!html.contains("<sup>2</sup>"));
    assert!(!html.contains("<sub>2</sub>"));
    assert!(html.contains("<code>x^2^ H~2~O</code>"));
    assert!(html.contains("^2^"));
    assert!(html.contains("~2~"));
    assert!(html.contains("<del>old</del>"));
}

#[test]
fn exported_page_keeps_unrendered_math_as_escaped_source() {
    let html = page("`$x$` and \\$y$ and $a<b$", "Doc");
    assert!(!html.contains("class=\"vlt-inline-math\""));
    assert!(html.contains("$x$"));
    assert!(html.contains("$y$"));
    assert!(html.contains("$a&lt;b$"));
}

#[test]
fn rewrite_for_export_composes_comments_and_scripts() {
    let out = rewrite_for_export("<!--\n<b>x</b>\n-->\nH~2~O\n```\nx^2^\n```");
    assert_eq!(
        out,
        "<pre class=\"vlt-comment\">&lt;!--\n&lt;b&gt;x&lt;/b&gt;\n--&gt;</pre>\nH<sub>2</sub>O\n```\nx^2^\n```"
    );
}

#[test]
fn escaping_grows_by_the_entity_lengths() {
    let text = "a&b<c>d\"e'f";
    let escaped = escape_html(text);
    assert_eq!(escaped, "a&amp;b&lt;c&gt;d&quot;e&#39;f");
    assert_eq!(escaped.len(), text.len() + 4 + 3 + 3 + 5 + 4);
}

#[test]
fn escaping_is_undone_by_decoding_the_entities() {
    let text = "&lt; is <, & is &amp;, \"'";
    let escaped = escape_html(text);
    let decoded = escaped
        .replace("&lt;", "<")
        .replace("&gt;", ">")
        .replace("&quot;", "\"")
        .replace("&#39;", "'")
        .replace("&amp;", "&");
    assert_eq!(decoded, text);
}

#[test]
fn text_without_special_characters_escapes_to_itself() {
    assert_eq!(escape_html("plain text, 100% (ok)"), "plain text, 100% (ok)");
    assert_ne!(escape_html("a'b"), "a'b");
}

#[test]
fn escapes_risky_raw_html_blocks_for_export() {
    let html = page("<script>alert(1)</script>", "Doc");
    assert!(html.contains("class=\"vlt-raw-html\""));
    assert!(html.contains("&lt;script&gt;alert(1)&lt;/script&gt;"));
    assert!(!html.contains("<script>alert(1)</script>"));
}

#[test]
fn invalid_display_math_exports_escaped_raw_markdown() {
    let html = page("$$\n\\frac{a}\n$$", "Doc");
    assert!(html.contains("class=\"vlt-math-error\""));
    assert!(html.contains("$$\n\\frac{a}\n$$"));
    assert!(!html.contains("class=\"vlt-math\"><svg"));
}

#[test]
fn export_rewrite_keeps_html_and_math_inside_fences() {
    let out = rewrite_for_export("```\n<div>x</div>\n$$\n```\n<div>y & z</div>");
    assert_eq!(
        out,
        "```\n<div>x</div>\n$$\n```\n<pre class=\"vlt-raw-html\">&lt;div&gt;y &amp; z&lt;/div&gt;</pre>"
    );
}
