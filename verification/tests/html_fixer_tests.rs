use orchestrator_loop_for_ai::html_fixer::HtmlFixer;

#[test]
fn html_fixer_test_close_unclosed_paragraph_tags() {
    let html = "<p>Some text\n<p>More text</p>";
    let fixer = HtmlFixer::new();
    let result = fixer.fix(html);

    // Should have balanced tags
    assert_eq!(result.matches("<p>").count(), result.matches("</p>").count());
    assert!(result.contains("Some text"));
    assert!(result.contains("More text"));
}

#[test]
fn html_fixer_test_close_unclosed_tags_at_end() {
    let html = "<p>Paragraph text without closing tag";
    let fixer = HtmlFixer::new();
    let result = fixer.fix(html);

    assert!(result.contains("</p>"));
    assert_eq!(result.matches("<p>").count(), result.matches("</p>").count());
}

#[test]
fn html_fixer_test_flatten_nested_paragraphs() {
    let html = "<p>Outer\n<p>Inner</p>\n</p>";
    let fixer = HtmlFixer::new();
    let result = fixer.fix(html);

    // Nested <p> should be converted to siblings
    assert!(!result.contains("<p>") || result.matches("<p>").count() == result.matches("</p>").count());
    assert!(result.contains("Outer"));
    assert!(result.contains("Inner"));
}

#[test]
fn html_fixer_test_move_block_elements_out_of_paragraph() {
    let html = "<p>Text <div>Block content</div> More text</p>";
    let fixer = HtmlFixer::new();
    let result = fixer.fix(html);

    // Should properly close <p> before <div>
    assert!(result.contains("</p>"));
    assert!(result.contains("<div>"));
    assert!(result.contains("</div>"));
    assert!(result.contains("Text"));
    assert!(result.contains("Block content"));
    assert!(result.contains("More text"));
}

#[test]
fn html_fixer_test_preserve_content_and_links() {
    let html = "<p>Check out <a href=\"http://example.com\">this link</a>";
    let fixer = HtmlFixer::new();
    let result = fixer.fix(html);

    assert!(result.contains("Check out"));
    assert!(result.contains("this link"));
    assert!(result.contains("http://example.com"));
    assert!(result.contains("</a>"));
    assert!(result.contains("</p>"));
}

#[test]
fn html_fixer_test_balanced_tags_simple() {
    let html = "<div><p>Test</p></div>";
    let fixer = HtmlFixer::new();
    let result = fixer.fix(html);

    assert_eq!(result.matches("<div>").count(), result.matches("</div>").count());
    assert_eq!(result.matches("<p>").count(), result.matches("</p>").count());
}

#[test]
fn html_fixer_test_empty_document() {
    let html = "";
    let fixer = HtmlFixer::new();
    let result = fixer.fix(html);

    assert_eq!(result, "");
}

#[test]
fn html_fixer_test_preserve_attributes() {
    let html = "<div class=\"container\" id=\"main\"><p>Content</p>";
    let fixer = HtmlFixer::new();
    let result = fixer.fix(html);

    assert!(result.contains("class=\"container\""));
    assert!(result.contains("id=\"main\""));
    assert!(result.contains("</div>"));
}

#[test]
fn html_fixer_test_multiple_unclosed_paragraphs() {
    let html = "<p>First\n<p>Second\n<p>Third</p>";
    let fixer = HtmlFixer::new();
    let result = fixer.fix(html);

    assert_eq!(result.matches("<p>").count(), result.matches("</p>").count());
    assert!(result.contains("First"));
    assert!(result.contains("Second"));
    assert!(result.contains("Third"));
}

#[test]
fn html_fixer_test_orphaned_closing_tags() {
    let html = "<p>Text</p></div></div>";
    let fixer = HtmlFixer::new();
    let result = fixer.fix(html);

    // Opening and closing tags should be balanced
    assert_eq!(result.matches("<div>").count(), result.matches("</div>").count());
}

#[test]
fn html_fixer_test_preserve_code_blocks() {
    let html = "<p>Code: <code>let x = 5;</code>";
    let fixer = HtmlFixer::new();
    let result = fixer.fix(html);

    assert!(result.contains("<code>"));
    assert!(result.contains("</code>"));
    assert!(result.contains("let x = 5;"));
    assert!(result.contains("</p>"));
}

#[test]
fn html_fixer_test_semantic_elements_preserved() {
    let html = "<section><article><p>Content";
    let fixer = HtmlFixer::new();
    let result = fixer.fix(html);

    assert!(result.contains("<section>"));
    assert!(result.contains("</section>"));
    assert!(result.contains("<article>"));
    assert!(result.contains("</article>"));
    assert!(result.contains("<p>"));
    assert!(result.contains("</p>"));
}

#[test]
fn html_fixer_test_self_closing_tags_preserved() {
    let html = "<p>Image: <img src=\"test.jpg\" alt=\"test\"> End</p>";
    let fixer = HtmlFixer::new();
    let result = fixer.fix(html);

    assert!(result.contains("src=\"test.jpg\""));
    assert!(result.contains("alt=\"test\""));
    assert!(result.contains("</p>"));
}

#[test]
fn html_fixer_tests_test_close_unclosed_paragraph_tags() {
    let html = "<p>Some text\n<p>More text</p>";
    let fixer = HtmlFixer::new();
    let result = fixer.fix(html);

    // Should have balanced tags
    assert_eq!(result.matches("<p>").count(), result.matches("</p>").count());
    assert!(result.contains("Some text"));
    assert!(result.contains("More text"));
}

#[test]
fn html_fixer_tests_test_close_unclosed_tags_at_end() {
    let html = "<p>Paragraph text without closing tag";
    let fixer = HtmlFixer::new();
    let result = fixer.fix(html);

    assert!(result.contains("</p>"));
    assert_eq!(result.matches("<p>").count(), result.matches("</p>").count());
}

#[test]
fn html_fixer_tests_test_flatten_nested_paragraphs() {
    let html = "<p>Outer\n<p>Inner</p>\n</p>";
    let fixer = HtmlFixer::new();
    let result = fixer.fix(html);

    // Nested <p> should be converted to siblings
    assert!(!result.contains("<p>") || result.matches("<p>").count() == result.matches("</p>").count());
    assert!(result.contains("Outer"));
    assert!(result.contains("Inner"));
}

#[test]
fn html_fixer_tests_test_move_block_elements_out_of_paragraph() {
    let html = "<p>Text <div>Block content</div> More text</p>";
    let fixer = HtmlFixer::new();
    let result = fixer.fix(html);

    // Should properly close <p> before <div>
    assert!(result.contains("</p>"));
    assert!(result.contains("<div>"));
    assert!(result.contains("</div>"));
    assert!(result.contains("Text"));
    assert!(result.contains("Block content"));
    assert!(result.contains("More text"));
}

#[test]
fn html_fixer_tests_test_preserve_content_and_links() {
    let html = "<p>Check out <a href=\"http://example.com\">this link</a>";
    let fixer = HtmlFixer::new();
    let result = fixer.fix(html);

    assert!(result.contains("Check out"));
    assert!(result.contains("this link"));
    assert!(result.contains("http://example.com"));
    assert!(result.contains("</a>"));
    assert!(result.contains("</p>"));
}

#[test]
fn html_fixer_tests_test_balanced_tags_simple() {
    let html = "<div><p>Test</p></div>";
    let fixer = HtmlFixer::new();
    let result = fixer.fix(html);

    assert_eq!(result.matches("<div>").count(), result.matches("</div>").count());
    assert_eq!(result.matches("<p>").count(), result.matches("</p>").count());
}

#[test]
fn html_fixer_tests_test_empty_document() {
    let html = "";
    let fixer = HtmlFixer::new();
    let result = fixer.fix(html);

    assert_eq!(result, "");
}

#[test]
fn html_fixer_tests_test_preserve_attributes() {
    let html = "<div class=\"container\" id=\"main\"><p>Content</p>";
    let fixer = HtmlFixer::new();
    let result = fixer.fix(html);

    assert!(result.contains("class=\"container\""));
    assert!(result.contains("id=\"main\""));
    assert!(result.contains("</div>"));
}

#[test]
fn html_fixer_tests_test_multiple_unclosed_paragraphs() {
    let html = "<p>First\n<p>Second\n<p>Third</p>";
    let fixer = HtmlFixer::new();
    let result = fixer.fix(html);

    assert_eq!(result.matches("<p>").count(), result.matches("</p>").count());
    assert!(result.contains("First"));
    assert!(result.contains("Second"));
    assert!(result.contains("Third"));
}

#[test]
fn html_fixer_tests_test_orphaned_closing_tags() {
    let html = "<p>Text</p></div></div>";
    let fixer = HtmlFixer::new();
    let result = fixer.fix(html);

    // Opening and closing tags should be balanced
    assert_eq!(result.matches("<div>").count(), result.matches("</div>").count());
}

#[test]
fn html_fixer_tests_test_preserve_code_blocks() {
    let html = "<p>Code: <code>let x = 5;</code>";
    let fixer = HtmlFixer::new();
    let result = fixer.fix(html);

    assert!(result.contains("<code>"));
    assert!(result.contains("</code>"));
    assert!(result.contains("let x = 5;"));
    assert!(result.contains("</p>"));
}

#[test]
fn html_fixer_tests_test_semantic_elements_preserved() {
    let html = "<section><article><p>Content";
    let fixer = HtmlFixer::new();
    let result = fixer.fix(html);

    assert!(result.contains("<section>"));
    assert!(result.contains("</section>"));
    assert!(result.contains("<article>"));
    assert!(result.contains("</article>"));
    assert!(result.contains("<p>"));
    assert!(result.contains("</p>"));
}

#[test]
fn html_fixer_tests_test_self_closing_tags_preserved() {
    let html = "<p>Image: <img src=\"test.jpg\" alt=\"test\"> End</p>";
    let fixer = HtmlFixer::new();
    let result = fixer.fix(html);

    assert!(result.contains("src=\"test.jpg\""));
    assert!(result.contains("alt=\"test\""));
    assert!(result.contains("</p>"));
}

#[test]
fn fix_closes_previous_paragraph_before_new_one() {
    let fixer = HtmlFixer::new();
    assert_eq!(
        fixer.fix("<p>First paragraph\n<p>Second paragraph</p>"),
        "<p>First paragraph</p>\n<p>Second paragraph</p>"
    );
}

#[test]
fn fix_keeps_simple_balanced_document() {
    let fixer = HtmlFixer::new();
    assert_eq!(fixer.fix("<div><p>Test</p></div>"), "<div><p>Test</p></div>");
}

#[test]
fn fix_closes_paragraph_before_block() {
    let fixer = HtmlFixer::new();
    assert_eq!(
        fixer.fix("<p>Text <div>Block content</div> More text</p>"),
        "<p>Text</p> <div>Block content</div> More text"
    );
}

#[test]
fn fix_lowercases_tag_names() {
    let fixer = HtmlFixer::new();
    assert_eq!(fixer.fix("<P>a<P>b"), "<P>a</p><P>b</p>");
}

#[test]
fn fix_keeps_comments_void_and_self_closed_tags() {
    let fixer = HtmlFixer::new();
    assert_eq!(
        fixer.fix("<!-- note --><br/><img src=\"x.png\">text"),
        "<!-- note --><br/><img src=\"x.png\">text"
    );
}

#[test]
fn fix_leaves_text_without_tags_alone() {
    let fixer = HtmlFixer::new();
    assert_eq!(fixer.fix("a < b"), "a < b");
    assert_eq!(fixer.fix("x <> y"), "x <> y");
    // A `<` followed by text up to a later `>` reads as a tag.
    assert_eq!(fixer.fix("a < b and <> c"), "a < b and <> c</b>");
}

#[test]
fn fix_never_nests_paragraphs() {
    let fixer = HtmlFixer::new();
    assert_eq!(fixer.fix("<p>1<p>2<p>3"), "<p>1</p><p>2</p><p>3</p>");
}

#[test]
fn fix_closes_every_opened_element_once() {
    let fixer = HtmlFixer::new();
    assert_eq!(fixer.fix("<div><span>x"), "<div><span>x</span></div>");
}

#[test]
fn fix_matches_closing_tag_by_its_name() {
    let fixer = HtmlFixer::new();
    assert_eq!(fixer.fix("<div>a</div>b"), "<div>a</div>b");
    assert_eq!(fixer.fix("<DIV>a</Div>"), "<DIV>a</Div>");
    assert_eq!(fixer.fix("<div><span>a</div>"), "<div><span>a</span></div>");
    // `< /x>` opens an element named `/x`, which `</x>` does not close.
    assert_eq!(fixer.fix("< /x>a</x>"), "< /x>a<//x>");
}

#[test]
fn fix_moves_block_out_of_nested_paragraph() {
    let fixer = HtmlFixer::new();
    assert_eq!(fixer.fix("<p><span><div>x"), "<p><span></span></p><div>x</div>");
}

#[test]
fn fix_places_closings_before_trailing_whitespace() {
    let fixer = HtmlFixer::new();
    assert_eq!(fixer.fix("<p>x\n"), "<p>x</p>\n");
    assert_eq!(fixer.fix("<p>a \n<p>b"), "<p>a</p> \n<p>b</p>");
    assert_eq!(fixer.fix("<div><span>a \n</div>"), "<div><span>a</span> \n</div>");
}

#[test]
fn fix_drops_only_unmatched_closing_tags() {
    let fixer = HtmlFixer::new();
    assert_eq!(fixer.fix("<p>Text</p></div></div>"), "<p>Text</p>");
}

#[test]
fn fix_tag_spans_newlines() {
    let fixer = HtmlFixer::new();
    assert_eq!(fixer.fix("<a\nhref=\"u\">x"), "<a\nhref=\"u\">x</a>");
}

#[test]
fn fix_handles_non_ascii_text() {
    let fixer = HtmlFixer::new();
    assert_eq!(fixer.fix("<p>héllo — ✓"), "<p>héllo — ✓</p>");
}
