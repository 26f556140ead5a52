use houndlens::syntax_check::{
    check_bracket_balance, check_common_issues, check_file, check_html_attributes, check_html_tags,
    check_python_indentation, check_vue_syntax, html_tag_scan_completes, select_frontend, FileCheck, FrontendOutcome,
    SyntaxError, SyntaxSeverity,
};

fn summary(errors: &[SyntaxError]) -> Vec<(u32, u32, String)> {
    errors.iter().map(|e| (e.line, e.col, e.message.clone())).collect()
}

#[test]
fn brackets_mismatched_and_unclosed() {
    let mut errors = Vec::new();
    check_bracket_balance("a.rs", "fn main() {\n    let x = (1 + 2;\n}\n", &mut errors);
    assert_eq!(
        summary(&errors),
        vec![
            (3, 1, "Mismatched bracket: '}' at line 3 closes '(' from line 2:13".to_string()),
            (1, 11, "Unclosed '{' at line 1:11".to_string()),
        ]
    );
    assert!(errors.iter().all(|e| e.file == "a.rs" && e.severity == SyntaxSeverity::Error));
}

#[test]
fn brackets_unexpected_closer() {
    let mut errors = Vec::new();
    check_bracket_balance("a.js", "a)", &mut errors);
    assert_eq!(summary(&errors), vec![(1, 2, "Unexpected closing ')' with no matching opener".to_string())]);
}

#[test]
fn brackets_in_strings_and_comments_are_ignored() {
    let mut errors = Vec::new();
    check_bracket_balance("a.js", "let s = \"(\\\"\"; // )\n/* [ */ x = `{`\n# (\nf(a[0], {b: 1})\n", &mut errors);
    assert!(errors.is_empty());
}

#[test]
fn brackets_plain_text_has_no_errors() {
    let mut errors = Vec::new();
    check_bracket_balance("notes.txt", "just words, numbers 1 2 3 and * / # symbols\n", &mut errors);
    assert!(errors.is_empty());
}

#[test]
fn python_mixed_line() {
    let mut errors = Vec::new();
    check_python_indentation("m.py", "def f():\n\t  return 1\n", &mut errors);
    assert_eq!(summary(&errors), vec![(2, 1, "Mixed tabs and spaces in indentation".to_string())]);
    assert_eq!(errors[0].severity, SyntaxSeverity::Error);
}

#[test]
fn python_mixed_file() {
    let mut errors = Vec::new();
    check_python_indentation("m.py", "if x:\n\ty = 1\nif z:\n    w = 2\n\n   \n", &mut errors);
    assert_eq!(summary(&errors), vec![(0, 0, "File mixes tab and space indentation".to_string())]);
    assert_eq!(errors[0].severity, SyntaxSeverity::Warning);
}

#[test]
fn python_without_tabs_is_clean() {
    let mut errors = Vec::new();
    check_python_indentation("m.py", "def f():\n    if x:\n        return 1\n", &mut errors);
    assert!(errors.is_empty());
}

#[test]
fn html_unclosed_inner_tag() {
    let mut errors = Vec::new();
    check_html_tags("p.html", "<div>\n  <span class=\"a\">\n</div>\n", &mut errors);
    assert_eq!(summary(&errors), vec![(2, 0, "Unclosed <span>".to_string())]);
}

#[test]
fn html_void_and_self_closing_tags() {
    let mut errors = Vec::new();
    check_html_tags("p.html", "<div>\n<br>\n<img src=\"x\">\n<my-comp />\n</div>\n", &mut errors);
    assert!(errors.is_empty());
}

#[test]
fn html_root_sections_are_skipped() {
    let mut errors = Vec::new();
    check_html_tags("c.vue", "<template>\n  <div></div>\n</template>\n<script>\n</script>\n", &mut errors);
    assert!(errors.is_empty());
}

#[test]
fn html_open_tag_without_end_cannot_be_scanned() {
    assert!(!html_tag_scan_completes("c.vue", "<div class"));
    assert!(html_tag_scan_completes("c.vue", "<div class=\"x\">"));
    assert!(html_tag_scan_completes("c.vue", "<div"));
}

#[test]
fn html_attribute_problems() {
    let mut errors = Vec::new();
    check_html_attributes("c.vue", "<comp / show-empty>\n<a =\"x\">\n// a / b\n", &mut errors);
    assert_eq!(
        summary(&errors),
        vec![
            (1, 7, "Malformed tag: '/' followed by space — did you mean '/>' (self-closing)?".to_string()),
            (2, 0, "Attribute value without attribute name".to_string()),
        ]
    );
}

#[test]
fn attribute_column_counts_bytes() {
    let mut errors = Vec::new();
    check_html_attributes("c.vue", "<é / x>", &mut errors);
    assert_eq!(summary(&errors)[0].1, 5);
}

#[test]
fn common_issues_by_extension() {
    let mut errors = Vec::new();
    check_common_issues("a.py", b"def f(:\n\t  pass\n", "py", &mut errors);
    assert_eq!(errors.len(), 2);
    assert_eq!(errors[0].message, "Unclosed '(' at line 1:6");
    assert_eq!(errors[1].message, "Mixed tabs and spaces in indentation");
    let mut errors = Vec::new();
    check_common_issues("a.rs", b"fn f(\n\t  x\n", "rs", &mut errors);
    assert_eq!(errors.len(), 1);
}

#[test]
fn vue_checks_tags_then_attributes() {
    let mut errors = Vec::new();
    check_vue_syntax("c.vue", b"<div>\n<p =\"x\">\n</div>\n", &mut errors);
    assert_eq!(
        summary(&errors),
        vec![(2, 0, "Unclosed <p>".to_string()), (2, 0, "Attribute value without attribute name".to_string())]
    );
}

#[test]
fn check_file_outcomes() {
    let mut errors = Vec::new();
    let r = check_file("x.rs", b"fn f() {}", "rs", &FrontendOutcome::Failed("unexpected token".to_string()), &mut errors);
    assert_eq!(r, FileCheck::Done);
    assert_eq!(summary(&errors), vec![(0, 0, "Parse error: unexpected token".to_string())]);

    let mut errors = Vec::new();
    let r = check_file("x.rs", b"fn f() {", "rs", &FrontendOutcome::Parsed, &mut errors);
    assert_eq!(r, FileCheck::Done);
    assert_eq!(summary(&errors), vec![(1, 8, "Unclosed '{' at line 1:8".to_string())]);

    let mut errors = Vec::new();
    let r = check_file("x.txt", b"fn f() {", "txt", &FrontendOutcome::NoFrontend, &mut errors);
    assert_eq!(r, FileCheck::Done);
    assert!(errors.is_empty());

    let mut errors = Vec::new();
    let r = check_file("c.vue", b"<div>\n<span>\n</div>\n", "vue", &FrontendOutcome::NoFrontend, &mut errors);
    assert_eq!(r, FileCheck::Done);
    assert_eq!(summary(&errors), vec![(2, 0, "Unclosed <span>".to_string())]);

    let mut errors = Vec::new();
    let r = check_file("c.vue", b"<div class", "vue", &FrontendOutcome::Parsed, &mut errors);
    assert_eq!(r, FileCheck::TagScanOverrun);
    assert!(errors.is_empty());
}

#[test]
fn check_file_decodes_invalid_utf8_lossily() {
    let mut errors = Vec::new();
    let r = check_file("x.js", &[0xff, b'(', b'\n'], "js", &FrontendOutcome::Parsed, &mut errors);
    assert_eq!(r, FileCheck::Done);
    assert_eq!(summary(&errors), vec![(1, 2, "Unclosed '(' at line 1:2".to_string())]);
}

#[test]
fn frontend_selection_by_extension() {
    let exts = vec![
        vec!["rs".to_string()],
        vec!["ts".to_string(), "tsx".to_string(), "js".to_string()],
        vec!["js".to_string(), "mjs".to_string()],
    ];
    assert_eq!(select_frontend(&exts, "rs"), Some(0));
    assert_eq!(select_frontend(&exts, "js"), Some(1));
    assert_eq!(select_frontend(&exts, "mjs"), Some(2));
    assert_eq!(select_frontend(&exts, "py"), None);
    assert_eq!(select_frontend(&exts, ""), None);
}

#[test]
fn html_tags_must_start_with_a_letter() {
    let mut errors = Vec::new();
    check_html_tags("p.html", "<div>\n<2x>\n<é>\n</div>\n", &mut errors);
    assert_eq!(summary(&errors), vec![(3, 0, "Unclosed <é>".to_string())]);
}

#[test]
fn html_tags_left_open_at_the_end() {
    let mut errors = Vec::new();
    check_html_tags("a.html", "<div>", &mut errors);
    assert_eq!(summary(&errors), vec![(1, 0, "Unclosed <div>".to_string())]);
    assert_eq!(errors[0].file, "a.html");
    assert_eq!(errors[0].severity, SyntaxSeverity::Error);
    let mut errors = Vec::new();
    check_html_tags("a.html", "<ul>\n  <li>one\n  <li>two\n", &mut errors);
    assert_eq!(
        summary(&errors),
        vec![
            (3, 0, "Unclosed <li>".to_string()),
            (2, 0, "Unclosed <li>".to_string()),
            (1, 0, "Unclosed <ul>".to_string()),
        ]
    );
}
