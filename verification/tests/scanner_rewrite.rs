//! Direct tests of the scanner and the rewrite engine on comment texts.

use no_eslint_disable_comments::rewriter::rewrite;
use no_eslint_disable_comments::rule::NoEslintDisableComments;
use no_eslint_disable_comments::scanner::{
    find_directive, find_eslint_comment_directive, is_whitespace_char, MatchResult,
};
use no_eslint_disable_comments::tokens::DirectiveKind;

#[test]
fn reports_disable_in_line_comment() {
    // The comment content of `// eslint-disable\nf();` is ` eslint-disable`.
    let text = " eslint-disable";
    let m = find_directive(text, true).expect("directive found");
    assert_eq!(m, MatchResult { kind: DirectiveKind::Disable, start: 8, end: 15 });
    assert_eq!(find_eslint_comment_directive(text, true), Some("disable"));
    assert_eq!(rewrite(text, DirectiveKind::Disable), " oxlint-disable");
}

#[test]
fn reports_disable_next_line_in_block_comment() {
    // The comment content of `/* eslint-disable-next-line */\nf();`.
    let text = " eslint-disable-next-line ";
    let m = find_directive(text, false).expect("directive found");
    assert_eq!(m.kind, DirectiveKind::DisableNextLine);
    assert_eq!(find_eslint_comment_directive(text, false), Some("disable-next-line"));
    assert_eq!(
        rewrite(text, DirectiveKind::DisableNextLine),
        " oxlint-disable-next-line "
    );
}

#[test]
fn target_namespace_is_not_reported() {
    // The comment content of `// oxlint-disable\nf();`.
    assert!(find_directive(" oxlint-disable", true).is_none());
}

#[test]
fn keeps_trailing_arguments() {
    // The comment content of `// eslint-disable no-use-before-define`.
    let text = " eslint-disable no-use-before-define";
    let m = find_directive(text, true).expect("directive found");
    assert_eq!(m.kind, DirectiveKind::Disable);
    assert_eq!(
        rewrite(text, DirectiveKind::Disable),
        " oxlint-disable no-use-before-define"
    );
}

#[test]
fn no_prefix_no_match() {
    assert!(find_directive("nothing to see here", true).is_none());
    assert!(find_directive("", true).is_none());
    assert!(find_directive("", false).is_none());
}

#[test]
fn prefix_without_keyword_is_no_match() {
    assert!(find_directive(" eslint-enable", true).is_none());
    assert!(find_directive(" eslint-", true).is_none());
}

#[test]
fn longest_keyword_wins() {
    let m = find_directive(" eslint-disable-next-line", true).expect("directive found");
    assert_eq!(m.kind, DirectiveKind::DisableNextLine);
    assert_eq!(m.start, 8);
    assert_eq!(m.end, 25);
}

#[test]
fn anchoring_rejects_text_before_prefix() {
    assert!(find_directive("code(); eslint-disable", true).is_none());
    assert!(find_directive("x eslint-disable", true).is_none());
    assert!(find_directive("\u{e9} eslint-disable", true).is_none());
}

#[test]
fn lead_characters_depend_on_comment_shape() {
    // A `*` continuation marker is allowed in a block comment only.
    assert!(find_directive(" * eslint-disable", false).is_some());
    assert!(find_directive(" * eslint-disable", true).is_none());
    // A further `/` is allowed in both shapes.
    assert!(find_directive("/ eslint-disable", true).is_some());
    assert!(find_directive("/ eslint-disable", false).is_some());
}

#[test]
fn only_the_last_line_is_inspected() {
    assert!(find_directive("eslint-disable\nf();", true).is_none());
    let m = find_directive(" first line\n * eslint-disable ", false).expect("directive found");
    assert_eq!(m.kind, DirectiveKind::Disable);
    assert_eq!(m.start, 22);
    assert!(find_directive(" eslint-disable\n", true).is_none());
}

#[test]
fn offsets_count_characters_before_multibyte_text() {
    let text = "h\u{e9}llo\n eslint-disable";
    let m = find_directive(text, false).expect("directive found");
    assert_eq!(m.kind, DirectiveKind::Disable);
    assert_eq!(m.start, 14);
    assert_eq!(find_eslint_comment_directive(text, false), Some("disable"));
}

#[test]
fn unicode_whitespace_may_lead() {
    assert!(find_directive("\u{a0}\u{2003}eslint-disable", true).is_some());
}

#[test]
fn whitespace_model_matches_std() {
    for u in 0..0x3001u32 {
        if let Some(c) = char::from_u32(u) {
            assert_eq!(is_whitespace_char(c), c.is_whitespace());
        }
    }
}

#[test]
fn rewrite_without_occurrence_returns_text_unchanged() {
    assert_eq!(rewrite("no directive here", DirectiveKind::Disable), "no directive here");
    assert_eq!(rewrite("", DirectiveKind::DisableNextLine), "");
}

#[test]
fn rewrite_replaces_only_the_first_occurrence() {
    assert_eq!(
        rewrite("eslint-disable eslint-disable", DirectiveKind::Disable),
        "oxlint-disable eslint-disable"
    );
}

#[test]
fn rewritten_text_scans_clean() {
    let text = " eslint-disable no-console";
    let rule = NoEslintDisableComments;
    let (kind, fixed) = rule.check_comment(text, true).expect("directive found");
    assert_eq!(kind, DirectiveKind::Disable);
    assert!(rule.check_comment(&fixed, true).is_none());
    assert_eq!(rewrite(&fixed, kind), fixed);
}

#[test]
fn diagnostic_texts() {
    let rule = NoEslintDisableComments;
    assert_eq!(rule.warn_message(), "Detected eslint disable comment");
    assert_eq!(
        rule.help_message(DirectiveKind::Disable),
        "Prefer oxlint-disable instead of eslint-disable"
    );
    assert_eq!(
        rule.help_message(DirectiveKind::DisableNextLine),
        "Prefer oxlint-disable-next-line instead of eslint-disable-next-line"
    );
}
