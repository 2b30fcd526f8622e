//! The rule exercised on whole source snippets: the first comment of each
//! snippet is handed to the library the way a lint host would, and the
//! suggested fix is spliced back into the snippet.

use no_eslint_disable_comments::rule::NoEslintDisableComments;
use no_eslint_disable_comments::scanner::find_eslint_comment_directive;

/// Returns the byte range of the first comment's content in `src` and
/// whether it is a single-line comment, mirroring how a lint host exposes a
/// comment's content span with the delimiters excluded.
fn first_comment(src: &str) -> Option<(usize, usize, bool)> {
    if src.starts_with("//") {
        let end = src.find('\n').unwrap_or(src.len());
        Some((2, end, true))
    } else if src.starts_with("/*") {
        let end = src.find("*/").expect("unterminated block comment");
        Some((2, end, false))
    } else {
        None
    }
}

#[test]
fn test() {
    let pass = vec![
        "function foo() { const a = 2 }",
        "// oxlint-disable\n            f();\n            function f() {}",
        "/* oxlint-disable */\n            f();\n            function f() {}",
        "/* oxlint-disable no-use-before-define */\n            f();\n            function f() {}",
        "// oxlint-disable no-use-before-define\n            f();\n            function f() {}",
        "/* oxlint-disable-next-line */\n            f();\n            function f() {}",
        "// oxlint-disable no-use-before-define\n            f();\n            function f() {}",
    ];

    let fail = vec![
        "// eslint-disable\n            f();\n            function f() {}",
        "/* eslint-disable */\n            f();\n            function f() {}",
        "// eslint-disable no-use-before-define\n            f();\n            function f() {}",
        "/* eslint-disable no-use-before-define */\n            f();\n            function f() {}",
        "/* eslint-disable-next-line */\n            f();\n            function f() {}",
        "// eslint-disable-next-line\n            f();\n            function f() {}",
    ];

    let fix = vec![
        (
            "// eslint-disable\n            f();\n            function f() {}",
            "// oxlint-disable\n            f();\n            function f() {}",
        ),
        (
            "/* eslint-disable */\n            f();\n            function f() {}",
            "/* oxlint-disable */\n            f();\n            function f() {}",
        ),
        (
            "// eslint-disable no-use-before-define\n            f();\n            function f() {}",
            "// oxlint-disable no-use-before-define\n            f();\n            function f() {}",
        ),
        (
            "/* eslint-disable no-use-before-define */\n            f();\n            function f() {}",
            "/* oxlint-disable no-use-before-define */\n            f();\n            function f() {}",
        ),
        (
            "/* eslint-disable-next-line */\n            f();\n            function f() {}",
            "/* oxlint-disable-next-line */\n            f();\n            function f() {}",
        ),
        (
            "// eslint-disable-next-line\n            f();\n            function f() {}",
            "// oxlint-disable-next-line\n            f();\n            function f() {}",
        ),
    ];

    let rule = NoEslintDisableComments;

    for src in pass {
        if let Some((start, end, single_line)) = first_comment(src) {
            assert!(find_eslint_comment_directive(&src[start..end], single_line).is_none());
            assert!(rule.check_comment(&src[start..end], single_line).is_none());
        }
    }

    for src in fail {
        let (start, end, single_line) = first_comment(src).expect("snippet has a comment");
        assert!(find_eslint_comment_directive(&src[start..end], single_line).is_some());
    }

    for (src, expected) in fix {
        let (start, end, single_line) = first_comment(src).expect("snippet has a comment");
        let (_, fixed) = rule
            .check_comment(&src[start..end], single_line)
            .expect("snippet carries a directive");
        let out = format!("{}{}{}", &src[..start], fixed, &src[end..]);
        assert_eq!(out, expected);
    }
}
