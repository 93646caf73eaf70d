use rcl_core::directive::has_use_client_directive;

#[test]
fn single_quote_use_client() {
    assert!(has_use_client_directive(b"'use client'"));
}

#[test]
fn double_quote_use_client() {
    assert!(has_use_client_directive(b"\"use client\""));
}

#[test]
fn preceding_directive_use_strict() {
    assert!(has_use_client_directive(b"'use strict'\n'use client'"));
}

#[test]
fn non_directive_token_first() {
    assert!(!has_use_client_directive(b"const x=1\n'use client'"));
}

#[test]
fn line_comment_then_use_client() {
    assert!(has_use_client_directive(b"// comment\n'use client'"));
}

#[test]
fn block_comment_then_use_client() {
    assert!(has_use_client_directive(b"/* comment */'use client'"));
}

#[test]
fn plain_export_function() {
    assert!(!has_use_client_directive(b"export function F(){}"));
}

#[test]
fn escaped_space_not_matched() {
    // "use\u0020client" as raw bytes: u s e \ u 0 0 2 0 c l i e n t
    assert!(!has_use_client_directive(b"\"use\\u0020client\""));
}

#[test]
fn utf8_bom_then_use_client() {
    // UTF-8 BOM (EF BB BF) followed by 'use client'
    assert!(has_use_client_directive(b"\xEF\xBB\xBF'use client'"));
}

#[test]
fn whitespace_then_use_client() {
    assert!(has_use_client_directive(b"  \n\t'use client'"));
}

#[test]
fn semicolon_then_use_client() {
    assert!(has_use_client_directive(b";;'use client'"));
}

#[test]
fn jsx_before_directive() {
    assert!(!has_use_client_directive(b"<div/>;\n'use client'"));
}

#[test]
fn empty_file() {
    assert!(!has_use_client_directive(b""));
}

#[test]
fn only_whitespace() {
    assert!(!has_use_client_directive(b"   \n\t  "));
}

#[test]
fn use_client_not_at_start() {
    assert!(!has_use_client_directive(b"const x = 'use client'"));
}

#[test]
fn use_client_with_extra_text_after_quote() {
    // After the closing quote, there's extra text, but that's OK
    // The directive check only cares about the exact pattern at positions 0-11
    assert!(has_use_client_directive(b"'use client' extra"));
}

#[test]
fn block_comment_not_nested() {
    // Block comments don't nest; /* /* nested */ stops at first */
    // So this becomes: skip to first */, then 'use client' is not at start
    assert!(!has_use_client_directive(b"/* /* nested */ */'use client'"));
}

#[test]
fn multiple_line_comments() {
    assert!(has_use_client_directive(
        b"// comment1\n// comment2\n'use client'"
    ));
}

#[test]
fn long_line_comment_without_newline_scans_to_end() {
    assert!(!has_use_client_directive(b"// comment with no trailing newline"));
}

#[test]
fn slash_that_is_not_a_comment_stops_scanning() {
    assert!(!has_use_client_directive(b"/ not a comment"));
}

#[test]
fn unterminated_comments_and_strings_hold_no_directive() {
    assert!(!has_use_client_directive(b"/* 'use client'"));
    assert!(!has_use_client_directive(b"/*/ 'use client'"));
    assert!(!has_use_client_directive(b"'use strict\n\"use client\""));
    assert!(!has_use_client_directive(b"'use client\""));
}

#[test]
fn what_follows_the_directive_does_not_matter() {
    let source = b"/* a */ 'use strict'; \"use client\"";
    assert!(has_use_client_directive(source));
    let mut longer = source.to_vec();
    longer.extend_from_slice(b" } not even a program");
    assert!(has_use_client_directive(&longer));
}

#[test]
fn blanks_comments_and_other_strings_before_a_module_do_not_count() {
    for blanks in [
        "",
        " \n;",
        "// note\n",
        "/* a */ /* b */\n",
        "'use strict';",
        "\"it's\"",
        "'use  client'",
    ] {
        for (source, expected) in [("'use client';", true), ("const a = 1;", false)] {
            let whole = format!("{blanks}{source}");
            assert_eq!(has_use_client_directive(whole.as_bytes()), expected, "{whole}");
        }
    }
    assert!(has_use_client_directive("\u{feff}'use client'".as_bytes()));
    assert!(!has_use_client_directive(" \u{feff}'use client'".as_bytes()));
}
