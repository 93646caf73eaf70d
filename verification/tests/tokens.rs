use rcl_core::document::SourceHost;
use rcl_core::documents::{
    document_path, find_open_text, latest_change_text, normalize_path_key, path_from_uri,
    path_has_extension, OpenDocument,
};
use rcl_core::tokens::{
    delta_encode, semantic_token_tuples, semantic_token_tuples_for_source_with_host,
    semantic_token_type_names, token_from_range, token_type_index,
};
use rcl_core::utf16::Utf16LineIndex;
use rcl_core::{Kind, Range, Usage};
use tower_lsp::lsp_types::Url;

struct EmptyHost;

impl SourceHost for EmptyHost {
    fn read_to_string(&self, _file_path: &str) -> Option<String> {
        None
    }
}

#[test]
fn token_type_indices_match_kind_order() {
    assert_eq!(token_type_index(Kind::Client), 0);
    assert_eq!(token_type_index(Kind::Server), 1);
}

#[test]
fn main_token_type_indices_match_kind_order() {
    let names = semantic_token_type_names();
    assert_eq!(names[token_type_index(Kind::Client) as usize], "rscClientComponent");
    assert_eq!(names[token_type_index(Kind::Server) as usize], "rscServerComponent");
}

#[test]
fn semantic_tokens_legend_lists_two_token_types_and_no_modifiers() {
    let names = semantic_token_type_names();

    assert_eq!(names.len(), 2);
    assert_eq!(names[0], "rscClientComponent");
    assert_eq!(names[1], "rscServerComponent");
}

#[test]
fn latest_change_text_returns_last_content_change() {
    let changes = vec!["OLD".to_string(), "NEW final".to_string()];

    let result = latest_change_text(changes);
    assert_eq!(result, Some("NEW final".to_string()));
}

#[test]
fn latest_change_text_handles_single_change() {
    let changes = vec!["only one".to_string()];

    let result = latest_change_text(changes);
    assert_eq!(result, Some("only one".to_string()));
}

#[test]
fn latest_change_text_handles_empty_changes() {
    let changes = vec![];
    let result = latest_change_text(changes);
    assert_eq!(result, None);
}

#[test]
fn path_from_uri_returns_disk_path_for_file_url() {
    let url = Url::from_file_path("/proj/src/page.tsx").expect("convert path to file URL");

    let result = path_from_uri(url.as_str());

    assert_eq!(result, "/proj/src/page.tsx");
}

#[test]
fn path_from_uri_returns_document_tsx_for_non_file_url_with_empty_path() {
    let url = Url::parse("untitled:").expect("parse empty untitled URL");
    assert!(url.to_file_path().is_err());
    assert!(url.path().is_empty());

    let result = path_from_uri(url.as_str());

    assert_eq!(result, "document.tsx");
}

#[test]
fn path_from_uri_returns_document_tsx_for_non_file_url_without_extension() {
    let url = Url::parse("untitled:Untitled-1").expect("parse untitled URL");
    assert!(url.to_file_path().is_err());

    let result = path_from_uri(url.as_str());

    assert_eq!(result, "document.tsx");
}

#[test]
fn path_from_uri_returns_path_for_non_file_url_with_extension() {
    let url = Url::parse("untitled:Untitled-1.tsx").expect("parse untitled URL");
    assert!(url.to_file_path().is_err());

    let result = path_from_uri(url.as_str());

    assert_eq!(result, "Untitled-1.tsx");
}

#[test]
fn file_paths_come_before_address_paths() {
    assert_eq!(document_path(Some("/a/b".to_string()), "c.tsx", false), "/a/b");
    assert_eq!(document_path(None, "/a/c.tsx", false), "/a/c.tsx");
    assert_eq!(document_path(None, "/a/c", false), "document.tsx");
    assert_eq!(document_path(None, "", false), "document.tsx");
}

#[test]
fn extensions_follow_a_name() {
    assert!(path_has_extension("a.tsx", false));
    assert!(path_has_extension("/x.y/a.", false));
    assert!(path_has_extension("a.tsx/", false));
    assert!(!path_has_extension("/x.y/a", false));
    assert!(!path_has_extension(".tsx", false));
    assert!(!path_has_extension("..", false));
    assert!(!path_has_extension("a/..", false));
    assert!(!path_has_extension("/", false));
    assert!(!path_has_extension("", false));
}

#[test]
fn normalize_path_key_replaces_backslashes_and_respects_platform_case() {
    let raw = "C:\\Users\\Mixed\\Case\\File.TSX";

    assert_eq!(normalize_path_key(raw, true), "c:/users/mixed/case/file.tsx");
    assert_eq!(normalize_path_key(raw, false), "C:/Users/Mixed/Case/File.TSX");
}

#[test]
fn open_documents_are_found_by_their_paths() {
    let documents = vec![
        OpenDocument {
            path: "/p/A.tsx".to_string(),
            text: "a".to_string(),
        },
        OpenDocument {
            path: "\\p\\b.tsx".to_string(),
            text: "b".to_string(),
        },
        OpenDocument {
            path: "/p/b.tsx".to_string(),
            text: "c".to_string(),
        },
    ];

    assert_eq!(find_open_text(&documents, "/p/b.tsx", false), Some("b"));
    assert_eq!(find_open_text(&documents, "/p/a.tsx", false), None);
    assert_eq!(find_open_text(&documents, "/p/a.tsx", true), Some("a"));
}

#[test]
fn token_from_range_returns_some_for_same_line_range() {
    let index = Utf16LineIndex::new("abc\ndefghi");

    let token = token_from_range(&index, Range { start: 4, end: 9 });

    assert_eq!(token, Some((1, 0, 5)));
}

#[test]
fn token_from_range_returns_none_for_multi_line_range() {
    let index = Utf16LineIndex::new("abc\ndefghi");

    let token = token_from_range(&index, Range { start: 1, end: 6 });

    assert_eq!(token, None);
}

#[test]
fn tokens_match_component_ranges() {
    let source = "'use client';\n\nexport function Button() {\n  return <Button />;\n}\n";

    let tokens = semantic_token_tuples_for_source_with_host("/p/entry.tsx", source, &EmptyHost);

    assert_eq!(tokens, vec![(2, 16, 6, 0), (3, 9, 7, 0), (3, 17, 2, 0)]);

    let sent = delta_encode(&tokens);
    assert_eq!(sent.len(), 3);
    assert_eq!(sent[0].delta_line, 2);
    assert_eq!(sent[0].delta_start, 16);
    assert_eq!(sent[0].length, 6);
    assert_eq!(sent[0].token_type, 0);

    assert_eq!(sent[1].delta_line, 1);
    assert_eq!(sent[1].delta_start, 9);
    assert_eq!(sent[1].length, 7);
    assert_eq!(sent[1].token_type, 0);

    assert_eq!(sent[2].delta_line, 0);
    assert_eq!(sent[2].delta_start, 8);
    assert_eq!(sent[2].length, 2);
    assert_eq!(sent[2].token_type, 0);
}

#[test]
fn tokens_come_in_order_and_are_found_again() {
    let index = Utf16LineIndex::new("abc\ndefghi\njk");
    let usages = vec![
        Usage {
            kind: Kind::Server,
            tag_name: "B".to_string(),
            source_file_path: "/p".to_string(),
            ranges: vec![
                Range { start: 11, end: 13 },
                Range { start: 2, end: 5 },
                Range { start: 6, end: 8 },
            ],
        },
        Usage {
            kind: Kind::Client,
            tag_name: "A".to_string(),
            source_file_path: "/p".to_string(),
            ranges: vec![Range { start: 6, end: 8 }, Range { start: 4, end: 5 }],
        },
    ];
    let tokens = semantic_token_tuples(&index, &usages);

    assert_eq!(
        tokens,
        vec![(1, 0, 1, 0), (1, 2, 2, 0), (1, 2, 2, 1), (2, 0, 2, 1)]
    );

    let mut line = 0;
    let mut character = 0;
    for (token, sent) in tokens.iter().zip(delta_encode(&tokens)) {
        character = if sent.delta_line == 0 {
            character + sent.delta_start
        } else {
            sent.delta_start
        };
        line += sent.delta_line;
        assert_eq!((line, character, sent.length, sent.token_type), *token);
    }
}
