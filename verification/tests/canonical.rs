use rcl_core::canonical::{normalize_path, serialize_canonical};
use rcl_core::{Kind, Range, Usage};

#[test]
fn test_normalize_path_windows_uppercase_drive() {
    assert_eq!(normalize_path("C:\\a\\b\\Page.tsx"), "c:/a/b/Page.tsx");
}

#[test]
fn test_normalize_path_posix() {
    assert_eq!(normalize_path("/home/user/Page.tsx"), "/home/user/Page.tsx");
}

#[test]
fn test_normalize_path_mixed_separators() {
    assert_eq!(normalize_path("D:\\Mixed/Path.tsx"), "d:/Mixed/Path.tsx");
}

#[test]
fn test_serialize_canonical_single_usage() {
    let mut usages = vec![Usage {
        kind: Kind::Client,
        tag_name: "A".to_string(),
        source_file_path: "/proj/A.tsx".to_string(),
        ranges: vec![Range { start: 1, end: 7 }],
    }];
    let result = serialize_canonical(&mut usages);
    assert_eq!(
        result,
        r#"[{"kind":"client","tagName":"A","sourceFilePath":"/proj/A.tsx","ranges":[{"start":1,"end":7}]}]"#
    );
}

#[test]
fn test_serialize_canonical_non_ascii_path() {
    let mut usages = vec![Usage {
        kind: Kind::Client,
        tag_name: "A".to_string(),
        source_file_path: "/프로젝트/A.tsx".to_string(),
        ranges: vec![Range { start: 1, end: 7 }],
    }];
    let result = serialize_canonical(&mut usages);
    // Should output raw UTF-8, not \u-escaped
    assert_eq!(
        result,
        r#"[{"kind":"client","tagName":"A","sourceFilePath":"/프로젝트/A.tsx","ranges":[{"start":1,"end":7}]}]"#
    );
}

#[test]
fn test_serialize_canonical_multiple_usages_in_order() {
    let mut usages = vec![
        Usage {
            kind: Kind::Server,
            tag_name: "A".to_string(),
            source_file_path: "/p/A.tsx".to_string(),
            ranges: vec![Range { start: 1, end: 7 }],
        },
        Usage {
            kind: Kind::Client,
            tag_name: "B".to_string(),
            source_file_path: "/p/B.tsx".to_string(),
            ranges: vec![Range { start: 24, end: 30 }],
        },
    ];
    let result = serialize_canonical(&mut usages);
    assert_eq!(
        result,
        r#"[{"kind":"server","tagName":"A","sourceFilePath":"/p/A.tsx","ranges":[{"start":1,"end":7}]},{"kind":"client","tagName":"B","sourceFilePath":"/p/B.tsx","ranges":[{"start":24,"end":30}]}]"#
    );
}

#[test]
fn test_serialize_canonical_dedup() {
    let mut usages = vec![
        Usage {
            kind: Kind::Client,
            tag_name: "A".to_string(),
            source_file_path: "/p/A.tsx".to_string(),
            ranges: vec![Range { start: 1, end: 7 }],
        },
        Usage {
            kind: Kind::Client,
            tag_name: "A".to_string(),
            source_file_path: "/p/A.tsx".to_string(),
            ranges: vec![Range { start: 1, end: 7 }],
        },
    ];
    let result = serialize_canonical(&mut usages);
    // Should only have one usage
    assert_eq!(
        result,
        r#"[{"kind":"client","tagName":"A","sourceFilePath":"/p/A.tsx","ranges":[{"start":1,"end":7}]}]"#
    );
}

#[test]
fn test_serialize_canonical_ranges_sorted_within_usage() {
    let mut usages = vec![Usage {
        kind: Kind::Server,
        tag_name: "A".to_string(),
        source_file_path: "/p/A.tsx".to_string(),
        ranges: vec![Range { start: 10, end: 12 }, Range { start: 1, end: 7 }],
    }];
    let result = serialize_canonical(&mut usages);
    assert_eq!(
        result,
        r#"[{"kind":"server","tagName":"A","sourceFilePath":"/p/A.tsx","ranges":[{"start":1,"end":7},{"start":10,"end":12}]}]"#
    );
}

#[test]
fn test_compare_tie_break_first_range_end() {
    let mut usages = vec![
        Usage {
            kind: Kind::Server,
            tag_name: "B".to_string(),
            source_file_path: "/p/X.tsx".to_string(),
            ranges: vec![Range { start: 1, end: 9 }],
        },
        Usage {
            kind: Kind::Server,
            tag_name: "A".to_string(),
            source_file_path: "/p/X.tsx".to_string(),
            ranges: vec![Range { start: 1, end: 7 }],
        },
    ];
    let result = serialize_canonical(&mut usages);
    // A (end=7) should come before B (end=9)
    assert!(result.contains(r#""tagName":"A""#));
    let a_pos = result.find(r#""tagName":"A""#).unwrap();
    let b_pos = result.find(r#""tagName":"B""#).unwrap();
    assert!(a_pos < b_pos);
}

#[test]
fn test_compare_tie_break_kind() {
    let mut usages = vec![
        Usage {
            kind: Kind::Server,
            tag_name: "A".to_string(),
            source_file_path: "/p/X.tsx".to_string(),
            ranges: vec![Range { start: 5, end: 6 }],
        },
        Usage {
            kind: Kind::Client,
            tag_name: "A".to_string(),
            source_file_path: "/p/X.tsx".to_string(),
            ranges: vec![Range { start: 5, end: 6 }],
        },
    ];
    let result = serialize_canonical(&mut usages);
    // client should come before server
    let client_pos = result.find(r#""kind":"client""#).unwrap();
    let server_pos = result.find(r#""kind":"server""#).unwrap();
    assert!(client_pos < server_pos);
}

#[test]
fn test_compare_tie_break_tag_name() {
    let mut usages = vec![
        Usage {
            kind: Kind::Server,
            tag_name: "Bbb".to_string(),
            source_file_path: "/p/X.tsx".to_string(),
            ranges: vec![Range { start: 5, end: 6 }],
        },
        Usage {
            kind: Kind::Server,
            tag_name: "Aaa".to_string(),
            source_file_path: "/p/X.tsx".to_string(),
            ranges: vec![Range { start: 5, end: 6 }],
        },
    ];
    let result = serialize_canonical(&mut usages);
    // Aaa should come before Bbb
    let aaa_pos = result.find(r#""tagName":"Aaa""#).unwrap();
    let bbb_pos = result.find(r#""tagName":"Bbb""#).unwrap();
    assert!(aaa_pos < bbb_pos);
}

#[test]
fn test_compare_tie_break_source_file_path() {
    let mut usages = vec![
        Usage {
            kind: Kind::Server,
            tag_name: "X".to_string(),
            source_file_path: "/p/B.tsx".to_string(),
            ranges: vec![Range { start: 5, end: 6 }],
        },
        Usage {
            kind: Kind::Server,
            tag_name: "X".to_string(),
            source_file_path: "/p/A.tsx".to_string(),
            ranges: vec![Range { start: 5, end: 6 }],
        },
    ];
    let result = serialize_canonical(&mut usages);
    // /p/A.tsx should come before /p/B.tsx
    let a_pos = result.find(r#""/p/A.tsx""#).unwrap();
    let b_pos = result.find(r#""/p/B.tsx""#).unwrap();
    assert!(a_pos < b_pos);
}

#[test]
fn test_compare_tie_break_subsequent_range_and_count() {
    let mut usages = vec![
        Usage {
            kind: Kind::Server,
            tag_name: "A".to_string(),
            source_file_path: "/p/X.tsx".to_string(),
            ranges: vec![Range { start: 5, end: 9 }, Range { start: 10, end: 12 }],
        },
        Usage {
            kind: Kind::Server,
            tag_name: "A".to_string(),
            source_file_path: "/p/X.tsx".to_string(),
            ranges: vec![Range { start: 5, end: 6 }, Range { start: 7, end: 9 }],
        },
        Usage {
            kind: Kind::Server,
            tag_name: "A".to_string(),
            source_file_path: "/p/X.tsx".to_string(),
            ranges: vec![Range { start: 5, end: 6 }],
        },
    ];
    let result = serialize_canonical(&mut usages);
    // Order should be: 1 range (5-6), 2 ranges (5-6, 7-9), 2 ranges (5-9, 10-12)
    let one_range = r#""ranges":[{"start":5,"end":6}]"#;
    let two_ranges_early = r#""ranges":[{"start":5,"end":6},{"start":7,"end":9}]"#;
    let two_ranges_late = r#""ranges":[{"start":5,"end":9},{"start":10,"end":12}]"#;

    let pos1 = result.find(one_range).unwrap();
    let pos2 = result.find(two_ranges_early).unwrap();
    let pos3 = result.find(two_ranges_late).unwrap();
    assert!(pos1 < pos2 && pos2 < pos3);
}

#[test]
fn test_compare_remaining_ranges_loop() {
    let mut usages = vec![
        Usage {
            kind: Kind::Server,
            tag_name: "A".to_string(),
            source_file_path: "/p/X.tsx".to_string(),
            ranges: vec![Range { start: 5, end: 6 }, Range { start: 8, end: 9 }],
        },
        Usage {
            kind: Kind::Server,
            tag_name: "A".to_string(),
            source_file_path: "/p/X.tsx".to_string(),
            ranges: vec![Range { start: 5, end: 6 }, Range { start: 7, end: 9 }],
        },
    ];
    let result = serialize_canonical(&mut usages);
    // Second range start 7 < 8, so second usage comes first
    let early = r#""ranges":[{"start":5,"end":6},{"start":7,"end":9}]"#;
    let late = r#""ranges":[{"start":5,"end":6},{"start":8,"end":9}]"#;
    let early_pos = result.find(early).unwrap();
    let late_pos = result.find(late).unwrap();
    assert!(early_pos < late_pos);
}

#[test]
fn test_compare_empty_ranges() {
    let mut usages = vec![
        Usage {
            kind: Kind::Server,
            tag_name: "Z".to_string(),
            source_file_path: "/p/X.tsx".to_string(),
            ranges: vec![Range { start: 1, end: 2 }],
        },
        Usage {
            kind: Kind::Server,
            tag_name: "Z".to_string(),
            source_file_path: "/p/X.tsx".to_string(),
            ranges: vec![],
        },
        Usage {
            kind: Kind::Client,
            tag_name: "Z".to_string(),
            source_file_path: "/p/X.tsx".to_string(),
            ranges: vec![],
        },
    ];
    let result = serialize_canonical(&mut usages);
    // Empty ranges sort before ranged ones, then by kind (client < server)
    let empty_client =
        r#"{"kind":"client","tagName":"Z","sourceFilePath":"/p/X.tsx","ranges":[]}"#;
    let empty_server =
        r#"{"kind":"server","tagName":"Z","sourceFilePath":"/p/X.tsx","ranges":[]}"#;
    let ranged = r#"{"kind":"server","tagName":"Z","sourceFilePath":"/p/X.tsx","ranges":[{"start":1,"end":2}]}"#;

    let client_pos = result.find(empty_client).unwrap();
    let server_pos = result.find(empty_server).unwrap();
    let ranged_pos = result.find(ranged).unwrap();
    assert!(client_pos < server_pos && server_pos < ranged_pos);
}

fn usage(tag_name: &str, start: u32, end: u32) -> Usage {
    Usage {
        kind: Kind::Client,
        tag_name: tag_name.to_string(),
        source_file_path: "/p/A.tsx".to_string(),
        ranges: vec![Range { start, end }],
    }
}

#[test]
fn texts_are_escaped() {
    let mut usages = vec![Usage {
        kind: Kind::Server,
        tag_name: "A\"\\\u{8}\t\n\u{c}\r\u{1}\u{1f}\u{7f}é".to_string(),
        source_file_path: "/p/A.tsx".to_string(),
        ranges: Vec::new(),
    }];

    assert_eq!(
        serialize_canonical(&mut usages),
        "[{\"kind\":\"server\",\"tagName\":\"A\\\"\\\\\\b\\t\\n\\f\\r\\u0001\\u001f\u{7f}é\",\"sourceFilePath\":\"/p/A.tsx\",\"ranges\":[]}]"
    );
}

#[test]
fn offsets_are_written_in_full() {
    let mut usages = vec![usage("A", 0, u32::MAX)];

    assert!(serialize_canonical(&mut usages).contains(r#"{"start":0,"end":4294967295}"#));
}

#[test]
fn order_and_duplicates_of_the_input_do_not_matter() {
    let mut first = vec![usage("A", 1, 2), usage("B", 1, 2), usage("C", 0, 9)];
    let mut second = vec![
        usage("C", 0, 9),
        usage("B", 1, 2),
        usage("A", 1, 2),
        usage("B", 1, 2),
    ];

    assert_eq!(serialize_canonical(&mut first), serialize_canonical(&mut second));
}

#[test]
fn given_usages_are_normalized_in_place() {
    let mut usages = vec![Usage {
        kind: Kind::Client,
        tag_name: "A".to_string(),
        source_file_path: "C:\\p\\A.tsx".to_string(),
        ranges: vec![Range { start: 9, end: 10 }, Range { start: 1, end: 2 }],
    }];
    let _ = serialize_canonical(&mut usages);

    assert_eq!(usages[0].source_file_path, "c:/p/A.tsx");
    assert_eq!(
        usages[0].ranges,
        vec![Range { start: 1, end: 2 }, Range { start: 9, end: 10 }]
    );
}

#[test]
fn normalizing_twice_changes_nothing() {
    for path in ["C:\\a\\b", "z:\\x", "/home/A", "", "A", "A:"] {
        let once = normalize_path(path);
        assert_eq!(normalize_path(&once), once);
    }
}

#[test]
fn kinds_have_their_words() {
    assert_eq!(Kind::Client.as_str(), "client");
    assert_eq!(Kind::Server.as_str(), "server");
}

#[test]
fn copies_of_usages_are_equal() {
    let usage = Usage {
        kind: Kind::Client,
        tag_name: "Card".to_string(),
        source_file_path: "/app/card.tsx".to_string(),
        ranges: vec![Range { start: 3, end: 8 }, Range { start: 12, end: 14 }],
    };
    assert_eq!(usage.clone(), usage);
}

#[test]
fn given_usages_come_into_canonical_order() {
    let usage = |tag_name: &str, end: u32| Usage {
        kind: Kind::Server,
        tag_name: tag_name.to_string(),
        source_file_path: "/p/X.tsx".to_string(),
        ranges: vec![Range { start: 1, end }],
    };
    let mut usages = vec![usage("B", 9), usage("A", 7), usage("B", 9)];
    let json = serialize_canonical(&mut usages);
    assert_eq!(usages, vec![usage("A", 7), usage("B", 9)]);

    assert_eq!(serialize_canonical(&mut usages), json);
    assert_eq!(usages, vec![usage("A", 7), usage("B", 9)]);
}

#[test]
fn order_of_ranges_does_not_matter() {
    let usage = |ranges: Vec<Range>| Usage {
        kind: Kind::Client,
        tag_name: "A".to_string(),
        source_file_path: "/p/X.tsx".to_string(),
        ranges,
    };
    let (first, second) = (Range { start: 1, end: 2 }, Range { start: 4, end: 6 });
    assert_eq!(
        serialize_canonical(&mut vec![usage(vec![second, first])]),
        serialize_canonical(&mut vec![usage(vec![first, second])])
    );
}
