use motion_core::workspace::{
    decode_cn_helper, detect_newline, find_import_insertion_index, has_tailwind_import,
    merge_tailwind_tokens, split_token_bundle, text_contains, trim_token_body, WorkspaceError,
};

#[test]
fn find_import_insertion_index_handles_edge_cases() {
    assert_eq!(find_import_insertion_index(""), 0);
    assert_eq!(find_import_insertion_index("\n\n"), 0);
    assert_eq!(find_import_insertion_index("body {}"), 0);
    assert_eq!(find_import_insertion_index("@import 'a';"), 12);
    assert_eq!(find_import_insertion_index("@import 'a';\n"), 13);
    assert_eq!(find_import_insertion_index("code {}\n@import 'b';"), 20);
}

#[test]
fn split_token_bundle_separates_import_line() {
    let (line, body) = split_token_bundle("@import \"tailwindcss\";\nbody {}\n");
    assert_eq!(line, Some("@import \"tailwindcss\";".to_string()));
    assert_eq!(body, "body {}\n");

    let (line, body) = split_token_bundle("body {}");
    assert!(line.is_none());
    assert_eq!(body, "body {}");
}

#[test]
fn trim_token_body_strips_blank_padding() {
    assert_eq!(trim_token_body("\n\nbody {}\n\n"), "body {}");
    assert_eq!(trim_token_body("\r\n\r\n"), "");
}

#[test]
fn detect_newline_prefers_crlf() {
    assert_eq!(detect_newline("a\r\nb"), "\r\n");
    assert_eq!(detect_newline("a\nb"), "\n");
}

#[test]
fn has_tailwind_import_spots_the_line() {
    assert!(has_tailwind_import("@import \"tailwindcss\";\nbody {}"));
    assert!(!has_tailwind_import("@import 'other';\nbody {}"));
}

#[test]
fn merge_appends_tokens_after_imports() {
    let merged = merge_tailwind_tokens(
        "@import \"tailwindcss\";\n\nbody { color: inherit; }\n",
        "@import \"tailwindcss\";\n\n@utility card-highlight {\n    color: inherit;\n}\n",
    )
    .expect("merged");
    assert!(merged.contains("@utility card-highlight"));
    assert!(merged.contains("body { color: inherit; }"));
    // the import is not duplicated
    assert_eq!(merged.matches("@import \"tailwindcss\";").count(), 1);
}

#[test]
fn merge_handles_minified_stylesheets() {
    let merged = merge_tailwind_tokens(
        "@import \"tailwindcss\";body{color:red}",
        "@import \"tailwindcss\";\n\n@utility card-highlight {}\n",
    )
    .expect("merged");
    assert!(merged.contains("@utility card-highlight"));
    assert!(merged.contains("body{color:red}"));
}

#[test]
fn merge_rejects_empty_token_body() {
    let err = merge_tailwind_tokens("body {}", "\n\n").expect_err("empty body");
    assert!(matches!(err, WorkspaceError::TailwindTokensEmpty));
}

#[test]
fn decode_cn_helper_requires_utf8() {
    assert_eq!(decode_cn_helper(b"export const x = 1;".to_vec()).ok(), Some(
        "export const x = 1;".to_string(),
    ));
    assert!(decode_cn_helper(vec![0xFF, 0xFE, 0x00, 0x00]).is_err());
}

#[test]
fn text_contains_finds_substrings() {
    assert!(text_contains("@utility card-highlight {}", "card-highlight"));
    assert!(!text_contains("body {}", "card-highlight"));
}

#[test]
fn merge_keeps_crlf_convention() {
    let merged = merge_tailwind_tokens(
        "@import \"tailwindcss\";\r\n\r\nbody {}\r\n",
        "@utility card-highlight {}\n",
    )
    .expect("merged");
    assert!(merged.contains("@utility card-highlight {}\r\n"));
}

