use std::collections::{HashMap, HashSet};

use p2m::markdown::analysis::{bold_heading_level, has_dot_leaders};
use p2m::markdown::convert::{
    count_table_columns, merge_continuation_tables, resolve_line_struct_role,
    struct_role_heading_level,
};
use p2m::markdown::postprocess::{
    clean_markdown, collapse_consecutive_spaces, collapse_dot_leaders, fix_hyphenation,
    format_urls, is_page_number_line, remove_page_numbers, safe_char_boundary,
};
use p2m::markdown::preprocess::{
    effective_heading_level,
    is_decorative_separator, is_structural_line, normalize_for_comparison, normalize_whitespace,
};
use p2m::pdf::structure_tree::StructRole;

#[test]
fn dot_leaders_collapse() {
    assert_eq!(collapse_dot_leaders("Intro........5"), "Intro ... 5");
    assert_eq!(collapse_dot_leaders("a...b"), "a...b");
    assert_eq!(collapse_dot_leaders("...."), " ... ");
    assert!(!collapse_dot_leaders("x.......y.....z").contains("...."));
}

#[test]
fn spaced_hyphens_joined() {
    assert_eq!(fix_hyphenation("infor - mation"), "infor-mation");
    assert_eq!(fix_hyphenation("a - b - c"), "a-b - c");
    assert_eq!(fix_hyphenation("5 - 6"), "5 - 6");
    assert_eq!(fix_hyphenation("São - Paulo"), "São-Paulo");
}

#[test]
fn page_number_lines() {
    assert!(is_page_number_line("12"));
    assert!(!is_page_number_line("12345"));
    assert!(is_page_number_line("Page 3"));
    assert!(is_page_number_line("PAGE 3 OF 10"));
    assert!(is_page_number_line("page of"));
    assert!(is_page_number_line("3 of 10"));
    assert!(is_page_number_line("- 7 -"));
    assert!(!is_page_number_line("Chapter 1"));
    assert!(!is_page_number_line("Pages of history"));
    assert!(!is_page_number_line(""));
}

#[test]
fn page_numbers_removed() {
    assert_eq!(remove_page_numbers("Text\n\n12\n\nMore"), "Text\n\n\nMore");
    assert_eq!(remove_page_numbers("End of page\n7\n---\nNext"), "End of page\n---\nNext");
    assert_eq!(remove_page_numbers("Total\n42 apples"), "Total\n42 apples");
    assert_eq!(remove_page_numbers("Item\n3\nmore text"), "Item\n3\nmore text");
}

#[test]
fn urls_linked() {
    assert_eq!(
        format_urls("see https://example.com/a."),
        "see [https://example.com/a](https://example.com/a)."
    );
    assert_eq!(format_urls("[x](https://a.b/c)"), "[x](https://a.b/c)");
    assert_eq!(format_urls("[https://a.b/c](https://a.b/c)"), "[https://a.b/c](https://a.b/c)");
    assert_eq!(format_urls("http://x (y)"), "http://x (y)");
    assert_eq!(format_urls("http://xy (y)"), "[http://xy](http://xy) (y)");
    assert_eq!(format_urls("https://a"), "https://a");
    assert_eq!(format_urls("no links here"), "no links here");
}

#[test]
fn spaces_collapsed() {
    let mut t = "a  b   c\n  x  y".to_string();
    collapse_consecutive_spaces(&mut t);
    assert_eq!(t, "a b c\n  x y");
    let mut t = "\n\na".to_string();
    collapse_consecutive_spaces(&mut t);
    assert_eq!(t, "\n\na");
    let mut t = "\na  b".to_string();
    collapse_consecutive_spaces(&mut t);
    assert_eq!(t, "\na b");
    let mut t = "a\t\tb".to_string();
    collapse_consecutive_spaces(&mut t);
    assert_eq!(t, "a\t\tb");
}

#[test]
fn char_boundaries() {
    assert_eq!(safe_char_boundary("aé", 2, true), 3);
    assert_eq!(safe_char_boundary("aé", 2, false), 1);
    assert_eq!(safe_char_boundary("aé", 1, true), 1);
    assert_eq!(safe_char_boundary("aé", 5, true), 5);
}

#[test]
fn clean_markdown_pass() {
    let out = clean_markdown("Title\n\n\n\nBody  text....... 5\n".to_string(), true, true, true);
    assert_eq!(out, "Title\n\nBody text ... 5\n");
    let out = clean_markdown("  \n".to_string(), false, false, false);
    assert_eq!(out, "\n");
    let out = clean_markdown("go to https://x.org now\n\n3\n".to_string(), true, true, true);
    assert_eq!(out, "go to [https://x.org](https://x.org) now\n");
    let kept = clean_markdown("go to https://x.org now\n\n3\n".to_string(), false, false, false);
    assert_eq!(kept, "go to https://x.org now\n\n3\n");
}

#[test]
fn whitespace_normalised() {
    assert_eq!(normalize_whitespace("  a \t b\nc "), "a b c");
    assert_eq!(normalize_whitespace(""), "");
    assert_eq!(normalize_for_comparison("12  Annual Report  2023"), "Annual Report");
    assert_eq!(normalize_for_comparison("2023"), "");
}

#[test]
fn structural_and_decorative_lines() {
    assert!(is_structural_line("  # Title"));
    assert!(is_structural_line("- item"));
    assert!(is_structural_line("• x"));
    assert!(is_structural_line("1. First"));
    assert!(is_structural_line("2) Second"));
    assert!(!is_structural_line("2023 was good"));
    assert!(!is_structural_line("plain"));
    assert!(is_decorative_separator("-----"));
    assert!(is_decorative_separator("="));
    assert!(!is_decorative_separator(""));
    assert!(!is_decorative_separator("-=-"));
}

#[test]
fn dot_leader_lines() {
    assert!(has_dot_leaders("Intro .... 5"));
    assert!(has_dot_leaders("a ... b ... c"));
    assert!(!has_dot_leaders("a ... b"));
    assert!(!has_dot_leaders("no dots"));
}

#[test]
fn bold_heading_levels() {
    assert_eq!(bold_heading_level(0), 2);
    assert_eq!(bold_heading_level(1), 2);
    assert_eq!(bold_heading_level(3), 4);
    assert_eq!(bold_heading_level(9), 6);
}

#[test]
fn table_column_counts() {
    assert_eq!(count_table_columns("|A|B|\n|---|---|\n|1|2|\n"), 2);
    assert_eq!(count_table_columns("no table"), 0);
    assert_eq!(count_table_columns("|a|\n|x|"), 0);
    assert_eq!(count_table_columns("|a|\n---"), 0);
}

#[test]
fn heading_roles() {
    assert_eq!(struct_role_heading_level(&StructRole::H), Some(1));
    assert_eq!(struct_role_heading_level(&StructRole::H3), Some(3));
    assert_eq!(struct_role_heading_level(&StructRole::H6), Some(6));
    assert_eq!(struct_role_heading_level(&StructRole::Span), None);
    let mut roles = HashMap::new();
    roles.insert(1i64, StructRole::Span);
    roles.insert(2i64, StructRole::H2);
    roles.insert(3i64, StructRole::LI);
    assert_eq!(resolve_line_struct_role(&[None, Some(1), Some(2)], &roles), Some(StructRole::H2));
    assert_eq!(resolve_line_struct_role(&[Some(3), Some(2)], &roles), Some(StructRole::LI));
    assert_eq!(resolve_line_struct_role(&[Some(1), Some(9)], &roles), None);
}

#[test]
fn clean_markdown_ends_with_one_line_feed() {
    let inputs = ["", "a\n\n\n\n\nb", "x\n\n\n", "  Page 2\n\nbody  \n\n\n\n"];
    for input in inputs {
        let out = clean_markdown(input.to_string(), true, true, true);
        assert!(out.ends_with('\n'));
        assert!(!out.contains("\n\n\n"));
    }
}

#[test]
fn text_without_markers_is_untouched() {
    assert_eq!(fix_hyphenation("state-of-the-art and x -y"), "state-of-the-art and x -y");
    assert_eq!(collapse_dot_leaders("one... two..."), "one... two...");
    assert_eq!(format_urls("ftp://example.org"), "ftp://example.org");
}

#[test]
fn normalizing_twice_is_normalizing_once() {
    for s in ["  a \t b\nc ", "", "one", " x  y  "] {
        let once = normalize_whitespace(s);
        assert_eq!(normalize_whitespace(&once), once);
    }
}

#[test]
fn continued_tables_merge() {
    let mut pages = vec![
        (1u32, vec!["|A|B|\n|---|---|\n|1|2|\n".to_string()]),
        (2u32, vec!["|A|B|\n|---|---|\n|3|4|\n".to_string()]),
        (3u32, vec!["|X|\n|---|\n|9|\n".to_string()]),
        (5u32, vec!["|X|\n|---|\n|8|\n".to_string()]),
    ];
    let only: HashSet<u32> = [1u32, 2, 3, 5].into_iter().collect();
    merge_continuation_tables(&mut pages, &only);
    assert_eq!(pages.len(), 3);
    assert_eq!(pages[0].0, 1);
    assert_eq!(pages[0].1, vec!["|A|B|\n|---|---|\n|1|2|\n|3|4|\n".to_string()]);
    assert_eq!(pages[1].0, 3);
    assert_eq!(pages[2].0, 5);

    // A page that is not table-only is never merged.
    let mut pages = vec![
        (1u32, vec!["|A|\n|---|\n|1|\n".to_string()]),
        (2u32, vec!["|A|\n|---|\n|2|\n".to_string()]),
    ];
    let only: HashSet<u32> = [1u32].into_iter().collect();
    merge_continuation_tables(&mut pages, &only);
    assert_eq!(pages.len(), 2);
}

#[test]
fn heading_level_prefers_structure_tree() {
    let mut roles = HashMap::new();
    roles.insert(1i64, StructRole::Span);
    roles.insert(2i64, StructRole::H3);
    roles.insert(3i64, StructRole::H1);
    // The first item tagged as a heading decides.
    assert_eq!(effective_heading_level(&[None, Some(1), Some(2), Some(3)], Some(&roles), Some(1)), Some(3));
    // No heading tag: the font-size level.
    assert_eq!(effective_heading_level(&[Some(1), Some(9)], Some(&roles), Some(2)), Some(2));
    assert_eq!(effective_heading_level(&[Some(1)], Some(&roles), None), None);
    // No roles on the page.
    assert_eq!(effective_heading_level(&[Some(2)], None, Some(4)), Some(4));
    let mut h = HashMap::new();
    h.insert(5i64, StructRole::H);
    assert_eq!(effective_heading_level(&[Some(5)], Some(&h), None), Some(1));
}
