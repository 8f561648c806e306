use p2m::tables::detect_heuristic::{
    find_first_table_row, has_consistent_columns, has_table_like_content, is_key_value_layout,
    is_paragraph_content, is_table_of_contents, join_cell_items, looks_like_number,
    looks_like_table_data, Mode,
};
use p2m::types::LineItem;
use p2m::tables::detect_lines::is_valid_grid_table;
use p2m::tables::detect_rects::{cluster_rects, find, is_valid_table, union};
use p2m::tables::format::{table_to_markdown, write_row};

fn grid(rows: &[&[&str]]) -> Vec<Vec<String>> {
    rows.iter()
        .map(|r| r.iter().map(|c| c.to_string()).collect())
        .collect()
}

#[test]
fn simple_2x2_table() {
    let cells = vec![
        vec!["A".to_string(), "B".to_string()],
        vec!["1".to_string(), "2".to_string()],
    ];
    let md = table_to_markdown(&cells);
    assert!(md.contains("|A"));
    assert!(md.contains("|B"));
    assert!(md.contains("---"));
    assert!(md.contains("|1"));
    assert!(md.contains("|2"));
}

#[test]
fn pipe_in_cell_is_escaped() {
    let cells = vec![
        vec!["Header".to_string(), "Col2".to_string()],
        vec!["a|b".to_string(), "c".to_string()],
    ];
    let md = table_to_markdown(&cells);
    assert!(md.contains(r"a\|b"));
}

#[test]
fn empty_table_returns_empty() {
    let cells: Vec<Vec<String>> = vec![];
    assert!(table_to_markdown(&cells).is_empty());
}

#[test]
fn table_markdown_exact_layout() {
    let cells = grid(&[&["Name", "Qty"], &["apple", "3"], &["a|b", ""]]);
    let md = table_to_markdown(&cells);
    assert_eq!(
        md,
        "|Name |Qty|\n|-----|---|\n|apple|3  |\n|a\\|b |   |\n"
    );
}

#[test]
fn table_without_columns_is_empty() {
    let cells = grid(&[&[], &["x"]]);
    assert_eq!(table_to_markdown(&cells), "");
}

#[test]
fn write_row_pads_and_defaults_width() {
    let mut out = String::from(">");
    let row = vec!["ab".to_string(), "c".to_string(), "é".to_string()];
    write_row(&mut out, &row, &[4]);
    // Third cell uses the default width 3; "é" is two bytes.
    assert_eq!(out, ">|ab  |c  |é |\n");
}

#[test]
fn union_find_merges_classes() {
    let mut parent: Vec<usize> = (0..5).collect();
    let mut rank: Vec<usize> = vec![0; 5];
    union(&mut parent, &mut rank, 0, 1);
    union(&mut parent, &mut rank, 3, 4);
    union(&mut parent, &mut rank, 1, 4);
    let r0 = find(&mut parent, 0);
    assert_eq!(find(&mut parent, 1), r0);
    assert_eq!(find(&mut parent, 3), r0);
    assert_eq!(find(&mut parent, 4), r0);
    assert_ne!(find(&mut parent, 2), r0);
    assert_eq!(find(&mut parent, 2), 2);
}

#[test]
fn union_by_rank_keeps_higher_root() {
    let mut parent: Vec<usize> = (0..3).collect();
    let mut rank: Vec<usize> = vec![0; 3];
    union(&mut parent, &mut rank, 0, 1);
    // Equal ranks: the first root stays and its rank grows.
    assert_eq!(parent, vec![0, 0, 2]);
    assert_eq!(rank, vec![1, 0, 0]);
    union(&mut parent, &mut rank, 2, 1);
    // Lower rank hangs under the higher one.
    assert_eq!(parent[2], 0);
    assert_eq!(rank, vec![1, 0, 0]);
}

#[test]
fn find_halves_paths() {
    let mut parent: Vec<usize> = vec![0, 0, 1, 2];
    assert_eq!(find(&mut parent, 3), 0);
    assert_eq!(parent, vec![0, 0, 1, 1]);
}

#[test]
fn valid_table_thresholds() {
    // 2 of 6 cells filled: 33% passes the 30% rect check.
    let cells = grid(&[&["a", "", ""], &["", "b", ""]]);
    assert!(is_valid_table(&cells));
    assert!(is_valid_grid_table(&cells));
    // 1 of 4 filled: 25% fails the rect check but passes the 20% line check.
    let sparse = grid(&[&["a", " "], &["", ""]]);
    assert!(!is_valid_table(&sparse));
    assert!(is_valid_grid_table(&sparse));
    // One row or one column is never a table.
    assert!(!is_valid_table(&grid(&[&["a", "b"]])));
    assert!(!is_valid_grid_table(&grid(&[&["a"], &["b"]])));
}

#[test]
fn numbers_and_table_data() {
    assert!(looks_like_number(" -1,234.5 "));
    assert!(!looks_like_number("+-.,"));
    assert!(!looks_like_number(""));
    assert!(looks_like_table_data("12/05/2024"));
    assert!(looks_like_table_data("AB12"));
    assert!(looks_like_table_data("5 V"));
    assert!(looks_like_table_data("(approx 3)"));
    assert!(looks_like_table_data("-40°C to 85°C"));
    assert!(!looks_like_table_data("Introduction"));
    assert!(!looks_like_table_data("   "));
}

#[test]
fn key_value_layout_detected() {
    let form = grid(&[
        &["Name:", "Alice", ""],
        &["ADDRESS", "Main St", ""],
        &["Phone:", "123", ""],
    ]);
    assert!(is_key_value_layout(&form));
    let table = grid(&[&["a", "b", "c"], &["1", "2", "3"], &["4", "5", "6"]]);
    assert!(!is_key_value_layout(&table));
}

#[test]
fn consistent_columns_cases() {
    let cells = grid(&[
        &["a", "b", "c", "", "", "", ""],
        &["1", "2", "3", "", "", "", ""],
        &["1", "", "", "", "", "", ""],
        &["x", "y", "z", "w", "v", "u", "t"],
    ]);
    // Counts 3, 3, 1, 7: mode 3, within 2: 3, 3, 1 → 3 of 4 > 40%.
    assert!(has_consistent_columns(&cells));
    let ragged = grid(&[
        &["a", "", "", "", "", "", "", ""],
        &["a", "b", "c", "d", "e", "", "", ""],
        &["a", "b", "c", "d", "e", "f", "g", "h"],
        &["a", "b", "c", "d", "e", "f", "g", "h"],
        &["a", "", "", "", "", "", "", ""],
    ]);
    // Counts 1, 5, 8, 8, 1: ties broken toward 8; within 2: 8, 8 → 2 of 5 = 40%, not more.
    assert!(!has_consistent_columns(&ragged));
    assert!(has_consistent_columns(&grid(&[&["a"], &[]])));
}

#[test]
fn table_like_content_cases() {
    let data = grid(&[&["Item", "Price"], &["Tea", "3.50"], &["Coffee", "4.00"]]);
    assert!(has_table_like_content(&data, Mode::SmallFont));
    let words = grid(&[
        &["Heading", "Other"],
        &["a rather long sentence of prose here", "and another long sentence of prose"],
    ]);
    assert!(!has_table_like_content(&words, Mode::BodyFont));
    let short = grid(&[&["Heading", "Other"], &["short", "words"]]);
    assert!(has_table_like_content(&short, Mode::BodyFont));
    assert!(!has_table_like_content(&short, Mode::SmallFont));
    assert!(!has_table_like_content(&grid(&[&["only", "header"]]), Mode::BodyFont));
}

#[test]
fn table_of_contents_detected() {
    let toc = grid(&[
        &["Introduction", ".........", "1"],
        &["Methods", "........", "5"],
        &["Results", ".......", "9"],
    ]);
    assert!(is_table_of_contents(&toc));
    let numbers = grid(&[&["1", "2", "3"], &["4", "5", "6"], &["7", "8", "9"]]);
    assert!(!is_table_of_contents(&numbers));
    assert!(!is_table_of_contents(&grid(&[&["", ""]])));
}

#[test]
fn paragraph_content_detected() {
    let prose = grid(&[
        &["The committee met to discuss the propo-", "x"],
        &["sal and agreed that the work would con-", "y"],
        &["tinue through the following year.", "z"],
    ]);
    assert!(is_paragraph_content(&prose));
    let table = grid(&[&["a", "1"], &["b", "2"], &["c", "3"]]);
    assert!(!is_paragraph_content(&table));
    let spaced = grid(&[&["T h e w o r d s", "a"], &["b", "c"]]);
    assert!(is_paragraph_content(&spaced));
}

#[test]
fn first_table_row_skips_form_rows() {
    let cells = grid(&[
        &["Report:", "", ""],
        &["Date: today", "", ""],
        &["Item", "Q1", "Q2"],
        &["Apples", "10", "12"],
    ]);
    assert_eq!(find_first_table_row(&cells), 2);
    let none = grid(&[&["Name:", "", "", "", ""]]);
    assert_eq!(find_first_table_row(&none), 0);
    assert_eq!(find_first_table_row(&[]), 0);
}

#[test]
fn rendered_lines_end_in_pipe() {
    let cells = grid(&[&["a b", "c"], &["d", ""], &["", "e f g h"]]);
    let md = table_to_markdown(&cells);
    assert!(!md.contains(" \n"));
    for line in md.lines() {
        assert!(line.ends_with('|'));
    }
}

fn cell_item(text: &str, attached: bool) -> LineItem {
    LineItem { text: text.to_string(), bold: false, italic: false, attached }
}

#[test]
fn cell_items_join_with_spaces_and_trim() {
    let items = vec![cell_item(" Total ", false), cell_item("  ", false), cell_item("revenue", false)];
    assert_eq!(join_cell_items(&items), "Total revenue");
}

#[test]
fn cell_items_join_hyphens_and_scripts_without_space() {
    let items = vec![
        cell_item("self-", false),
        cell_item("contained", false),
        cell_item("x", false),
        cell_item("2", true),
        cell_item("-", false),
        cell_item("-5", false),
    ];
    assert_eq!(join_cell_items(&items), "self-contained x2--5");
    assert_eq!(join_cell_items(&[]), "");
}

// ── Rectangle clustering ───────────────────────────────────────

/// A rectangle `(x, y, width, height)`.
type R = (f32, f32, f32, f32);

/// Rectangles overlap or lie within the adjacency tolerance of each other.
fn adjacent(a: R, b: R) -> bool {
    let tol = 2.0f32;
    let (al, ar) = (a.0.min(a.0 + a.2), a.0.max(a.0 + a.2));
    let (ab, at) = (a.1.min(a.1 + a.3), a.1.max(a.1 + a.3));
    let (bl, br) = (b.0.min(b.0 + b.2), b.0.max(b.0 + b.2));
    let (bb, bt) = (b.1.min(b.1 + b.3), b.1.max(b.1 + b.3));
    let h_gap = (al - br).max(bl - ar).max(0.0);
    let v_gap = (ab - bt).max(bb - at).max(0.0);
    h_gap <= tol && v_gap <= tol
}

/// The adjacent pairs `i < j`, in the order the clustering visits them.
fn adjacent_pairs(rects: &[R]) -> Vec<(usize, usize)> {
    let mut pairs = Vec::new();
    for i in 0..rects.len() {
        for j in (i + 1)..rects.len() {
            if adjacent(rects[i], rects[j]) {
                pairs.push((i, j));
            }
        }
    }
    pairs
}

#[test]
fn adjacent_rects_cluster_together() {
    let rects = [
        (0.0, 0.0, 100.0, 20.0),
        (0.0, 20.0, 100.0, 20.0),
        (0.0, 40.0, 100.0, 20.0),
        (200.0, 200.0, 50.0, 50.0), // isolated
    ];
    let clusters = cluster_rects(rects.len(), &adjacent_pairs(&rects));
    assert_eq!(clusters.len(), 2);
}

#[test]
fn non_overlapping_rects_separate() {
    let rects = [(0.0, 0.0, 10.0, 10.0), (100.0, 100.0, 10.0, 10.0)];
    let clusters = cluster_rects(rects.len(), &adjacent_pairs(&rects));
    assert_eq!(clusters.len(), 2);
}

#[test]
fn clusters_follow_chains_of_pairs() {
    // 0-3 and 3-5 chain; 1-2 pair; 4 alone.
    let clusters = cluster_rects(6, &[(0, 3), (1, 2), (3, 5)]);
    assert_eq!(clusters, vec![vec![0, 3, 5], vec![1, 2], vec![4]]);
    assert!(cluster_rects(0, &[]).is_empty());
    assert_eq!(cluster_rects(3, &[(2, 2)]), vec![vec![0], vec![1], vec![2]]);
}
