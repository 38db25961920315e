use text_reader::pagination::{paginate, Row};

fn rows_of(heights: &[u64]) -> Vec<Row> {
    heights
        .iter()
        .enumerate()
        .map(|(i, h)| Row { height: *h, text: format!("line{}", i) })
        .collect()
}

fn uniform_rows(count: usize, height: u64, text: &str) -> Vec<Row> {
    (0..count).map(|_| Row { height, text: text.to_string() }).collect()
}

#[test]
fn empty_rows_give_no_pages() {
    let pages = paginate(&Vec::new(), 100);
    assert!(pages.is_empty());
    let pages = paginate(&Vec::new(), 0);
    assert!(pages.is_empty());
}

#[test]
fn scenario_25_rows_of_20_into_194() {
    // 9 rows of height 20 fit in 194 (180), a tenth would not (200).
    let rows = uniform_rows(25, 20, "x");
    let pages = paginate(&rows, 194);
    assert_eq!(pages.len(), 3);
    assert_eq!(pages[0], "x\n".repeat(9));
    assert_eq!(pages[1], "x\n".repeat(9));
    assert_eq!(pages[2], "x\n".repeat(7));
}

#[test]
fn concatenation_reproduces_rows_in_order() {
    let rows = rows_of(&[50, 60, 70, 10, 10, 200, 5]);
    let pages = paginate(&rows, 100);
    let joined: String = pages.concat();
    let expected: String = (0..7).map(|i| format!("line{}\n", i)).collect();
    assert_eq!(joined, expected);
}

#[test]
fn no_page_exceeds_height_except_single_oversized_row() {
    let heights = [50, 60, 70, 10, 10, 200, 5, 90, 90, 30];
    let rows = rows_of(&heights);
    let pages = paginate(&rows, 100);
    // Recover each page's heights from its line count.
    let mut next = 0usize;
    for page in &pages {
        let lines = page.matches('\n').count();
        let total: u64 = heights[next..next + lines].iter().sum();
        assert!(total <= 100 || (lines == 1 && heights[next] > 100));
        next += lines;
    }
    assert_eq!(next, heights.len());
}

#[test]
fn oversized_row_stands_alone() {
    let rows = rows_of(&[10, 300, 10]);
    let pages = paginate(&rows, 100);
    assert_eq!(pages, vec!["line0\n", "line1\n", "line2\n"]);
}

#[test]
fn repeated_runs_agree() {
    let rows = rows_of(&[12, 34, 56, 78, 90, 11, 13]);
    let first = paginate(&rows, 120);
    let second = paginate(&rows, 120);
    assert_eq!(first, second);
}

#[test]
fn zero_budget_puts_each_row_on_its_own_page() {
    let rows = rows_of(&[1, 1, 1]);
    let pages = paginate(&rows, 0);
    assert_eq!(pages.len(), 3);
}

#[test]
fn single_fitting_row_gives_one_page() {
    let rows = rows_of(&[40]);
    let pages = paginate(&rows, 100);
    assert_eq!(pages, vec!["line0\n"]);
}
