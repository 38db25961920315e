use text_reader::pagination::Row;
use text_reader::persist::{FieldValue, ProgressRecord, RawRecord};
use text_reader::session::{LoadState, Session};
use text_reader::store::{ProgressStore, RawStore, RawValue};

fn uniform_rows(count: usize, height: u64) -> Vec<Row> {
    (0..count).map(|i| Row { height, text: format!("r{}", i) }).collect()
}

fn ready_session_with_pages(page_count: usize) -> Session {
    let mut s = Session::new(ProgressStore::new());
    assert!(s.open_file("a.txt".to_string(), true, 10));
    s.text_ready("whatever".to_string());
    s.set_viewport(100, 16 + 10);
    // Each row of height 10 fills the 10 units left inside the viewport.
    s.apply_pagination(uniform_rows(page_count, 10));
    assert_eq!(s.pages.as_ref().unwrap().len(), page_count);
    s
}

#[test]
fn fresh_session_is_idle() {
    let s = Session::new(ProgressStore::new());
    assert_eq!(s.state, LoadState::Idle);
    assert!(s.file_path.is_none());
    assert_eq!(s.page, 0);
}

#[test]
fn opening_a_missing_path_changes_nothing() {
    let mut s = Session::new(ProgressStore::new());
    assert!(!s.open_file("gone.txt".to_string(), false, 10));
    assert_eq!(s.state, LoadState::Idle);
    assert!(s.file_path.is_none());
}

#[test]
fn opening_an_existing_path_starts_loading() {
    let mut s = Session::new(ProgressStore::new());
    assert!(s.open_file("a.txt".to_string(), true, 10));
    assert_eq!(s.state, LoadState::Loading);
    assert_eq!(s.file_path.as_deref(), Some("a.txt"));
    assert_eq!(s.page, 0);
    assert!(s.text.is_none());
    assert!(s.pages.is_none());
}

#[test]
fn text_ready_makes_session_ready() {
    let mut s = Session::new(ProgressStore::new());
    s.open_file("a.txt".to_string(), true, 10);
    s.text_ready("hello".to_string());
    assert_eq!(s.state, LoadState::Ready);
    assert_eq!(s.text.as_deref(), Some("hello"));
    assert!(s.pages.is_none());
    assert!(s.needs_repaginate());
}

#[test]
fn progress_restored_when_switching_back() {
    // Read up to page 3 in file A, switch to B, and come back to A.
    let mut s = Session::new(ProgressStore::new());
    s.open_file("a.txt".to_string(), true, 10);
    s.next_page();
    s.next_page();
    s.next_page();
    assert_eq!(s.page, 3);
    s.open_file("b.txt".to_string(), true, 20);
    assert_eq!(s.page, 0);
    assert_eq!(s.store.get(&"a.txt".to_string()).unwrap().page, 3);
    s.open_file("a.txt".to_string(), true, 30);
    assert_eq!(s.page, 3);
}

#[test]
fn resize_invalidates_pages_and_repagination_clamps() {
    // An 8-page document, read to page 5; the resized viewport fits only 4.
    let mut s = ready_session_with_pages(8);
    for _ in 0..5 {
        s.next_page();
    }
    assert_eq!(s.page, 5);
    s.set_viewport(100, 16 + 20);
    assert!(s.pages.is_none());
    assert_eq!(s.page, 5);
    assert!(s.needs_repaginate());
    // Two rows of height 10 now share a page: 4 pages remain.
    s.apply_pagination(uniform_rows(8, 10));
    assert_eq!(s.pages.as_ref().unwrap().len(), 4);
    assert_eq!(s.page, 3);
}

#[test]
fn unchanged_viewport_keeps_pages() {
    let mut s = ready_session_with_pages(3);
    s.set_viewport(100, 26);
    assert!(s.pages.is_some());
    assert!(!s.needs_repaginate());
}

#[test]
fn navigation_stays_in_range() {
    let mut s = ready_session_with_pages(4);
    assert_eq!(s.page, 0);
    s.prev_page();
    assert_eq!(s.page, 0);
    s.next_page();
    assert_eq!(s.page, 1);
    s.jump_forward();
    assert_eq!(s.page, 3);
    s.next_page();
    assert_eq!(s.page, 3);
    s.jump_back();
    assert_eq!(s.page, 0);
    s.last_page();
    assert_eq!(s.page, 3);
    s.first_page();
    assert_eq!(s.page, 0);
}

#[test]
fn last_lands_on_final_index() {
    let mut s = ready_session_with_pages(9);
    s.last_page();
    assert_eq!(s.page, 8);
    s.next_page();
    assert_eq!(s.page, 8);
}

#[test]
fn current_page_text_follows_the_index() {
    let mut s = ready_session_with_pages(3);
    assert_eq!(s.current_page_text().map(String::as_str), Some("r0\n"));
    s.next_page();
    assert_eq!(s.current_page_text().map(String::as_str), Some("r1\n"));
}

#[test]
fn no_page_text_without_pages() {
    let mut s = Session::new(ProgressStore::new());
    assert!(s.current_page_text().is_none());
    s.open_file("a.txt".to_string(), true, 10);
    assert!(s.current_page_text().is_none());
}

#[test]
fn record_current_persists_the_page() {
    let mut s = ready_session_with_pages(4);
    s.next_page();
    s.record_current(99);
    assert_eq!(
        s.store.get(&"a.txt".to_string()),
        Some(ProgressRecord { page: 1, readed_time: 99 })
    );
}

#[test]
fn record_current_without_file_changes_nothing() {
    let mut s = Session::new(ProgressStore::new());
    s.record_current(99);
    assert!(s.store.entries.is_empty());
}

#[test]
fn restore_reopens_saved_file_at_recorded_page() {
    let mut old = ProgressStore::new();
    old.set(&"a.txt".to_string(), 6, 40);
    let raw = old.save();
    let s = Session::restore(Some(&raw), Some("a.txt".to_string()), true, 50);
    assert_eq!(s.state, LoadState::Loading);
    assert_eq!(s.file_path.as_deref(), Some("a.txt"));
    assert_eq!(s.page, 6);
}

#[test]
fn restore_with_vanished_file_starts_idle() {
    let mut old = ProgressStore::new();
    old.set(&"a.txt".to_string(), 6, 40);
    let raw = old.save();
    let s = Session::restore(Some(&raw), Some("a.txt".to_string()), false, 50);
    assert_eq!(s.state, LoadState::Idle);
    assert!(s.file_path.is_none());
    assert_eq!(s.store.entries, old.entries);
}

#[test]
fn restore_with_corrupt_container_degrades_to_empty_store() {
    let s = Session::restore(None, None, false, 50);
    assert_eq!(s.state, LoadState::Idle);
    assert!(s.store.entries.is_empty());
}

#[test]
fn restore_skips_malformed_records() {
    let bad = RawRecord { fields: vec![("page".to_string(), FieldValue::Null)] };
    let raw = RawStore { entries: vec![("a.txt".to_string(), RawValue::Record(bad))] };
    let s = Session::restore(Some(&raw), Some("a.txt".to_string()), true, 50);
    // The malformed record failed to load, so the file opens at a fresh page 0.
    assert_eq!(s.page, 0);
    assert_eq!(s.store.get(&"a.txt".to_string()), Some(ProgressRecord { page: 0, readed_time: 50 }));
}
