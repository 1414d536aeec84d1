use rustodo::record::{Archival, TodoRecord};
use rustodo::render::{render, sort_records};
use rustodo::store::TodoStore;

fn rec(id: u128, text: &str, done: bool, date: i64, archival: Archival) -> TodoRecord {
    TodoRecord { id, text: String::from(text), done, date, archival }
}

#[test]
fn render_is_deterministic() {
    let rows = vec![
        rec(1, "old", true, 100, Archival::ReplacedBy(2)),
        rec(2, "new", false, 200, Archival::Active),
    ];
    let first = render(&rows);
    let second = render(&rows);
    assert_eq!(first, second);
}

#[test]
fn render_does_not_mutate_its_input() {
    let rows = vec![rec(1, "note", true, 100, Archival::Active)];
    let _ = render(&rows);
    assert_eq!(rows[0].done, true);
    assert_eq!(rows[0].archival, Archival::Active);
    assert_eq!(rows[0].text, "note");
}

#[test]
fn render_shows_every_field() {
    let rows = vec![rec(1, "buy milk", false, 0, Archival::Active)];
    let out = render(&rows);
    assert!(out.contains("id"));
    assert!(out.contains("done"));
    assert!(out.contains("text"));
    assert!(out.contains("date"));
    assert!(out.contains("archived"));
    assert!(out.contains("00000000-0000-0000-0000-000000000001"));
    assert!(out.contains("[ ]"));
    assert!(out.contains("buy milk"));
    assert!(out.contains("1970-01-01"));
    assert!(out.contains("No"));
}

#[test]
fn render_marks_completed_records() {
    let rows = vec![rec(1, "note", true, 0, Archival::Active)];
    let out = render(&rows);
    assert!(out.contains("[X]"));
    assert!(!out.contains("[ ]"));
}

#[test]
fn render_shows_calendar_date_of_instant() {
    let rows = vec![rec(1, "note", false, 1_000_000_000, Archival::Active)];
    let out = render(&rows);
    assert!(out.contains("2001-09-09"));
}

#[test]
fn render_truncates_long_text_to_thirty_two_chars() {
    let long = "abcdefghijklmnopqrstuvwxyz0123456789";
    let rows = vec![rec(1, long, false, 0, Archival::Active)];
    let out = render(&rows);
    assert!(out.contains("abcdefghijklmnopqrstuvwxyz012345"));
    assert!(!out.contains("abcdefghijklmnopqrstuvwxyz0123456"));
}

#[test]
fn render_shows_successor_id_for_superseded_records() {
    let rows = vec![
        rec(1, "old", false, 100, Archival::ReplacedBy(2)),
        rec(2, "new", false, 200, Archival::Active),
    ];
    let out = render(&rows);
    assert!(out.contains("Replaced") == false);
    let succ = "00000000-0000-0000-0000-000000000002";
    assert_eq!(out.matches(succ).count(), 2);
}

#[test]
fn sort_puts_active_records_before_superseded_ones() {
    let rows = vec![
        rec(1, "old", false, 100, Archival::ReplacedBy(3)),
        rec(2, "kept", false, 50, Archival::Archived),
        rec(3, "new", false, 200, Archival::Active),
    ];
    let sorted = sort_records(&rows);
    assert_eq!(sorted[0].id, 3);
    assert_eq!(sorted[1].id, 2);
    assert_eq!(sorted[2].id, 1);
}

#[test]
fn sort_orders_equal_groups_by_date_ascending() {
    let rows = vec![
        rec(1, "late", false, 300, Archival::Active),
        rec(2, "early", false, 100, Archival::Active),
        rec(3, "middle", false, 200, Archival::Active),
    ];
    let sorted = sort_records(&rows);
    assert_eq!(sorted[0].id, 2);
    assert_eq!(sorted[1].id, 3);
    assert_eq!(sorted[2].id, 1);
}

#[test]
fn sort_orders_superseded_records_by_successor() {
    let rows = vec![
        rec(1, "points high", false, 100, Archival::ReplacedBy(9)),
        rec(2, "points low", false, 200, Archival::ReplacedBy(3)),
        rec(3, "new a", false, 300, Archival::Active),
        rec(9, "new b", false, 400, Archival::Active),
    ];
    let sorted = sort_records(&rows);
    assert_eq!(sorted[0].id, 3);
    assert_eq!(sorted[1].id, 9);
    assert_eq!(sorted[2].id, 2);
    assert_eq!(sorted[3].id, 1);
}

#[test]
fn sort_is_stable_for_equal_keys() {
    let rows = vec![
        rec(5, "first", false, 100, Archival::Active),
        rec(6, "second", true, 100, Archival::Active),
    ];
    let sorted = sort_records(&rows);
    assert_eq!(sorted[0].id, 5);
    assert_eq!(sorted[1].id, 6);
}

#[test]
fn scenario_create_complete_edit() {
    let mut store = TodoStore::new();
    let created = store.create(String::from("buy milk")).unwrap();
    let listing = render(store.fetch_all());
    assert_eq!(listing.matches("[ ]").count(), 1);
    assert!(listing.contains("buy milk"));
    assert!(listing.contains("No"));

    store.complete(created.id, true).unwrap();
    let listing = render(store.fetch_all());
    assert_eq!(listing.matches("[X]").count(), 1);
    assert_eq!(listing.matches("[ ]").count(), 0);

    let revised = store.edit(created.id, String::from("buy oat milk")).unwrap();
    let listing = render(store.fetch_all());
    let rows = store.fetch_all();
    assert_eq!(rows.len(), 2);
    assert_eq!(rows[0].archival, Archival::ReplacedBy(revised.id));
    assert_eq!(rows[1].archival, Archival::Active);
    assert!(listing.contains("buy oat milk"));
    assert_eq!(listing.matches("[ ]").count(), 1);
    assert_eq!(listing.matches("[X]").count(), 1);
}
