use rustodo::error::TodoError;
use rustodo::record::{Archival, TodoRecord};
use rustodo::store::TodoStore;

fn store_with(texts: &[&str]) -> TodoStore {
    let mut store = TodoStore::new();
    let mut id: u128 = 1;
    for t in texts {
        store.create_with(id, 1000 + id as i64, String::from(*t)).unwrap();
        id += 1;
    }
    store
}

#[test]
fn create_with_assigns_fields() {
    let mut store = TodoStore::new();
    let rec = store.create_with(7, 907, String::from("buy milk")).unwrap();
    assert_eq!(rec.id, 7);
    assert_eq!(rec.text, "buy milk");
    assert!(!rec.done);
    assert_eq!(rec.date, 907);
    assert_eq!(rec.archival, Archival::Active);
    let rows = store.fetch_all();
    assert_eq!(rows.len(), 1);
    assert_eq!(rows[0].id, 7);
}

#[test]
fn create_with_rejects_taken_id() {
    let mut store = TodoStore::new();
    store.create_with(7, 907, String::from("one")).unwrap();
    let r = store.create_with(7, 908, String::from("two"));
    assert_eq!(r.unwrap_err(), TodoError::StoreError);
    assert_eq!(store.fetch_all().len(), 1);
}

#[test]
fn create_on_empty_store_succeeds() {
    let mut store = TodoStore::new();
    let rec = store.create(String::from("first note")).unwrap();
    assert_eq!(rec.text, "first note");
    assert!(!rec.done);
    assert_eq!(rec.archival, Archival::Active);
    assert_eq!(store.fetch_all().len(), 1);
}

#[test]
fn created_ids_are_distinct() {
    let mut store = TodoStore::new();
    let a = store.create(String::from("first")).unwrap();
    let b = store.create(String::from("second")).unwrap();
    let c = store.create(String::from("third")).unwrap();
    assert_ne!(a.id, b.id);
    assert_ne!(a.id, c.id);
    assert_ne!(b.id, c.id);
}

#[test]
fn complete_sets_and_clears_flag() {
    let mut store = store_with(&["one", "two"]);
    store.complete(1, true).unwrap();
    assert!(store.fetch_all()[0].done);
    assert!(!store.fetch_all()[1].done);
    store.complete(1, true).unwrap();
    assert!(store.fetch_all()[0].done);
    store.complete(1, false).unwrap();
    assert!(!store.fetch_all()[0].done);
}

#[test]
fn complete_unknown_id_is_not_found() {
    let mut store = store_with(&["one"]);
    assert_eq!(store.complete(99, true).unwrap_err(), TodoError::NotFound);
}

#[test]
fn complete_allowed_on_superseded_record() {
    let mut store = store_with(&["one"]);
    store.edit_with(1, 2, 2000, String::from("one revised")).unwrap();
    store.complete(1, true).unwrap();
    assert!(store.fetch_all()[0].done);
    assert_eq!(store.fetch_all()[0].archival, Archival::ReplacedBy(2));
}

#[test]
fn edit_links_old_record_to_new() {
    let mut store = store_with(&["buy milk"]);
    let new_rec = store.edit_with(1, 2, 2000, String::from("buy oat milk")).unwrap();
    assert_eq!(new_rec.id, 2);
    assert_eq!(new_rec.text, "buy oat milk");
    assert_eq!(new_rec.archival, Archival::Active);
    assert!(!new_rec.done);
    let rows = store.fetch_all();
    assert_eq!(rows.len(), 2);
    assert_eq!(rows[0].archival, Archival::ReplacedBy(2));
    assert_eq!(rows[0].text, "buy milk");
    assert_eq!(rows[1].id, 2);
    assert_eq!(rows[1].archival, Archival::Active);
}

#[test]
fn edit_unknown_id_changes_nothing() {
    let mut store = store_with(&["one"]);
    let r = store.edit_with(99, 2, 2000, String::from("nope"));
    assert_eq!(r.unwrap_err(), TodoError::NotFound);
    let rows = store.fetch_all();
    assert_eq!(rows.len(), 1);
    assert_eq!(rows[0].archival, Archival::Active);
}

#[test]
fn edit_taken_successor_changes_nothing() {
    let mut store = store_with(&["one", "two"]);
    let r = store.edit_with(1, 2, 2000, String::from("nope"));
    assert_eq!(r.unwrap_err(), TodoError::StoreError);
    let rows = store.fetch_all();
    assert_eq!(rows.len(), 2);
    assert_eq!(rows[0].archival, Archival::Active);
}

#[test]
fn edit_chain_over_generations() {
    let mut store = store_with(&["v1"]);
    store.edit_with(1, 2, 2000, String::from("v2")).unwrap();
    store.edit_with(2, 3, 3000, String::from("v3")).unwrap();
    let rows = store.fetch_all();
    assert_eq!(rows[0].archival, Archival::ReplacedBy(2));
    assert_eq!(rows[1].archival, Archival::ReplacedBy(3));
    assert_eq!(rows[2].archival, Archival::Active);
    assert_eq!(rows[2].text, "v3");
}

#[test]
fn update_archival_archives_a_record() {
    let mut store = store_with(&["one"]);
    store.update_archival(1, Archival::Archived).unwrap();
    assert_eq!(store.fetch_all()[0].archival, Archival::Archived);
}

#[test]
fn update_archival_unknown_id_is_not_found() {
    let mut store = store_with(&["one"]);
    assert_eq!(
        store.update_archival(99, Archival::Archived).unwrap_err(),
        TodoError::NotFound
    );
}

#[test]
fn from_records_accepts_well_formed_rows() {
    let rows = vec![
        TodoRecord {
            id: 1,
            text: String::from("old"),
            done: true,
            date: 100,
            archival: Archival::ReplacedBy(2),
        },
        TodoRecord {
            id: 2,
            text: String::from("new"),
            done: false,
            date: 200,
            archival: Archival::Active,
        },
    ];
    let store = TodoStore::from_records(rows).unwrap();
    assert_eq!(store.fetch_all().len(), 2);
}

#[test]
fn from_records_rejects_duplicate_ids() {
    let rows = vec![
        TodoRecord {
            id: 1,
            text: String::from("a"),
            done: false,
            date: 100,
            archival: Archival::Active,
        },
        TodoRecord {
            id: 1,
            text: String::from("b"),
            done: false,
            date: 200,
            archival: Archival::Active,
        },
    ];
    match TodoStore::from_records(rows) {
        Err(e) => assert_eq!(e, TodoError::DeserializationError),
        Ok(_) => panic!("duplicate ids must be rejected"),
    }
}

#[test]
fn from_records_rejects_dangling_pointer() {
    let rows = vec![TodoRecord {
        id: 1,
        text: String::from("a"),
        done: false,
        date: 100,
        archival: Archival::ReplacedBy(9),
    }];
    match TodoStore::from_records(rows) {
        Err(e) => assert_eq!(e, TodoError::DeserializationError),
        Ok(_) => panic!("a dangling pointer must be rejected"),
    }
}

#[test]
fn search_empty_needle_returns_all_in_fetch_order() {
    let store = store_with(&["alpha", "beta", "gamma"]);
    let found = store.search("", None);
    assert_eq!(found.len(), 3);
    assert_eq!(found[0].text, "alpha");
    assert_eq!(found[1].text, "beta");
    assert_eq!(found[2].text, "gamma");
}

#[test]
fn search_matches_note_text() {
    let store = store_with(&["buy milk", "walk dog", "buy bread"]);
    let found = store.search("buy", None);
    assert_eq!(found.len(), 2);
    assert_eq!(found[0].text, "buy milk");
    assert_eq!(found[1].text, "buy bread");
}

#[test]
fn search_matches_other_fields_too() {
    let store = store_with(&["one"]);
    let by_id = store.search("00000000-0000-0000-0000-000000000001", None);
    assert_eq!(by_id.len(), 1);
    let by_flag = store.search("false", None);
    assert_eq!(by_flag.len(), 1);
    let by_marker = store.search("No", None);
    assert_eq!(by_marker.len(), 1);
}

#[test]
fn search_cap_is_a_prefix_of_the_uncapped_result() {
    let store = store_with(&["buy milk", "walk dog", "buy bread", "buy eggs"]);
    let all = store.search("buy", None);
    let capped = store.search("buy", Some(2));
    assert_eq!(capped.len(), 2);
    assert_eq!(capped[0].text, all[0].text);
    assert_eq!(capped[1].text, all[1].text);
}

#[test]
fn search_cap_zero_returns_nothing() {
    let store = store_with(&["one", "two"]);
    assert!(store.search("", Some(0)).is_empty());
}

#[test]
fn search_cap_larger_than_matches() {
    let store = store_with(&["one", "two"]);
    assert_eq!(store.search("one", Some(10)).len(), 1);
}

#[test]
fn search_no_match_returns_nothing() {
    let store = store_with(&["one", "two"]);
    assert!(store.search("zebra", None).is_empty());
}
