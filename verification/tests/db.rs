use rsass::db::{get_unread_entries, insert_new_entries, mark_entry_as_read, Store, StoredEntry};
use rsass::feed::Entry;

fn sample_entry() -> Entry {
    Entry {
        html_url: String::from("some.url"),
        title: String::from("A Title to an Entry"),
        content: String::from("Content for an entry!"),
        feed: String::from("A Cool Blog"),
        guid: String::from("some-cool-guid"),
    }
}

#[test]
fn test_db_roundtrip() {
    let mut store = Store::new();
    let entry = sample_entry();
    insert_new_entries(&mut store, vec![entry.clone()]);
    let res = get_unread_entries(&store);
    let res_entry = res.first().expect("No element found in unread entries");

    assert_eq!(&entry, res_entry);
}

#[test]
fn test_read_unread() {
    let mut store = Store::new();
    let entry = sample_entry();
    insert_new_entries(&mut store, vec![entry.clone()]);
    mark_entry_as_read(&mut store, &entry.guid);
    let res: Vec<Entry> = get_unread_entries(&store);

    assert!(res.is_empty());
}

#[test]
fn test_reinsert() {
    let mut store = Store::new();
    let entry = sample_entry();
    insert_new_entries(&mut store, vec![entry.clone()]);
    insert_new_entries(&mut store, vec![entry.clone()]);
    let res: Vec<Entry> = get_unread_entries(&store);

    assert_eq!(res.len(), 1);
    assert_eq!(res.first().unwrap(), &entry)
}

#[test]
fn test_dedup_keeps_first_write() {
    let mut store = Store::new();
    let first = sample_entry();
    let mut second = sample_entry();
    second.title = String::from("Another Title, Same Guid");
    insert_new_entries(&mut store, vec![first.clone(), second]);
    let res = get_unread_entries(&store);

    assert_eq!(res.len(), 1);
    assert_eq!(res.first().unwrap(), &first);
}

#[test]
fn test_unread_set_stable_across_reinsert() {
    let mut store = Store::new();
    let entry = sample_entry();
    insert_new_entries(&mut store, vec![entry.clone()]);
    let before = get_unread_entries(&store);
    insert_new_entries(&mut store, vec![entry.clone()]);
    let after = get_unread_entries(&store);

    assert_eq!(before, after);
}

#[test]
fn test_mark_read_is_idempotent() {
    let mut store = Store::new();
    let entry = sample_entry();
    insert_new_entries(&mut store, vec![entry.clone()]);
    mark_entry_as_read(&mut store, &entry.guid);
    mark_entry_as_read(&mut store, &entry.guid);

    assert!(get_unread_entries(&store).is_empty());
}

#[test]
fn test_mark_read_excludes_after_reinsert() {
    let mut store = Store::new();
    let entry = sample_entry();
    insert_new_entries(&mut store, vec![entry.clone()]);
    mark_entry_as_read(&mut store, &entry.guid);
    insert_new_entries(&mut store, vec![entry.clone()]);

    assert!(get_unread_entries(&store).is_empty());
}

#[test]
fn test_mark_read_missing_guid_is_noop() {
    let mut store = Store::new();
    let entry = sample_entry();
    insert_new_entries(&mut store, vec![entry.clone()]);
    mark_entry_as_read(&mut store, &String::from("no-such-guid"));
    let res = get_unread_entries(&store);

    assert_eq!(res.len(), 1);
    assert_eq!(res.first().unwrap(), &entry);
}

#[test]
fn test_mark_read_only_touches_matching_guid() {
    let mut store = Store::new();
    let first = sample_entry();
    let mut second = sample_entry();
    second.guid = String::from("another-guid");
    second.title = String::from("Second Entry");
    insert_new_entries(&mut store, vec![first.clone(), second.clone()]);
    mark_entry_as_read(&mut store, &first.guid);
    let res = get_unread_entries(&store);

    assert_eq!(res.len(), 1);
    assert_eq!(res.first().unwrap(), &second);
}

#[test]
fn test_from_rows_keeps_read_flags_and_dedups() {
    let entry = sample_entry();
    let mut dup = sample_entry();
    dup.title = String::from("Duplicate Row");
    let mut other = sample_entry();
    other.guid = String::from("other-guid");
    let rows = vec![
        StoredEntry { entry: entry.clone(), read: true },
        StoredEntry { entry: dup, read: false },
        StoredEntry { entry: other.clone(), read: false },
    ];
    let store = Store::from_rows(rows);
    let res = get_unread_entries(&store);

    assert_eq!(store.rows().len(), 2);
    assert_eq!(res.len(), 1);
    assert_eq!(res.first().unwrap(), &other);
}
