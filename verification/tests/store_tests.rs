use crisis_store::record::{contains_str, CrisisUpdate, CrisisUpdatePayload, Error};
use crisis_store::store::{create_fits, update_fits, Store};

fn payload(title: &str, description: &str, location: &str) -> CrisisUpdatePayload {
    CrisisUpdatePayload {
        title: title.to_string(),
        description: description.to_string(),
        location: location.to_string(),
    }
}

fn create(store: &mut Store, title: &str, location: &str, caller: &str, now: u64) -> CrisisUpdate {
    store
        .add_crisis_update(
            payload(title, "a description long enough", location),
            caller.to_string(),
            now,
        )
        .expect("create should succeed")
}

#[test]
fn create_assigns_increasing_ids_from_zero() {
    let mut store = Store::new();
    let a = create(&mut store, "one", "Lagos", "A", 1);
    let b = create(&mut store, "two", "Lagos", "A", 2);
    let c = create(&mut store, "three", "Lagos", "A", 3);
    assert_eq!(a.id, 0);
    assert_eq!(b.id, 1);
    assert_eq!(c.id, 2);
}

#[test]
fn ids_survive_a_restart_and_never_repeat() {
    let mut store = Store::new();
    let a = create(&mut store, "one", "Lagos", "A", 1);
    let b = create(&mut store, "two", "Lagos", "A", 2);
    let mut store = store.restart();
    let c = create(&mut store, "three", "Lagos", "A", 3);
    assert_eq!((a.id, b.id, c.id), (0, 1, 2));
    // deletion does not free the id either
    store.delete_crisis_update(c.id, "A".to_string()).expect("delete should succeed");
    let d = create(&mut store, "four", "Lagos", "A", 4);
    assert_eq!(d.id, 3);
}

#[test]
fn records_survive_a_restart() {
    let mut store = Store::new();
    let a = create(&mut store, "one", "Nairobi", "A", 11);
    let store = store.restart();
    let read = store.get_crisis_update(a.id).expect("read after restart");
    assert_eq!(read.title, "one");
    assert_eq!(read.location, "Nairobi");
    assert_eq!(read.author, "A");
    assert_eq!(read.created_at, 11);
    assert_eq!(read.timestamp, None);
}

#[test]
fn create_then_read_round_trips() {
    let mut store = Store::new();
    let made = store
        .add_crisis_update(
            payload("Flood", "Heavy flooding reported downtown", "Lagos"),
            "A".to_string(),
            7,
        )
        .expect("create should succeed");
    let read = store.get_crisis_update(made.id).expect("read should succeed");
    assert_eq!(read.id, made.id);
    assert_eq!(read.title, made.title);
    assert_eq!(read.author, made.author);
    assert_eq!(read.description, made.description);
    assert_eq!(read.location, made.location);
    assert_eq!(read.timestamp, made.timestamp);
    assert_eq!(read.created_at, made.created_at);
}

#[test]
fn round_trip_keeps_non_ascii_text() {
    let mut store = Store::new();
    let made = store
        .add_crisis_update(
            payload("Überschwemmung", "inondation sévère au centre-ville", "Näirobi 🌊"),
            "operator-à".to_string(),
            9,
        )
        .expect("create should succeed");
    let read = store.get_crisis_update(made.id).expect("read should succeed");
    assert_eq!(read.title, "Überschwemmung");
    assert_eq!(read.description, "inondation sévère au centre-ville");
    assert_eq!(read.location, "Näirobi 🌊");
    assert_eq!(read.author, "operator-à");
}

#[test]
fn read_of_missing_id_is_not_found() {
    let store = Store::new();
    match store.get_crisis_update(42) {
        Err(Error::NotFound { msg }) => {
            assert_eq!(msg, "a crisis update with the given id was not found");
        }
        _ => panic!("expected NotFound"),
    }
}

#[test]
fn update_by_non_author_fails_and_changes_nothing() {
    let mut store = Store::new();
    let a = create(&mut store, "one", "Lagos", "A", 1);
    let r = store.update_crisis_update(
        a.id,
        payload("changed", "another long description", "Accra"),
        "B".to_string(),
        5,
    );
    match r {
        Err(Error::AuthenticationFailed { msg }) => {
            assert_eq!(msg, "caller is not the author of the crisis update");
        }
        _ => panic!("expected AuthenticationFailed"),
    }
    let read = store.get_crisis_update(a.id).expect("record should remain");
    assert_eq!(read.title, "one");
    assert_eq!(read.location, "Lagos");
    assert_eq!(read.timestamp, None);
}

#[test]
fn update_with_invalid_payload_fails_and_changes_nothing() {
    let mut store = Store::new();
    let a = create(&mut store, "one", "Lagos", "A", 1);
    let r = store.update_crisis_update(
        a.id,
        payload("changed", "abc", "Accra"),
        "A".to_string(),
        5,
    );
    match r {
        Err(Error::InputValidationFailed { msg }) => {
            assert_eq!(msg, "description must be at least 10 characters long");
        }
        _ => panic!("expected InputValidationFailed"),
    }
    let read = store.get_crisis_update(a.id).expect("record should remain");
    assert_eq!(read.title, "one");
    assert_eq!(read.timestamp, None);
}

#[test]
fn update_by_author_replaces_fields_and_sets_timestamp() {
    let mut store = Store::new();
    let a = create(&mut store, "one", "Lagos", "A", 1);
    let updated = store
        .update_crisis_update(
            a.id,
            payload("two", "a fresh long description", "Accra"),
            "A".to_string(),
            99,
        )
        .expect("update should succeed");
    assert_eq!(updated.id, a.id);
    assert_eq!(updated.title, "two");
    assert_eq!(updated.location, "Accra");
    assert_eq!(updated.author, "A");
    assert_eq!(updated.created_at, 1);
    assert_eq!(updated.timestamp, Some(99));
    let read = store.get_crisis_update(a.id).expect("read should succeed");
    assert_eq!(read.timestamp, Some(99));
    assert_eq!(read.title, "two");
}

#[test]
fn update_of_missing_id_is_not_found() {
    let mut store = Store::new();
    match store.update_crisis_update(
        7,
        payload("t", "a long enough text", "LL"),
        "A".to_string(),
        1,
    ) {
        Err(Error::NotFound { .. }) => {}
        _ => panic!("expected NotFound"),
    }
}

#[test]
fn delete_by_author_removes_delete_by_other_keeps() {
    let mut store = Store::new();
    let a = create(&mut store, "one", "Lagos", "A", 1);
    match store.delete_crisis_update(a.id, "B".to_string()) {
        Err(Error::AuthenticationFailed { .. }) => {}
        _ => panic!("expected AuthenticationFailed"),
    }
    assert!(store.get_crisis_update(a.id).is_ok());
    let removed = store.delete_crisis_update(a.id, "A".to_string()).expect("delete by author");
    assert_eq!(removed.id, a.id);
    assert_eq!(removed.title, "one");
    match store.get_crisis_update(a.id) {
        Err(Error::NotFound { .. }) => {}
        _ => panic!("expected NotFound after delete"),
    }
    match store.delete_crisis_update(a.id, "A".to_string()) {
        Err(Error::NotFound { .. }) => {}
        _ => panic!("expected NotFound for a deleted id"),
    }
}

#[test]
fn validation_boundaries() {
    let mut store = Store::new();
    // title must have at least 1 character
    match store.add_crisis_update(payload("", "a long enough text", "LL"), "A".to_string(), 1) {
        Err(Error::InputValidationFailed { msg }) => {
            assert_eq!(msg, "title must be at least 1 character long");
        }
        _ => panic!("expected InputValidationFailed"),
    }
    // description must have at least 10 characters: 9 fails, 10 passes
    match store.add_crisis_update(payload("t", "abcdefghi", "LL"), "A".to_string(), 1) {
        Err(Error::InputValidationFailed { .. }) => {}
        _ => panic!("expected InputValidationFailed"),
    }
    assert!(store.add_crisis_update(payload("t", "abcdefghij", "LL"), "A".to_string(), 1).is_ok());
    // location must have at least 2 characters
    match store.add_crisis_update(payload("t", "abcdefghij", "L"), "A".to_string(), 1) {
        Err(Error::InputValidationFailed { msg }) => {
            assert_eq!(msg, "location must be at least 2 characters long");
        }
        _ => panic!("expected InputValidationFailed"),
    }
}

#[test]
fn list_all_reports_empty_store_and_lists_ascending() {
    let mut store = Store::new();
    match store.list_all_crisis_updates() {
        Err(Error::NotFound { msg }) => {
            assert_eq!(msg, "there are currently no crisis updates stored");
        }
        _ => panic!("expected NotFound on an empty store"),
    }
    create(&mut store, "one", "Lagos", "A", 1);
    create(&mut store, "two", "Nairobi", "A", 2);
    create(&mut store, "three", "Accra", "A", 3);
    let all = store.list_all_crisis_updates().expect("list should succeed");
    let ids: Vec<u64> = all.iter().map(|u| u.id).collect();
    assert_eq!(ids, vec![0, 1, 2]);
}

#[test]
fn latest_returns_highest_id() {
    let mut store = Store::new();
    match store.get_latest_crisis_update() {
        Err(Error::NotFound { .. }) => {}
        _ => panic!("expected NotFound on an empty store"),
    }
    create(&mut store, "one", "Lagos", "A", 1);
    let b = create(&mut store, "two", "Nairobi", "A", 2);
    let latest = store.get_latest_crisis_update().expect("latest should succeed");
    assert_eq!(latest.id, b.id);
    assert_eq!(latest.title, "two");
}

#[test]
fn search_by_location_returns_exact_subset_in_order() {
    let mut store = Store::new();
    create(&mut store, "one", "Nairobi", "A", 1);
    create(&mut store, "two", "Lagos", "A", 2);
    create(&mut store, "three", "Nairobi", "A", 3);
    let found = store
        .search_crisis_updates_by_location("Nairobi".to_string())
        .expect("search should succeed");
    let ids: Vec<u64> = found.iter().map(|u| u.id).collect();
    assert_eq!(ids, vec![0, 2]);
    assert!(found.iter().all(|u| u.location == "Nairobi"));
}

#[test]
fn search_by_location_distinguishes_empty_store_from_no_match() {
    let mut store = Store::new();
    match store.search_crisis_updates_by_location("Nairobi".to_string()) {
        Err(Error::NotFound { msg }) => {
            assert_eq!(msg, "there are currently no crisis updates stored");
        }
        _ => panic!("expected NotFound on an empty store"),
    }
    create(&mut store, "one", "Lagos", "A", 1);
    match store.search_crisis_updates_by_location("Nairobi".to_string()) {
        Err(Error::NotFound { msg }) => {
            assert_eq!(
                msg,
                "there are currently no crisis updates stored for the given location"
            );
        }
        _ => panic!("expected NotFound when nothing matches"),
    }
}

#[test]
fn timestamp_queries_use_last_modified_and_skip_unmodified() {
    let mut store = Store::new();
    let a = create(&mut store, "one", "Lagos", "A", 1);
    create(&mut store, "two", "Lagos", "A", 2);
    store
        .update_crisis_update(
            a.id,
            payload("one", "a fresh long description", "Lagos"),
            "A".to_string(),
            50,
        )
        .expect("update should succeed");
    // only the updated record carries a last-modified timestamp
    let in_range = store.get_crisis_updates_in_range(0, 100);
    assert_eq!(in_range.len(), 1);
    assert_eq!(in_range[0].id, a.id);
    // the range is inclusive on both ends
    assert_eq!(store.get_crisis_updates_in_range(50, 50).len(), 1);
    assert_eq!(store.get_crisis_updates_in_range(51, 100).len(), 0);
    // before/after are strict
    assert_eq!(store.get_crisis_updates_before(50).len(), 0);
    assert_eq!(store.get_crisis_updates_before(51).len(), 1);
    assert_eq!(store.get_crisis_updates_after(50).len(), 0);
    assert_eq!(store.get_crisis_updates_after(49).len(), 1);
}

#[test]
fn id_range_is_inclusive() {
    let mut store = Store::new();
    create(&mut store, "one", "Lagos", "A", 1);
    create(&mut store, "two", "Lagos", "A", 2);
    create(&mut store, "three", "Lagos", "A", 3);
    let ids: Vec<u64> = store.get_crisis_updates_by_id_range(1, 2).iter().map(|u| u.id).collect();
    assert_eq!(ids, vec![1, 2]);
    assert_eq!(store.get_crisis_updates_by_id_range(5, 9).len(), 0);
}

#[test]
fn substring_queries_return_empty_vec_on_no_match() {
    let mut store = Store::new();
    store
        .add_crisis_update(
            payload("Flood warning", "water levels rising fast", "Lagos"),
            "A".to_string(),
            1,
        )
        .expect("create");
    store
        .add_crisis_update(
            payload("Fire", "a warehouse fire downtown", "Lagos"),
            "A".to_string(),
            2,
        )
        .expect("create");
    let by_title = store.get_crisis_updates_by_title("Flo".to_string());
    assert_eq!(by_title.len(), 1);
    assert_eq!(by_title[0].title, "Flood warning");
    // the empty needle matches every record
    assert_eq!(store.get_crisis_updates_by_title(String::new()).len(), 2);
    // no match is an empty sequence, not an error
    assert_eq!(store.get_crisis_updates_by_title("zzz".to_string()).len(), 0);
    let by_desc = store.get_crisis_updates_by_description("downtown".to_string());
    assert_eq!(by_desc.len(), 1);
    assert_eq!(by_desc[0].title, "Fire");
}

#[test]
fn contains_str_matches_substrings() {
    assert!(contains_str("hello world", "lo wo"));
    assert!(contains_str("hello", ""));
    assert!(contains_str("", ""));
    assert!(!contains_str("", "a"));
    assert!(!contains_str("hello", "helloo"));
    assert!(contains_str("ééé", "é"));
}

#[test]
fn size_guards_reject_oversized_payloads() {
    let small = payload("t", "abcdefghij", "LL");
    assert!(create_fits(&small, &"A".to_string()));
    assert!(update_fits(&small, &"A".to_string()));
    let big = payload("t", &"x".repeat(300), "LL");
    assert!(!create_fits(&big, &"A".to_string()));
    assert!(!update_fits(&big, &"A".to_string()));
}

#[test]
fn encoding_round_trips_through_the_durable_map() {
    let mut store = Store::new();
    let made = store
        .add_crisis_update(
            payload("Flood", "Heavy flooding reported downtown", "Lagos"),
            "A".to_string(),
            7,
        )
        .expect("create");
    // the encoded form is bounded as the store demands
    assert!(made.to_bytes().len() <= 1024);
    // a re-opened store decodes the same record from the durable bytes
    let store = store.restart();
    let read = store.get_crisis_update(made.id).expect("read");
    assert_eq!(read.title, made.title);
    assert_eq!(read.description, made.description);
}

#[test]
fn peek_next_id_tracks_the_allocator() {
    let mut store = Store::new();
    assert_eq!(store.peek_next_id(), 0);
    create(&mut store, "one", "Lagos", "A", 1);
    assert_eq!(store.peek_next_id(), 1);
    store.delete_crisis_update(0, "A".to_string()).expect("delete");
    assert_eq!(store.peek_next_id(), 1);
}

#[test]
fn full_scenario() {
    let mut store = Store::new();
    let made = store
        .add_crisis_update(
            payload("Flood", "Heavy flooding reported downtown", "Lagos"),
            "A".to_string(),
            100,
        )
        .expect("create should succeed");
    assert_eq!(made.id, 0);
    assert_eq!(made.author, "A");
    assert_eq!(made.timestamp, None);
    let updated = store
        .update_crisis_update(
            0,
            payload("Flood Update", "Heavy flooding reported downtown area", "Lagos"),
            "A".to_string(),
            101,
        )
        .expect("update by the author should succeed");
    assert_eq!(updated.timestamp, Some(101));
    match store.update_crisis_update(
        0,
        payload("Hijack", "attempt to overwrite this", "Lagos"),
        "B".to_string(),
        102,
    ) {
        Err(Error::AuthenticationFailed { .. }) => {}
        _ => panic!("expected AuthenticationFailed"),
    }
    let removed = store.delete_crisis_update(0, "A".to_string()).expect("delete by the author");
    assert_eq!(removed.title, "Flood Update");
    match store.get_crisis_update(0) {
        Err(Error::NotFound { .. }) => {}
        _ => panic!("expected NotFound after delete"),
    }
}
