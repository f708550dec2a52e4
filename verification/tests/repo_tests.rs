use threadstore::ids::next_thread_id;
use threadstore::model::RecordRead;
use threadstore::model::RepoError;
use threadstore::repo::create_reply_at;
use threadstore::repo::create_thread;
use threadstore::repo::create_thread_at;
use threadstore::repo::get_thread_by_id;
use threadstore::repo::list_all_threads;
use threadstore::repo::list_replies_for_thread;
use threadstore::repo::read_thread;
use threadstore::repo::touch_thread;
use threadstore::store::RecordStore;

fn temp_store() -> RecordStore {
    let db = sled::Config::new()
        .temporary(true)
        .open()
        .expect("open temporary store");
    RecordStore::from_db(db)
}

#[test]
fn create_then_get_returns_trimmed_fields() {
    let mut s = temp_store();
    let t = create_thread_at(&mut s, "  Hello  ", "\t World \n", None, 100).expect("create");
    assert!(t.id > 0);
    assert_eq!(t.id, 1);
    assert_eq!(t.title, "Hello");
    assert_eq!(t.message, "World");
    assert_eq!(t.last_updated, 100);
    assert!(t.image_url.is_none());
    let back = get_thread_by_id(&s, 1).expect("present");
    assert_eq!(back.id, 1);
    assert_eq!(back.title, "Hello");
    assert_eq!(back.message, "World");
    assert_eq!(back.last_updated, 100);
    assert!(back.image_url.is_none());
}

#[test]
fn create_keeps_image_url() {
    let mut s = temp_store();
    let t = create_thread_at(&mut s, "t", "m", Some("/uploads/abc.jpg".to_string()), 5)
        .expect("create");
    let back = get_thread_by_id(&s, t.id).expect("present");
    assert_eq!(back.image_url.as_deref(), Some("/uploads/abc.jpg"));
}

#[test]
fn sequential_creates_number_threads_without_gaps() {
    let mut s = temp_store();
    for i in 1..=5i32 {
        let t = create_thread_at(&mut s, "title", "message", None, 100 + i as i64)
            .expect("create");
        assert_eq!(t.id, i);
    }
    let all = list_all_threads(&s).expect("list");
    assert_eq!(all.len(), 5);
    let mut ids: Vec<i32> = all.iter().map(|t| t.id).collect();
    ids.sort();
    assert_eq!(ids, vec![1, 2, 3, 4, 5]);
}

#[test]
fn reply_ids_are_scoped_per_parent() {
    let mut s = temp_store();
    create_thread_at(&mut s, "a", "a", None, 1).expect("create");
    create_thread_at(&mut s, "b", "b", None, 2).expect("create");
    let r1 = create_reply_at(&mut s, 1, "first under one", 10).expect("reply");
    let r2 = create_reply_at(&mut s, 1, "second under one", 11).expect("reply");
    let r3 = create_reply_at(&mut s, 2, "first under two", 12).expect("reply");
    assert_eq!(r1.id, 1);
    assert_eq!(r2.id, 2);
    assert_eq!(r3.id, 1);
    assert_eq!(list_replies_for_thread(&s, 1).expect("list").len(), 2);
    assert_eq!(list_replies_for_thread(&s, 2).expect("list").len(), 1);
}

#[test]
fn reply_scope_of_parent_one_excludes_parent_twelve() {
    let mut s = temp_store();
    let r12 = create_reply_at(&mut s, 12, "under twelve", 10).expect("reply");
    assert_eq!(r12.id, 1);
    let r1 = create_reply_at(&mut s, 1, "under one", 11).expect("reply");
    assert_eq!(r1.id, 1);
    assert_eq!(list_replies_for_thread(&s, 1).expect("list").len(), 1);
    assert_eq!(list_replies_for_thread(&s, 12).expect("list").len(), 1);
}

#[test]
fn reply_bumps_parent_last_updated() {
    let mut s = temp_store();
    let t = create_thread_at(&mut s, "t", "m", None, 100).expect("create");
    let r = create_reply_at(&mut s, t.id, "  a reply  ", 200).expect("reply");
    assert_eq!(r.message, "a reply");
    let back = get_thread_by_id(&s, t.id).expect("present");
    assert_eq!(back.last_updated, 200);
    assert!(back.last_updated >= 100);
}

#[test]
fn reply_to_missing_parent_still_succeeds() {
    let mut s = temp_store();
    let r = create_reply_at(&mut s, 77, "orphan", 9).expect("reply");
    assert_eq!(r.id, 1);
    assert_eq!(list_replies_for_thread(&s, 77).expect("list").len(), 1);
    assert!(get_thread_by_id(&s, 77).is_none());
}

#[test]
fn touch_updates_stamp_and_skips_missing() {
    let mut s = temp_store();
    create_thread_at(&mut s, "t", "m", None, 50).expect("create");
    let touched = touch_thread(&mut s, 1, 60).expect("touch");
    assert_eq!(touched.expect("updated").last_updated, 60);
    assert_eq!(get_thread_by_id(&s, 1).expect("present").last_updated, 60);
    let skipped = touch_thread(&mut s, 999, 70).expect("touch");
    assert!(skipped.is_none());
}

#[test]
fn empty_title_or_message_is_rejected() {
    let mut s = temp_store();
    assert_eq!(
        create_thread_at(&mut s, "", "body", None, 1).unwrap_err(),
        RepoError::Validation
    );
    assert_eq!(
        create_thread_at(&mut s, "   \t\n ", "body", None, 1).unwrap_err(),
        RepoError::Validation
    );
    assert_eq!(
        create_thread_at(&mut s, "title", "", None, 1).unwrap_err(),
        RepoError::Validation
    );
    assert_eq!(
        create_thread_at(&mut s, "title", "  \r\n  ", None, 1).unwrap_err(),
        RepoError::Validation
    );
    assert_eq!(
        create_reply_at(&mut s, 1, "", 1).unwrap_err(),
        RepoError::Validation
    );
    assert_eq!(
        create_reply_at(&mut s, 1, " \u{a0}", 1).unwrap_err(),
        RepoError::Validation
    );
    assert_eq!(list_all_threads(&s).expect("list").len(), 0);
}

#[test]
fn malformed_record_reads_as_absent_but_counts() {
    let db = sled::Config::new()
        .temporary(true)
        .open()
        .expect("open temporary store");
    db.insert(b"thread_9", b"not json at all".to_vec())
        .expect("insert junk");
    let mut s = RecordStore::from_db(db);
    assert!(get_thread_by_id(&s, 9).is_none());
    match read_thread(&s, 9).expect("read") {
        RecordRead::Corrupt => {}
        _ => panic!("junk record should read as corrupt"),
    }
    assert_eq!(list_all_threads(&s).expect("list").len(), 0);
    let t = create_thread_at(&mut s, "t", "m", None, 1).expect("create");
    assert_eq!(t.id, 2);
}

#[test]
fn count_then_increment_id_race_is_reproducible() {
    let mut s = temp_store();
    create_thread_at(&mut s, "seed", "seed", None, 1).expect("create");
    let a = next_thread_id(&s).expect("count");
    let b = next_thread_id(&s).expect("count");
    assert_eq!(a, b);
    let first = threadstore::model::Thread {
        id: a,
        title: "first writer".to_string(),
        message: "m".to_string(),
        last_updated: 2,
        image_url: None,
    };
    let second = threadstore::model::Thread {
        id: b,
        title: "second writer".to_string(),
        message: "m".to_string(),
        last_updated: 3,
        image_url: None,
    };
    let key = threadstore::keys::thread_key_exec(a);
    s.put_raw(&key, &threadstore::codec::encode_thread(&first))
        .expect("put");
    s.put_raw(&key, &threadstore::codec::encode_thread(&second))
        .expect("put");
    let all = list_all_threads(&s).expect("list");
    assert_eq!(all.len(), 2);
    let survivor = get_thread_by_id(&s, a).expect("present");
    assert_eq!(survivor.title, "second writer");
}

#[test]
fn clock_based_create_stores_a_readable_record() {
    let mut s = temp_store();
    let t = create_thread(&mut s, " clocked ", "body", None).expect("create");
    assert_eq!(t.title, "clocked");
    assert!(t.last_updated > 1_500_000_000);
    let back = get_thread_by_id(&s, t.id).expect("present");
    assert_eq!(back.last_updated, t.last_updated);
}

#[test]
fn replies_list_in_key_scan_order() {
    let mut s = temp_store();
    create_thread_at(&mut s, "t", "m", None, 1).expect("create");
    for i in 1..=11i32 {
        let r = create_reply_at(&mut s, 1, &format!("reply {}", i), i as i64).expect("reply");
        assert_eq!(r.id, i);
    }
    let replies = list_replies_for_thread(&s, 1).expect("list");
    let ids: Vec<i32> = replies.iter().map(|r| r.id).collect();
    // Scan order is byte order of the decimal keys: 1, 10, 11, 2, 3, ...
    assert_eq!(ids, vec![1, 10, 11, 2, 3, 4, 5, 6, 7, 8, 9]);
}

#[test]
fn lookup_of_unknown_or_negative_id_is_absent() {
    let s = temp_store();
    assert!(get_thread_by_id(&s, 1).is_none());
    assert!(get_thread_by_id(&s, -5).is_none());
    match read_thread(&s, 3).expect("read") {
        RecordRead::Absent => {}
        _ => panic!("empty store has no records"),
    }
}
