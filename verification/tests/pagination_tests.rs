use threadstore::model::Thread;
use threadstore::pagination::paginate;
use threadstore::pagination::sort_by_activity;

fn thread(id: i32, last_updated: i64) -> Thread {
    Thread {
        id,
        title: "t".to_string(),
        message: "m".to_string(),
        last_updated,
        image_url: None,
    }
}

fn twenty_five() -> Vec<Thread> {
    let mut v = Vec::new();
    for i in 1..=25i32 {
        v.push(thread(i, 100 + i as i64));
    }
    v
}

#[test]
fn sort_puts_most_recent_first_and_breaks_ties_by_id() {
    let v = vec![thread(3, 10), thread(1, 20), thread(2, 20), thread(4, 5)];
    let sorted = sort_by_activity(v);
    let ids: Vec<i32> = sorted.iter().map(|t| t.id).collect();
    assert_eq!(ids, vec![1, 2, 3, 4]);
    assert_eq!(sorted[0].last_updated, 20);
    assert_eq!(sorted[3].last_updated, 5);
}

#[test]
fn twenty_five_threads_paginate_into_three_pages() {
    let (page1, cur1, total1) = paginate(twenty_five(), 1, 10);
    assert_eq!((cur1, total1), (1, 3));
    assert_eq!(page1.len(), 10);
    assert_eq!(page1[0].id, 25);
    assert_eq!(page1[9].id, 16);

    let (page3, cur3, total3) = paginate(twenty_five(), 3, 10);
    assert_eq!((cur3, total3), (3, 3));
    assert_eq!(page3.len(), 5);
    assert_eq!(page3[0].id, 5);
    assert_eq!(page3[4].id, 1);
}

#[test]
fn page_past_the_end_clamps_to_the_last_page() {
    let (page4, cur4, total4) = paginate(twenty_five(), 4, 10);
    assert_eq!((cur4, total4), (3, 3));
    let (page3, _, _) = paginate(twenty_five(), 3, 10);
    assert_eq!(page4.len(), page3.len());
    let ids4: Vec<i32> = page4.iter().map(|t| t.id).collect();
    let ids3: Vec<i32> = page3.iter().map(|t| t.id).collect();
    assert_eq!(ids4, ids3);
}

#[test]
fn page_zero_or_negative_clamps_to_page_one() {
    let (page, cur, total) = paginate(twenty_five(), 0, 10);
    assert_eq!((cur, total), (1, 3));
    assert_eq!(page[0].id, 25);
    let (_, cur_neg, _) = paginate(twenty_five(), -7, 10);
    assert_eq!(cur_neg, 1);
}

#[test]
fn empty_collection_gives_zero_pages_and_empty_slice() {
    let (page, cur, total) = paginate(Vec::new(), 1, 10);
    assert_eq!((cur, total), (1, 0));
    assert!(page.is_empty());
}

#[test]
fn exact_multiple_has_no_partial_page() {
    let mut v = Vec::new();
    for i in 1..=20i32 {
        v.push(thread(i, i as i64));
    }
    let (_, _, total) = paginate(v, 1, 10);
    assert_eq!(total, 2);
}

#[test]
fn most_recent_reply_moves_thread_to_front() {
    let v = vec![thread(1, 300), thread(2, 150)];
    let sorted = sort_by_activity(v);
    assert_eq!(sorted[0].id, 1);
    let bumped = vec![thread(1, 300), thread(2, 450)];
    let sorted2 = sort_by_activity(bumped);
    assert_eq!(sorted2[0].id, 2);
}
