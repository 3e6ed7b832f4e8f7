use messaging::error::StoreError;
use messaging::messages::MessageStore;
use messaging::messages::ReadSelector;

#[test]
fn test_send_assigns_fields_and_ids() {
    let mut store = MessageStore::new();
    let m1 = store.send(1, 2, "hi".to_string(), 100).expect("send failed");
    let m2 = store.send(2, 1, "hello".to_string(), 101).expect("send failed");
    assert_eq!(m1.id, 1);
    assert_eq!(m2.id, 2);
    assert_eq!(m1.sender_id, 1);
    assert_eq!(m1.receiver_id, 2);
    assert_eq!(m1.content, "hi");
    assert!(!m1.is_read);
    assert_eq!(m1.created_at, 100);
    assert_eq!(m1.updated_at, 100);
    assert_eq!(m1.deleted_at, None);
}

#[test]
fn test_list_scenario_unread_then_read() {
    // send(1, 2, "hi"); the unread listing for user 2 holds one message,
    // marking it read empties it and drops the unread count to zero.
    let mut store = MessageStore::new();
    let sent = store.send(1, 2, "hi".to_string(), 100).expect("send failed");

    let (msgs, total, unread) = store.list(2, true, 1, 10).expect("list failed");
    assert_eq!(msgs.len(), 1);
    assert_eq!(total, 1);
    assert_eq!(unread, 1);
    assert_eq!(msgs[0].id, sent.id);

    let updated = store
        .mark_as_read_request(Some(sent.id), Vec::new(), None, None, 200)
        .expect("mark_as_read failed");
    assert_eq!(updated, 1);

    let (msgs, total, unread) = store.list(2, true, 1, 10).expect("list failed");
    assert_eq!(msgs.len(), 0);
    assert_eq!(total, 0);
    assert_eq!(unread, 0);

    // The full listing still holds the message, now read and restamped.
    let (msgs, total, _) = store.list(2, false, 1, 10).expect("list failed");
    assert_eq!(total, 1);
    assert!(msgs[0].is_read);
    assert_eq!(msgs[0].updated_at, 200);
    assert_eq!(msgs[0].created_at, 100);
}

#[test]
fn test_list_rejects_bad_pagination() {
    let mut store = MessageStore::new();
    store.send(1, 2, "a".to_string(), 1).expect("send failed");
    assert!(matches!(
        store.list(2, false, 0, 10),
        Err(StoreError::InvalidArgument)
    ));
    assert!(matches!(
        store.list(2, false, 1, 0),
        Err(StoreError::InvalidArgument)
    ));
    assert!(matches!(
        store.list(2, false, -3, -1),
        Err(StoreError::InvalidArgument)
    ));
    assert!(matches!(
        store.get_conversation(1, 2, 0, 10),
        Err(StoreError::InvalidArgument)
    ));
}

#[test]
fn test_list_pagination_windows() {
    let mut store = MessageStore::new();
    for k in 0..5 {
        store
            .send(1, 2, format!("m{}", k), 100 + k)
            .expect("send failed");
    }
    let (page1, total, _) = store.list(2, false, 1, 2).expect("list failed");
    assert_eq!(total, 5);
    assert_eq!(page1.len(), 2);
    assert_eq!(page1[0].id, 1);
    assert_eq!(page1[1].id, 2);

    let (page3, _, _) = store.list(2, false, 3, 2).expect("list failed");
    assert_eq!(page3.len(), 1);
    assert_eq!(page3[0].id, 5);

    let (beyond, _, _) = store.list(2, false, 4, 2).expect("list failed");
    assert_eq!(beyond.len(), 0);
}

#[test]
fn test_unread_count_ignores_filter_flag() {
    let mut store = MessageStore::new();
    store.send(1, 2, "a".to_string(), 1).expect("send failed");
    store.send(1, 2, "b".to_string(), 2).expect("send failed");
    store
        .mark_as_read_request(Some(1), Vec::new(), None, None, 3)
        .expect("mark failed");
    let (_, total_all, unread_all) = store.list(2, false, 1, 10).expect("list failed");
    let (_, total_unread, unread_unread) = store.list(2, true, 1, 10).expect("list failed");
    assert_eq!(total_all, 2);
    assert_eq!(total_unread, 1);
    assert_eq!(unread_all, 1);
    assert_eq!(unread_unread, 1);
}

#[test]
fn test_conversation_is_symmetric_and_ordered() {
    // Messages in both directions belong to the same conversation; a
    // third party's messages do not. Display order is most recent first,
    // ties broken by higher identifier.
    let mut store = MessageStore::new();
    let a = store.send(1, 2, "first".to_string(), 100).expect("send");
    let b = store.send(2, 1, "second".to_string(), 300).expect("send");
    let c = store.send(1, 2, "third".to_string(), 200).expect("send");
    let d = store.send(1, 2, "tie".to_string(), 200).expect("send");
    store.send(1, 3, "other".to_string(), 400).expect("send");

    let (fwd, total_fwd) = store.get_conversation(1, 2, 1, 10).expect("conversation");
    let (bwd, total_bwd) = store.get_conversation(2, 1, 1, 10).expect("conversation");
    assert_eq!(total_fwd, 4);
    assert_eq!(total_bwd, 4);
    let fwd_ids: Vec<i32> = fwd.iter().map(|m| m.id).collect();
    let bwd_ids: Vec<i32> = bwd.iter().map(|m| m.id).collect();
    assert_eq!(fwd_ids, bwd_ids);
    // 300 first, then the 200-tie by descending id, then 100.
    assert_eq!(fwd_ids, vec![b.id, d.id, c.id, a.id]);
}

#[test]
fn test_mark_as_read_by_user_pair() {
    let mut store = MessageStore::new();
    store.send(1, 2, "a".to_string(), 1).expect("send");
    store.send(1, 2, "b".to_string(), 2).expect("send");
    store.send(2, 1, "reply".to_string(), 3).expect("send");
    let updated = store
        .mark_as_read_request(None, Vec::new(), Some(1), Some(2), 10)
        .expect("mark failed");
    assert_eq!(updated, 2);
    let (_, _, unread_for_2) = store.list(2, true, 1, 10).expect("list");
    let (_, _, unread_for_1) = store.list(1, true, 1, 10).expect("list");
    assert_eq!(unread_for_2, 0);
    assert_eq!(unread_for_1, 1);
}

#[test]
fn test_mark_as_read_id_union_counts_read_rows() {
    let mut store = MessageStore::new();
    store.send(1, 2, "a".to_string(), 1).expect("send");
    store.send(1, 2, "b".to_string(), 2).expect("send");
    store.send(1, 2, "c".to_string(), 3).expect("send");
    // Re-marking an already read row still counts: the update is an
    // unconditional SET over the matched live rows.
    store
        .mark_as_read_request(Some(2), Vec::new(), None, None, 5)
        .expect("mark failed");
    let updated = store
        .mark_as_read_request(Some(1), vec![2, 3, 99], None, None, 6)
        .expect("mark failed");
    assert_eq!(updated, 3);
}

#[test]
fn test_mark_as_read_ids_take_precedence_over_pair() {
    // When both an identifier selection and a user pair are supplied,
    // the identifiers win: the pair's other messages stay unread.
    let mut store = MessageStore::new();
    let a = store.send(1, 2, "a".to_string(), 1).expect("send");
    store.send(1, 2, "b".to_string(), 2).expect("send");
    let updated = store
        .mark_as_read_request(Some(a.id), Vec::new(), Some(1), Some(2), 10)
        .expect("mark failed");
    assert_eq!(updated, 1);
    let (_, _, unread) = store.list(2, true, 1, 10).expect("list");
    assert_eq!(unread, 1);
}

#[test]
fn test_conversation_pagination() {
    let mut store = MessageStore::new();
    for k in 0..5i64 {
        store
            .send(1, 2, format!("m{}", k), 100 + k)
            .expect("send failed");
    }
    // Newest first: ids 5, 4, 3, 2, 1; page 2 of size 2 holds 3 and 2.
    let (page2, total) = store.get_conversation(1, 2, 2, 2).expect("conversation");
    assert_eq!(total, 5);
    let ids: Vec<i32> = page2.iter().map(|m| m.id).collect();
    assert_eq!(ids, vec![3, 2]);
}

#[test]
fn test_mark_as_read_empty_selector_rejected() {
    // An empty selector set is a caller error and writes nothing.
    let mut store = MessageStore::new();
    store.send(1, 2, "a".to_string(), 1).expect("send");
    assert_eq!(
        store.mark_as_read_request(None, Vec::new(), None, None, 9),
        Err(StoreError::InvalidArgument)
    );
    // A half-supplied user pair is no selector either.
    assert_eq!(
        store.mark_as_read_request(None, Vec::new(), Some(1), None, 9),
        Err(StoreError::InvalidArgument)
    );
    let (_, _, unread) = store.list(2, true, 1, 10).expect("list");
    assert_eq!(unread, 1);
}

#[test]
fn test_mark_as_read_selector_variant() {
    let mut store = MessageStore::new();
    store.send(1, 2, "a".to_string(), 1).expect("send");
    store.send(3, 2, "b".to_string(), 2).expect("send");
    let count = store.mark_as_read(&ReadSelector::ByUserPair(3, 2), 10);
    assert_eq!(count, 1);
    let count = store.mark_as_read(&ReadSelector::ById(vec![1]), 11);
    assert_eq!(count, 1);
}

#[test]
fn test_delete_hides_message_and_is_idempotent() {
    // Soft-deleting removes the message from listing, threading and the
    // unread count; a second delete returns false and changes nothing.
    let mut store = MessageStore::new();
    let kept = store.send(1, 2, "keep".to_string(), 1).expect("send");
    let gone = store.send(1, 2, "gone".to_string(), 2).expect("send");

    assert!(store.delete_message(gone.id, 10));

    let (msgs, total, unread) = store.list(2, false, 1, 10).expect("list");
    assert_eq!(total, 1);
    assert_eq!(unread, 1);
    assert_eq!(msgs[0].id, kept.id);

    let (conv, conv_total) = store.get_conversation(1, 2, 1, 10).expect("conversation");
    assert_eq!(conv_total, 1);
    assert_eq!(conv[0].id, kept.id);

    assert!(!store.delete_message(gone.id, 20));
    assert!(!store.delete_message(999, 20));
    let (_, total_after, _) = store.list(2, false, 1, 10).expect("list");
    assert_eq!(total_after, 1);
}

#[test]
fn test_deleted_message_not_marked() {
    let mut store = MessageStore::new();
    let m = store.send(1, 2, "a".to_string(), 1).expect("send");
    store.delete_message(m.id, 2);
    let updated = store
        .mark_as_read_request(Some(m.id), Vec::new(), None, None, 3)
        .expect("mark failed");
    assert_eq!(updated, 0);
}
