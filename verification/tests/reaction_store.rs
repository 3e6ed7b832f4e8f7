use messaging::error::StoreError;
use messaging::reactions::ReactionStore;

/// Seeds the seven canonical reaction types, as deployment tooling does.
fn setup_reaction_types(store: &mut ReactionStore) {
    let types = [
        (1, "いいね", "👍"),
        (2, "わかる", "🤝"),
        (3, "応援してる", "🎉"),
        (4, "おつかれさま", "🙏"),
        (5, "たしかに", "💡"),
        (6, "すごい", "✨"),
        (7, "笑った", "😂"),
    ];
    for (id, name, emoji) in types {
        store
            .register_type(id, name.to_string(), emoji.to_string(), 50)
            .expect("Failed to setup reaction types");
    }
}

#[test]
fn test_count_reactions_by_type() {
    let mut store = ReactionStore::new();
    setup_reaction_types(&mut store);
    let (user1_id, user2_id) = (1, 2);
    let message_id = 10;

    store
        .add_reaction(user1_id, message_id, 1, 100)
        .expect("Failed to add reaction 1");
    store
        .add_reaction(user2_id, message_id, 2, 101)
        .expect("Failed to add reaction 2");
    store
        .add_reaction(user1_id, message_id, 3, 102)
        .expect("Failed to add reaction 3");

    let counts = store.count_reactions_by_type(message_id);
    assert_eq!(counts.len(), 3, "Should have 3 different reaction types");

    let mut found_types = [false; 3];
    for (reaction_type, count) in &counts {
        match reaction_type.id {
            1 => {
                assert_eq!(*count, 1, "Like count should be 1");
                found_types[0] = true;
            }
            2 => {
                assert_eq!(*count, 1, "Understand count should be 1");
                found_types[1] = true;
            }
            3 => {
                assert_eq!(*count, 1, "Support count should be 1");
                found_types[2] = true;
            }
            _ => panic!("Found unexpected reaction type ID: {}", reaction_type.id),
        }
    }
    assert!(
        found_types.iter().all(|&found| found),
        "Not all reaction types were found"
    );
}

#[test]
fn test_add_and_get_reaction() {
    let mut store = ReactionStore::new();
    setup_reaction_types(&mut store);
    let (user1_id, user2_id) = (1, 2);
    let _ = user2_id;
    let message_id = 10;

    let reaction = store
        .add_reaction(user1_id, message_id, 1, 100)
        .expect("Failed to add reaction");
    assert_eq!(reaction.user_id, user1_id);
    assert_eq!(reaction.message_id, message_id);
    assert_eq!(reaction.reaction_type_id, 1);

    let reactions = store.get_reactions_for_message(message_id);
    assert_eq!(reactions.len(), 1, "Should find exactly one reaction");
    assert_eq!(reactions[0].user_id, user1_id);
    assert_eq!(reactions[0].reaction_type_id, 1);
}

#[test]
fn test_remove_reaction() {
    let mut store = ReactionStore::new();
    setup_reaction_types(&mut store);
    let (user1_id, user2_id) = (1, 2);
    let _ = user2_id;
    let message_id = 10;

    store
        .add_reaction(user1_id, message_id, 1, 100)
        .expect("Failed to add reaction");
    let removed_count = store.remove_reaction(user1_id, message_id, Some(1), 200);
    assert_eq!(removed_count, 1, "Should have removed exactly one reaction");

    let reactions = store.get_reactions_for_message(message_id);
    assert_eq!(reactions.len(), 0, "All reactions should be removed");
}

#[test]
fn test_list_reaction_types() {
    let mut store = ReactionStore::new();
    setup_reaction_types(&mut store);

    let types = store.list_reaction_types();
    assert!(types.len() >= 7);
    let expected = [
        "いいね",
        "わかる",
        "応援してる",
        "おつかれさま",
        "たしかに",
        "すごい",
        "笑った",
    ];
    for name in expected {
        assert!(
            types.iter().any(|t| t.name == name),
            "missing reaction type {}",
            name
        );
    }
    // Ascending identifier order.
    for w in types.windows(2) {
        assert!(w[0].id < w[1].id);
    }
}

#[test]
fn test_reaction_slot_scenario() {
    // addReaction(5, 100, 1) succeeds; the same triple again fails with
    // AlreadyExists; removeReaction(5, 100, 1) removes one row; the
    // aggregation then no longer lists type 1.
    let mut store = ReactionStore::new();
    setup_reaction_types(&mut store);

    store.add_reaction(5, 100, 1, 10).expect("first add failed");
    assert_eq!(
        store.add_reaction(5, 100, 1, 11).unwrap_err(),
        StoreError::AlreadyExists
    );
    let removed = store.remove_reaction(5, 100, Some(1), 12);
    assert_eq!(removed, 1);
    let counts = store.count_reactions_by_type(100);
    assert!(counts.iter().all(|(t, _)| t.id != 1));

    // The soft delete freed the slot: the same triple can be added again.
    store.add_reaction(5, 100, 1, 13).expect("re-add failed");
}

#[test]
fn test_remove_without_type_removes_all_of_users_reactions() {
    let mut store = ReactionStore::new();
    setup_reaction_types(&mut store);
    store.add_reaction(5, 100, 1, 10).expect("add failed");
    store.add_reaction(5, 100, 2, 11).expect("add failed");
    store.add_reaction(6, 100, 1, 12).expect("add failed");
    store.add_reaction(5, 200, 1, 13).expect("add failed");

    let removed = store.remove_reaction(5, 100, None, 20);
    assert_eq!(removed, 2);
    let remaining = store.get_reactions_for_message(100);
    assert_eq!(remaining.len(), 1);
    assert_eq!(remaining[0].user_id, 6);
    // Removing again matches nothing; zero is a normal outcome.
    assert_eq!(store.remove_reaction(5, 100, None, 21), 0);
}

#[test]
fn test_add_reaction_unknown_type_rejected() {
    let mut store = ReactionStore::new();
    setup_reaction_types(&mut store);
    assert_eq!(
        store.add_reaction(1, 10, 42, 100).unwrap_err(),
        StoreError::NotFound
    );
}

#[test]
fn test_reactions_ordered_by_creation() {
    let mut store = ReactionStore::new();
    setup_reaction_types(&mut store);
    store.add_reaction(1, 10, 1, 300).expect("add failed");
    store.add_reaction(2, 10, 1, 100).expect("add failed");
    store.add_reaction(3, 10, 1, 200).expect("add failed");
    store.add_reaction(4, 10, 1, 200).expect("add failed");

    let reactions = store.get_reactions_for_message(10);
    let order: Vec<(i64, i32)> = reactions.iter().map(|r| (r.created_at, r.id)).collect();
    assert_eq!(order, vec![(100, 2), (200, 3), (200, 4), (300, 1)]);
}

#[test]
fn test_counts_sum_matches_reaction_rows() {
    // No aggregation entry has count zero, and the counts sum to the
    // number of live rows the per-message listing returns.
    let mut store = ReactionStore::new();
    setup_reaction_types(&mut store);
    store.add_reaction(1, 10, 1, 1).expect("add failed");
    store.add_reaction(2, 10, 1, 2).expect("add failed");
    store.add_reaction(3, 10, 2, 3).expect("add failed");
    store.add_reaction(1, 20, 3, 4).expect("add failed");
    store.remove_reaction(2, 10, Some(1), 5);

    let counts = store.count_reactions_by_type(10);
    assert!(counts.iter().all(|(_, c)| *c > 0));
    let sum: i64 = counts.iter().map(|(_, c)| *c).sum();
    let rows = store.get_reactions_for_message(10);
    assert_eq!(sum, rows.len() as i64);
    assert_eq!(sum, 2);
}

#[test]
fn test_register_type_duplicate_rejected() {
    let mut store = ReactionStore::new();
    store
        .register_type(1, "いいね".to_string(), "👍".to_string(), 1)
        .expect("register failed");
    assert_eq!(
        store.register_type(1, "copy".to_string(), "x".to_string(), 2),
        Err(StoreError::AlreadyExists)
    );
}

#[test]
fn test_get_reaction_type_lookup() {
    let mut store = ReactionStore::new();
    setup_reaction_types(&mut store);
    let t = store.get_reaction_type(3).expect("type 3 should exist");
    assert_eq!(t.id, 3);
    assert_eq!(t.name, "応援してる");
    assert_eq!(t.emoji, "🎉");
    assert!(store.get_reaction_type(99).is_none());
}
