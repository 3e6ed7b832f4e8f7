use messaging::handler::MessageHandler;
use messaging::handler::ReactionHandler;
use messaging::messages::MessageStore;
use messaging::reactions::ReactionStore;
use messaging::usecase::MessageUseCaseImpl;
use messaging::usecase::ReactionUseCaseImpl;

#[test]
fn test_to_proto_message_formats_timestamps() {
    let mut store = MessageStore::new();
    let sent = store.send(1, 2, "hi".to_string(), 0).expect("send failed");
    let proto = MessageHandler::<MessageUseCaseImpl<MessageStore>>::to_proto_message(&sent);
    assert_eq!(proto.id, 1);
    assert_eq!(proto.sender_id, 1);
    assert_eq!(proto.receiver_id, 2);
    assert_eq!(proto.content, "hi");
    assert!(!proto.is_read);
    assert_eq!(proto.created_at, "1970-01-01 00:00:00");
    assert_eq!(proto.updated_at, "1970-01-01 00:00:00");
}

#[test]
fn test_to_proto_reaction_formats_timestamps() {
    let mut store = ReactionStore::new();
    store
        .register_type(1, "いいね".to_string(), "👍".to_string(), 0)
        .expect("register failed");
    let reaction = store
        .add_reaction(5, 100, 1, 1431648000)
        .expect("add failed");
    let proto = ReactionHandler::<ReactionUseCaseImpl<ReactionStore>>::to_proto_reaction(&reaction);
    assert_eq!(proto.id, 1);
    assert_eq!(proto.user_id, 5);
    assert_eq!(proto.message_id, 100);
    assert_eq!(proto.reaction_type_id, 1);
    assert_eq!(proto.created_at, "2015-05-15 00:00:00");
    assert_eq!(proto.updated_at, "2015-05-15 00:00:00");
}

#[test]
fn test_to_proto_reaction_type() {
    let t = messaging::reactions::ReactionType {
        id: 7,
        name: "笑った".to_string(),
        emoji: "😂".to_string(),
        created_at: 0,
        updated_at: 0,
    };
    let proto = ReactionHandler::<ReactionUseCaseImpl<ReactionStore>>::to_proto_reaction_type(&t);
    assert_eq!(proto.id, 7);
    assert_eq!(proto.name, "笑った");
    assert_eq!(proto.emoji, "😂");
}

#[test]
fn test_usecase_layer_forwards() {
    let mut messages = MessageUseCaseImpl::new(MessageStore::new());
    let sent = messages
        .send_message(1, 2, "hi".to_string(), 100)
        .expect("send failed");
    let (listed, total, unread) = messages.list_messages(2, true, 1, 10).expect("list failed");
    assert_eq!((listed.len(), total, unread), (1, 1, 1));
    let updated = messages
        .mark_as_read(Some(sent.id), Vec::new(), None, None, 101)
        .expect("mark failed");
    assert_eq!(updated, 1);
    let (conv, conv_total) = messages.get_conversation(2, 1, 1, 10).expect("conversation");
    assert_eq!((conv.len(), conv_total), (1, 1));
    assert!(messages.delete_message(sent.id, 102));
    assert!(!messages.delete_message(sent.id, 103));

    let mut reaction_store = ReactionStore::new();
    reaction_store
        .register_type(1, "いいね".to_string(), "👍".to_string(), 0)
        .expect("seed failed");
    let mut reactions = ReactionUseCaseImpl::new(reaction_store);
    let added = reactions.add_reaction(5, 100, 1, 104).expect("add failed");
    assert_eq!(added.reaction_type_id, 1);
    assert_eq!(reactions.get_reactions_for_message(100).len(), 1);
    assert_eq!(reactions.count_reactions_by_type(100).len(), 1);
    assert_eq!(reactions.remove_reaction(5, 100, Some(1), 105), 1);
    assert_eq!(reactions.list_reaction_types().len(), 1);
    assert!(reactions.get_reaction_type(1).is_some());
    assert!(reactions.get_reaction_type(2).is_none());
}
