use time_db::message::{on_message, Message, MessageStore};

fn msg(topic: &str, text: &str, t: u64) -> Message {
    Message { index: 99, topic: topic.to_string(), message: text.to_string(), timestamp: t }
}

#[test]
fn messages_are_numbered_in_order() {
    let mut store = MessageStore::new();
    store.add_message(&msg("a", "one", 1));
    store.add_message(&msg("b", "two", 2));
    let all = store.get_messages();
    assert_eq!(all.len(), 2);
    assert_eq!((all[0].index, all[1].index), (0, 1));
    assert_eq!(all[1].topic, "b");
    assert_eq!(all[1].message, "two");
}

#[test]
fn pages_hold_at_most_a_hundred() {
    let mut store = MessageStore::new();
    for i in 0..250u64 {
        store.add_message(&msg("t", "m", i));
    }
    let p = store.page(0);
    assert_eq!((p.skip, p.limit, p.total), (0, 100, 100));
    let p = store.page(200);
    assert_eq!(p.total, 50);
    assert_eq!(p.data[0].index, 200);
    let p = store.page(250);
    assert_eq!(p.total, 0);
    let p = store.page(u64::MAX);
    assert!(p.data.is_empty());
}

#[test]
fn a_received_message_is_answered() {
    let mut inbox = MessageStore::new();
    let mut outbox = MessageStore::new();
    on_message(&mut inbox, &mut outbox, "greet".to_string(), "hi".to_string(), 5);
    assert_eq!(inbox.get_messages()[0].topic, "greet");
    assert_eq!(outbox.get_messages()[0].topic, "/response");
    assert_eq!(outbox.get_messages()[0].message, "hi");
    assert_eq!(outbox.get_messages()[0].timestamp, 5);
}
