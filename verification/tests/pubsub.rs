use bonsaidb::connection::SessionId;
use bonsaidb::error::Error;
use bonsaidb::pubsub::{Message, Relay};

#[test]
fn pubsub_fan_out() {
    let mut relay = Relay::new(8);
    let a = relay.create_subscriber(None).unwrap();
    let b = relay.create_subscriber(None).unwrap();
    assert_ne!(a, b);
    relay.subscribe_to(a, "t").unwrap();
    relay.subscribe_to(b, "t").unwrap();
    relay.publish("t", b"hello");
    relay.publish("t", b"again");
    for id in [a, b] {
        assert_eq!(
            relay.receive(id),
            Ok(Some(Message { topic: String::from("t"), payload: b"hello".to_vec() }))
        );
        assert_eq!(
            relay.receive(id),
            Ok(Some(Message { topic: String::from("t"), payload: b"again".to_vec() }))
        );
        assert_eq!(relay.receive(id), Ok(None));
    }
}

#[test]
fn only_subscribers_of_the_topic_receive() {
    let mut relay = Relay::new(8);
    let a = relay.create_subscriber(None).unwrap();
    let b = relay.create_subscriber(None).unwrap();
    relay.subscribe_to(a, "t").unwrap();
    relay.subscribe_to(b, "T").unwrap();
    relay.publish("t", b"x");
    assert_eq!(relay.receive(a).unwrap().map(|m| m.payload), Some(b"x".to_vec()));
    assert_eq!(relay.receive(b), Ok(None));
    relay.unsubscribe_from(a, "t").unwrap();
    relay.publish("t", b"y");
    assert_eq!(relay.receive(a), Ok(None));
}

#[test]
fn a_full_queue_drops_the_message() {
    let mut relay = Relay::new(2);
    let a = relay.create_subscriber(None).unwrap();
    relay.subscribe_to(a, "t").unwrap();
    relay.publish("t", b"1");
    relay.publish("t", b"2");
    relay.publish("t", b"3");
    assert_eq!(relay.receive(a).unwrap().map(|m| m.payload), Some(b"1".to_vec()));
    assert_eq!(relay.receive(a).unwrap().map(|m| m.payload), Some(b"2".to_vec()));
    assert_eq!(relay.receive(a), Ok(None));
}

#[test]
fn publish_to_all_publishes_to_each_topic_in_order() {
    let mut relay = Relay::new(8);
    let a = relay.create_subscriber(None).unwrap();
    relay.subscribe_to(a, "one").unwrap();
    relay.subscribe_to(a, "two").unwrap();
    relay.publish_to_all(&vec![String::from("two"), String::from("none"), String::from("one")], b"p");
    assert_eq!(relay.receive(a).unwrap().map(|m| m.topic), Some(String::from("two")));
    assert_eq!(relay.receive(a).unwrap().map(|m| m.topic), Some(String::from("one")));
    assert_eq!(relay.receive(a), Ok(None));
}

#[test]
fn unknown_subscribers_are_reported() {
    let mut relay = Relay::new(8);
    assert_eq!(relay.subscribe_to(7, "t"), Err(Error::SubscriberNotFound));
    assert_eq!(relay.unsubscribe_from(7, "t"), Err(Error::SubscriberNotFound));
    assert_eq!(relay.receive(7), Err(Error::SubscriberNotFound));
    let a = relay.create_subscriber(None).unwrap();
    assert_eq!(relay.unregister_subscriber(a), Ok(()));
    assert_eq!(relay.unregister_subscriber(a), Err(Error::SubscriberNotFound));
}

#[test]
fn the_subscribers_of_a_session_go_with_it() {
    let mut relay = Relay::new(8);
    let a = relay.create_subscriber(Some(SessionId(1))).unwrap();
    let b = relay.create_subscriber(Some(SessionId(2))).unwrap();
    let c = relay.create_subscriber(Some(SessionId(1))).unwrap();
    let d = relay.create_subscriber(None).unwrap();
    let mut removed = relay.unregister_owned_by(SessionId(1));
    removed.sort();
    assert_eq!(removed, vec![a, c]);
    assert_eq!(relay.subscribe_to(a, "t"), Err(Error::SubscriberNotFound));
    assert_eq!(relay.subscribe_to(c, "t"), Err(Error::SubscriberNotFound));
    assert_eq!(relay.subscribe_to(b, "t"), Ok(()));
    assert_eq!(relay.subscribe_to(d, "t"), Ok(()));
    assert!(relay.unregister_owned_by(SessionId(1)).is_empty());
}
