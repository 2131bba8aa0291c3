use protohackers::chat::broadcast::{fan_out, Delivery};
use protohackers::chat::event::Event;
use protohackers::chat::registry::Registry;

fn delivery(recipient: &str, sink: u64, text: &str) -> Delivery {
    Delivery { recipient: recipient.to_string(), sink, text: text.to_string() }
}

fn room(names: &[&str]) -> Registry {
    let mut registry = Registry::new();
    for (i, name) in names.iter().enumerate() {
        assert!(registry.try_admit(name, 10 + i as u64));
    }
    registry
}

#[test]
fn a_message_goes_to_everyone_but_its_sender() {
    let registry = room(&["alice", "bob", "carol"]);
    let event = Event::Sent("bob".to_string(), "hi".to_string());
    assert_eq!(
        fan_out(&registry, &event),
        vec![delivery("alice", 10, "[bob] hi\n"), delivery("carol", 12, "[bob] hi\n")]
    );
}

#[test]
fn the_sender_alone_in_the_room_hears_nothing() {
    let registry = room(&["alice"]);
    let event = Event::Sent("alice".to_string(), "anyone?".to_string());
    assert_eq!(fan_out(&registry, &event), Vec::<Delivery>::new());
}

#[test]
fn an_empty_room_has_no_deliveries() {
    let registry = Registry::new();
    assert_eq!(fan_out(&registry, &Event::Left("alice".to_string())), Vec::<Delivery>::new());
}

#[test]
fn a_join_is_announced_to_the_others() {
    let registry = room(&["alice", "bob"]);
    assert_eq!(
        fan_out(&registry, &Event::Joined("bob".to_string())),
        vec![delivery("alice", 10, "* bob has joined the room\n")]
    );
}

#[test]
fn a_leave_is_announced_to_all_who_remain() {
    let registry = room(&["bob", "carol"]);
    assert_eq!(
        fan_out(&registry, &Event::Left("alice".to_string())),
        vec![
            delivery("bob", 10, "* alice has left the room\n"),
            delivery("carol", 11, "* alice has left the room\n")
        ]
    );
}

#[test]
fn no_event_ever_reaches_its_originator() {
    let names = ["a", "b", "c", "d"];
    let registry = room(&names);
    for origin in names {
        let events = [
            Event::Joined(origin.to_string()),
            Event::Left(origin.to_string()),
            Event::Sent(origin.to_string(), "x".to_string()),
        ];
        for event in events {
            let out = fan_out(&registry, &event);
            assert_eq!(out.len(), 3);
            for d in out {
                assert_ne!(d.recipient, origin);
                assert_eq!(d.text, event.render());
            }
        }
    }
}

#[test]
fn every_member_sees_the_events_of_the_others_in_channel_order() {
    let names = ["alice", "bob", "carol"];
    let registry = room(&names);
    let events = vec![
        Event::Sent("alice".to_string(), "1".to_string()),
        Event::Sent("bob".to_string(), "2".to_string()),
        Event::Sent("alice".to_string(), "3".to_string()),
        Event::Joined("dave".to_string()),
        Event::Sent("carol".to_string(), "4".to_string()),
        Event::Sent("bob".to_string(), "5".to_string()),
    ];
    let mut relayed = Vec::new();
    for event in &events {
        relayed.extend(fan_out(&registry, event));
    }
    for name in names {
        let inbox: Vec<String> =
            relayed.iter().filter(|d| d.recipient == name).map(|d| d.text.clone()).collect();
        let expected: Vec<String> =
            events.iter().filter(|e| e.origin() != name).map(|e| e.render()).collect();
        assert_eq!(inbox, expected);
    }
}
