use protohackers::chat::event::Event;

#[test]
fn a_join_is_rendered_as_a_notice() {
    let event = Event::Joined("bob".to_string());
    assert_eq!(event.render(), "* bob has joined the room\n");
    assert_eq!(event.origin(), "bob");
}

#[test]
fn a_leave_is_rendered_as_a_notice() {
    let event = Event::Left("alice".to_string());
    assert_eq!(event.render(), "* alice has left the room\n");
    assert_eq!(event.origin(), "alice");
}

#[test]
fn a_message_is_rendered_under_its_sender() {
    let event = Event::Sent("alice".to_string(), "hello".to_string());
    assert_eq!(event.render(), "[alice] hello\n");
    assert_eq!(event.origin(), "alice");
}

#[test]
fn an_empty_message_is_still_a_line() {
    let event = Event::Sent("x".to_string(), String::new());
    assert_eq!(event.render(), "[x] \n");
}

#[test]
fn text_is_rendered_as_it_is() {
    let event = Event::Sent("a1".to_string(), "[b] * ünï ".to_string());
    assert_eq!(event.render(), "[a1] [b] * ünï \n");
}
