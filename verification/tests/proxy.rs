use protohackers::proxy::{rewrite_message, rewrite_with, BOGUS_REGEX, TONY_BOGUS};

fn rewrite(message: &str) -> String {
    rewrite_message(BOGUS_REGEX, message).unwrap()
}

#[test]
fn the_constants_are_the_agreed_ones() {
    assert_eq!(TONY_BOGUS, "7YWHMfk9JZe0LM0g1ZauHuiSxhI");
    assert_eq!(BOGUS_REGEX, r"(7(\w){25,34})");
}

#[test]
fn a_message_without_an_address_only_gains_its_newline() {
    assert_eq!(rewrite("hello there"), "hello there\n");
    assert_eq!(rewrite(""), "\n");
    assert_eq!(rewrite("7 is a number"), "7 is a number\n");
}

#[test]
fn an_address_that_is_the_whole_message_is_replaced() {
    assert_eq!(rewrite("7F1u3wSD5RbOHQmupo9nx4TnhQ"), "7YWHMfk9JZe0LM0g1ZauHuiSxhI\n");
}

#[test]
fn an_address_between_spaces_is_replaced() {
    assert_eq!(
        rewrite("Please send the payment of 750 Boguscoins to 7iKDZEwPZSqIvDnHvVN2r0hUWXD5rHX now"),
        "Please send the payment of 750 Boguscoins to 7YWHMfk9JZe0LM0g1ZauHuiSxhI now\n"
    );
}

#[test]
fn an_address_at_the_start_or_the_end_is_replaced() {
    assert_eq!(
        rewrite("7LOrwbDlS8NujgjddyogWgIM93MV5N2VR is mine"),
        "7YWHMfk9JZe0LM0g1ZauHuiSxhI is mine\n"
    );
    assert_eq!(
        rewrite("[bob] send to 7adNeSwJkMakpEcln9HEtthSRtxdmEHOT8T"),
        "[bob] send to 7YWHMfk9JZe0LM0g1ZauHuiSxhI\n"
    );
}

#[test]
fn several_addresses_are_all_replaced() {
    assert_eq!(
        rewrite("7F1u3wSD5RbOHQmupo9nx4TnhQ or 7iKDZEwPZSqIvDnHvVN2r0hUWXD5rHX ok"),
        "7YWHMfk9JZe0LM0g1ZauHuiSxhI or 7YWHMfk9JZe0LM0g1ZauHuiSxhI ok\n"
    );
}

#[test]
fn the_shortest_and_the_longest_address() {
    let shortest = format!("7{}", "a".repeat(25));
    let longest = format!("7{}", "b".repeat(34));
    assert_eq!(rewrite(&shortest), "7YWHMfk9JZe0LM0g1ZauHuiSxhI\n");
    assert_eq!(rewrite(&longest), "7YWHMfk9JZe0LM0g1ZauHuiSxhI\n");
}

#[test]
fn what_is_too_short_or_too_long_stays() {
    let too_short = format!("7{}", "a".repeat(24));
    let too_long = format!("7{}", "b".repeat(35));
    assert_eq!(rewrite(&too_short), format!("{too_short}\n"));
    assert_eq!(rewrite(&too_long), format!("{too_long}\n"));
}

#[test]
fn an_address_that_does_not_stand_alone_stays() {
    for message in [
        "x7F1u3wSD5RbOHQmupo9nx4TnhQ",
        "7F1u3wSD5RbOHQmupo9nx4TnhQ-more",
        "see:7F1u3wSD5RbOHQmupo9nx4TnhQ ",
        "7F1u3wSD5RbOHQmupo9nx4TnhQ.",
    ] {
        assert_eq!(rewrite(message), format!("{message}\n"));
    }
}

#[test]
fn every_occurrence_of_a_replaced_address_goes() {
    assert_eq!(
        rewrite("7F1u3wSD5RbOHQmupo9nx4TnhQ and again -7F1u3wSD5RbOHQmupo9nx4TnhQ-"),
        "7YWHMfk9JZe0LM0g1ZauHuiSxhI and again -7YWHMfk9JZe0LM0g1ZauHuiSxhI-\n"
    );
}

#[test]
fn an_invalid_pattern_gives_nothing() {
    assert_eq!(rewrite_message("(unclosed", "hello"), None);
}

#[test]
fn another_pattern_is_matched_as_it_says() {
    assert_eq!(
        rewrite_message("b+", "a bbb c b"),
        Some("a 7YWHMfk9JZe0LM0g1ZauHuiSxhI c 7YWHMfk9JZe0LM0g1ZauHuiSxhI\n".to_string())
    );
    assert_eq!(rewrite_message("b*", "abc"), None);
}

#[test]
fn given_spans_are_replaced_where_they_stand_alone() {
    let message = "ab cd ef";
    assert_eq!(
        rewrite_with(message, &vec![(3, 5)]),
        "ab 7YWHMfk9JZe0LM0g1ZauHuiSxhI ef\n"
    );
    assert_eq!(rewrite_with(message, &vec![(3, 4)]), "ab cd ef\n");
    assert_eq!(rewrite_with(message, &vec![(4, 5)]), "ab cd ef\n");
    assert_eq!(rewrite_with(message, &vec![]), "ab cd ef\n");
    assert_eq!(
        rewrite_with(message, &vec![(0, 2), (6, 8)]),
        "7YWHMfk9JZe0LM0g1ZauHuiSxhI cd 7YWHMfk9JZe0LM0g1ZauHuiSxhI\n"
    );
}

#[test]
fn replacement_works_on_what_earlier_spans_have_left() {
    assert_eq!(
        rewrite_with("7 x", &vec![(0, 1), (0, 1)]),
        "7YWHMfk9JZe0LM0g1ZauHuiSxhIYWHMfk9JZe0LM0g1ZauHuiSxhI x\n"
    );
}
