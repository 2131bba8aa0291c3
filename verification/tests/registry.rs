use protohackers::chat::registry::{Registry, Session};

fn session(name: &str, sink: u64) -> Session {
    Session { name: name.to_string(), sink }
}

#[test]
fn a_new_registry_is_empty() {
    let registry = Registry::new();
    assert_eq!(registry.len(), 0);
    assert!(!registry.contains("alice"));
    assert_eq!(registry.snapshot_excluding("alice"), Vec::<Session>::new());
}

#[test]
fn admission_registers_the_name_with_its_sink() {
    let mut registry = Registry::new();
    assert!(registry.try_admit("alice", 7));
    assert!(registry.contains("alice"));
    assert!(!registry.contains("Alice"));
    assert_eq!(registry.len(), 1);
    assert_eq!(registry.snapshot_excluding(""), vec![session("alice", 7)]);
}

#[test]
fn a_taken_name_is_refused_and_nothing_changes() {
    let mut registry = Registry::new();
    assert!(registry.try_admit("alice", 1));
    assert!(!registry.try_admit("alice", 2));
    assert_eq!(registry.len(), 1);
    assert_eq!(registry.snapshot_excluding("bob"), vec![session("alice", 1)]);
}

#[test]
fn of_many_attempts_for_one_name_exactly_one_succeeds() {
    let mut registry = Registry::new();
    let mut successes = 0;
    for sink in 0..50 {
        if registry.try_admit("carol", sink) {
            successes += 1;
        }
    }
    assert_eq!(successes, 1);
    assert_eq!(registry.len(), 1);
    assert_eq!(registry.snapshot_excluding("nobody"), vec![session("carol", 0)]);
}

#[test]
fn names_stay_unique_through_admissions_and_removals() {
    let mut registry = Registry::new();
    let names = ["a", "b", "a", "c", "b", "a", "d"];
    for (i, name) in names.iter().enumerate() {
        registry.try_admit(name, i as u64);
        if i % 3 == 2 {
            registry.remove("b");
        }
        let all = registry.snapshot_excluding("");
        for x in 0..all.len() {
            for y in 0..x {
                assert_ne!(all[x].name, all[y].name);
            }
        }
    }
}

#[test]
fn the_snapshot_leaves_out_the_name_and_keeps_the_order() {
    let mut registry = Registry::new();
    registry.try_admit("alice", 1);
    registry.try_admit("bob", 2);
    registry.try_admit("carol", 3);
    assert_eq!(registry.snapshot_excluding("bob"), vec![session("alice", 1), session("carol", 3)]);
    assert_eq!(registry.snapshot_excluding("alice"), vec![session("bob", 2), session("carol", 3)]);
    assert_eq!(
        registry.snapshot_excluding("dave"),
        vec![session("alice", 1), session("bob", 2), session("carol", 3)]
    );
    assert_eq!(registry.len(), 3);
}

#[test]
fn removal_takes_the_member_out() {
    let mut registry = Registry::new();
    registry.try_admit("alice", 1);
    registry.try_admit("bob", 2);
    registry.remove("alice");
    assert!(!registry.contains("alice"));
    assert!(registry.contains("bob"));
    assert_eq!(registry.len(), 1);
}

#[test]
fn removing_an_absent_name_does_nothing() {
    let mut registry = Registry::new();
    registry.try_admit("alice", 1);
    registry.remove("bob");
    registry.remove("bob");
    assert_eq!(registry.snapshot_excluding(""), vec![session("alice", 1)]);
    registry.remove("alice");
    registry.remove("alice");
    assert_eq!(registry.len(), 0);
}

#[test]
fn a_name_that_has_left_can_join_again() {
    let mut registry = Registry::new();
    registry.try_admit("alice", 1);
    registry.try_admit("bob", 2);
    registry.remove("alice");
    assert!(registry.try_admit("alice", 3));
    assert_eq!(registry.snapshot_excluding(""), vec![session("bob", 2), session("alice", 3)]);
}
