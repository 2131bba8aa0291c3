//! The handshake: the prompt, the verdict on a proposed name, admission to
//! the registry and the roster that greets a new member.

use vstd::prelude::*;
use vstd::string::*;
use crate::chat::event::{Event, EventView};
use crate::chat::names::{check_name, valid_name, Rejection};
use crate::chat::registry::{
    has_name, lemma_without_newcomer, members_of, without, Member, Registry, Session,
};

verus! {

/// The prompt that opens every connection.
pub const WELCOME_MESSAGE: &'static str = "Welcome to budgetchat! What shall I call you?\n";

/// The line sent before a connection is closed for its name.
pub const REJECTION_MESSAGE: &'static str = "Invalid username\n";

/// The names in `names`, separated by a comma and a space.
pub open spec fn comma_separated(names: Seq<Seq<char>>) -> Seq<char>
    decreases names.len(),
{
    if names.len() == 0 {
        Seq::empty()
    } else if names.len() == 1 {
        names[0]
    } else {
        comma_separated(names.drop_last()) + ", "@ + names.last()
    }
}

/// The names of `members`, in their order.
pub open spec fn names_of(members: Seq<Member>) -> Seq<Seq<char>> {
    members.map_values(|m: Member| m.name)
}

/// The line that tells a new member who else is in the room.
pub open spec fn roster_line(others: Seq<Member>) -> Seq<char> {
    "*Welcome. Users in room: "@ + comma_separated(names_of(others)) + "\n"@
}

/// Why `name` cannot join `members`, or `None` where it can: an empty name,
/// then a malformed one, then one that is taken.
pub open spec fn verdict(members: Seq<Member>, name: Seq<char>) -> Option<Rejection> {
    if name.len() == 0 {
        Some(Rejection::EmptyName)
    } else if !valid_name(name) {
        Some(Rejection::NonAsciiOrNonAlnum)
    } else if has_name(members, name) {
        Some(Rejection::NameTaken)
    } else {
        None
    }
}

/// What a successful handshake hands to the worker.
#[derive(Clone, Debug, PartialEq, Eq)]
pub struct Admission {
    /// The roster line for the new member.
    pub roster: String,
    /// The event that announces the new member to the others.
    pub joined: Event,
}

/// Writes the roster line for a member that finds `others` in the room.
pub fn roster(others: &Vec<Session>) -> (line: String)
    ensures
        line@ == roster_line(members_of(others@)),
{
    let mut list = String::new();
    let mut i: usize = 0;
    let ghost names = names_of(members_of(others@));
    assert(names.take(0) =~= Seq::<Seq<char>>::empty());
    while i < others.len()
        invariant
            0 <= i <= others.len(),
            names == names_of(members_of(others@)),
            list@ == comma_separated(names.take(i as int)),
        decreases others.len() - i,
    {
        let ghost before = list@;
        if i > 0 {
            list.append(", ");
        }
        list.append(others[i].name.as_str());
        proof {
            let next = names.take(i + 1);
            assert(next.drop_last() =~= names.take(i as int));
            assert(next.last() == others@[i as int].name@);
            if i == 0 {
                assert(list@ =~= next[0]);
            }
        }
        i += 1;
    }
    assert(names.take(others.len() as int) =~= names);
    let mut line = String::from_str("*Welcome. Users in room: ");
    line.append(list.as_str());
    line.append("\n");
    line
}

/// Decides on a proposed name and, where it can join, admits it.
///
/// The name joins exactly when [`verdict`] has nothing against it. Then the
/// registry gains the member, the roster lists everyone else in the order
/// of admission, and the event announces the name. Otherwise the registry
/// is left as it was and the reason is returned.
pub fn handshake(registry: &mut Registry, name: &str, sink: u64) -> (res: Result<Admission, Rejection>)
    ensures
        match res {
            Ok(admission) => {
                &&& verdict(old(registry)@, name@) is None
                &&& final(registry)@ == old(registry)@.push(Member { name: name@, sink })
                &&& admission.roster@ == roster_line(without(final(registry)@, name@))
                &&& admission.roster@ == roster_line(old(registry)@)
                &&& admission.joined@ == EventView::Joined(name@)
            },
            Err(reason) => {
                &&& verdict(old(registry)@, name@) == Some(reason)
                &&& final(registry)@ == old(registry)@
            },
        },
{
    match check_name(name) {
        Err(reason) => {
            return Err(reason);
        },
        Ok(_) => {},
    }
    let ghost before = registry@;
    if !registry.try_admit(name, sink) {
        return Err(Rejection::NameTaken);
    }
    let others = registry.snapshot_excluding(name);
    proof {
        lemma_without_newcomer(before, name@, sink);
    }
    let line = roster(&others);
    Ok(Admission { roster: line, joined: Event::Joined(String::from_str(name)) })
}

} // verus!
