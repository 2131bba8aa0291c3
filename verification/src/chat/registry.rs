//! The membership registry: who is in the room, and where each member's
//! output goes.
//!
//! A sink is named by a number that the caller chose for the connection; the
//! registry keeps it with the name and never looks inside.

use vstd::prelude::*;
use vstd::string::*;

verus! {

/// A registered member: its name and the handle of its output sink.
#[derive(Clone, Debug, PartialEq, Eq)]
pub struct Session {
    pub name: String,
    pub sink: u64,
}

/// A session as a mathematical value.
pub struct Member {
    pub name: Seq<char>,
    pub sink: u64,
}

impl View for Session {
    type V = Member;

    open spec fn view(&self) -> Member {
        Member { name: self.name@, sink: self.sink }
    }
}

/// Whether some member carries `name`.
pub open spec fn has_name(members: Seq<Member>, name: Seq<char>) -> bool {
    exists|i: int| 0 <= i < members.len() && (#[trigger] members[i]).name == name
}

/// No two members share a name.
pub open spec fn distinct_names(members: Seq<Member>) -> bool {
    forall|i: int, j: int|
        0 <= i < j < members.len() ==> (#[trigger] members[i]).name != (#[trigger] members[j]).name
}

/// The test that keeps every member but the one called `name`.
pub open spec fn is_other(name: Seq<char>) -> spec_fn(Member) -> bool {
    |m: Member| m.name != name
}

/// The members without the one called `name`, in their order.
pub open spec fn without(members: Seq<Member>, name: Seq<char>) -> Seq<Member> {
    members.filter(is_other(name))
}

/// The members after an attempt to admit `name`: the newcomer comes last,
/// and nothing changes where the name is taken.
pub open spec fn admitted(members: Seq<Member>, name: Seq<char>, sink: u64) -> Seq<Member> {
    if has_name(members, name) {
        members
    } else {
        members.push(Member { name, sink })
    }
}

/// The sessions of a vector as members.
pub open spec fn members_of(sessions: Seq<Session>) -> Seq<Member> {
    sessions.map_values(|s: Session| s@)
}

/// Every member of `without(members, name)` is a member of `members` that
/// is not called `name`, and the order of `members` is kept.
pub proof fn lemma_without(members: Seq<Member>, name: Seq<char>)
    ensures
        without(members, name).len() <= members.len(),
        !has_name(without(members, name), name),
        forall|other: Seq<char>|
            other != name ==> (has_name(without(members, name), other) <==> has_name(
                members,
                other,
            )),
        distinct_names(members) ==> distinct_names(without(members, name)),
        !has_name(members, name) ==> without(members, name) == members,
    decreases members.len(),
{
    reveal(Seq::filter);
    let rest = without(members, name);
    if members.len() > 0 {
        let front = members.drop_last();
        let last = members.last();
        lemma_without(front, name);
        let kept = without(front, name);
        assert forall|other: Seq<char>| other != name implies (has_name(rest, other) <==> has_name(
            members,
            other,
        )) by {
            if has_name(rest, other) {
                let i = choose|i: int| 0 <= i < rest.len() && (#[trigger] rest[i]).name == other;
                if i < kept.len() {
                    assert(kept[i].name == other);
                    assert(has_name(front, other));
                    let j = choose|j: int|
                        0 <= j < front.len() && (#[trigger] front[j]).name == other;
                    assert(members[j].name == other);
                } else {
                    assert(members[members.len() - 1].name == other);
                }
            }
            if has_name(members, other) {
                let j = choose|j: int|
                    0 <= j < members.len() && (#[trigger] members[j]).name == other;
                if j < front.len() {
                    assert(front[j].name == other);
                    assert(has_name(front, other));
                    assert(has_name(kept, other));
                    let i = choose|i: int| 0 <= i < kept.len() && (#[trigger] kept[i]).name == other;
                    assert(rest[i].name == other);
                } else {
                    assert(rest[rest.len() - 1].name == other);
                }
            }
        }
        if has_name(rest, name) {
            let i = choose|i: int| 0 <= i < rest.len() && (#[trigger] rest[i]).name == name;
            if i < kept.len() {
                assert(kept[i].name == name);
            }
        }
        if distinct_names(members) {
            assert forall|i: int, j: int| 0 <= i < j < front.len() implies (#[trigger] front[i]).name
                != (#[trigger] front[j]).name by {
                assert(members[i].name != members[j].name);
            }
            assert forall|i: int, j: int| 0 <= i < j < rest.len() implies (#[trigger] rest[i]).name
                != (#[trigger] rest[j]).name by {
                if j < kept.len() {
                    assert(kept[i].name != kept[j].name);
                } else {
                    assert(rest[j] == last);
                    assert(kept[i].name == rest[i].name);
                    if rest[i].name == last.name {
                        assert(has_name(kept, last.name));
                        assert(has_name(front, last.name));
                        let k = choose|k: int|
                            0 <= k < front.len() && (#[trigger] front[k]).name == last.name;
                        assert(members[k].name != members[members.len() - 1].name);
                    }
                }
            }
        }
        if !has_name(members, name) {
            if has_name(front, name) {
                let k = choose|k: int| 0 <= k < front.len() && (#[trigger] front[k]).name == name;
                assert(members[k].name == name);
            }
            assert(members[members.len() - 1].name != name);
            assert(rest =~= members);
        }
    } else {
        assert(rest =~= members);
    }
}

/// Admission keeps the names distinct, and afterwards the name is taken:
/// of two attempts to admit one name, the second fails.
pub proof fn lemma_admitted(members: Seq<Member>, name: Seq<char>, sink: u64)
    ensures
        distinct_names(members) ==> distinct_names(admitted(members, name, sink)),
        has_name(admitted(members, name, sink), name),
        forall|sink2: u64| #[trigger]
            admitted(admitted(members, name, sink), name, sink2) == admitted(members, name, sink),
{
    let after = admitted(members, name, sink);
    if has_name(members, name) {
    } else {
        assert(after[members.len() as int].name == name);
        if distinct_names(members) {
            assert forall|i: int, j: int| 0 <= i < j < after.len() implies (#[trigger] after[i]).name
                != (#[trigger] after[j]).name by {
                if j < members.len() {
                    assert(members[i].name != members[j].name);
                } else {
                    assert(members[i].name != name);
                }
            }
        }
    }
}

/// Everyone but a newcomer was in the room before it.
pub proof fn lemma_without_newcomer(members: Seq<Member>, name: Seq<char>, sink: u64)
    requires
        !has_name(members, name),
    ensures
        without(members.push(Member { name, sink }), name) == members,
{
    reveal(Seq::filter);
    lemma_without(members, name);
    assert(members.push(Member { name, sink }).drop_last() =~= members);
}

/// A name that has left can be admitted again.
pub proof fn lemma_readmit(members: Seq<Member>, name: Seq<char>, sink: u64)
    ensures
        admitted(without(members, name), name, sink) == without(members, name).push(
            Member { name, sink },
        ),
{
    lemma_without(members, name);
}

/// The sessions of `sessions` that are not called `name`, in their order.
fn others(sessions: &Vec<Session>, name: &String) -> (out: Vec<Session>)
    ensures
        members_of(out@) == without(members_of(sessions@), name@),
{
    let mut out: Vec<Session> = Vec::new();
    let mut i: usize = 0;
    assert(members_of(sessions@.take(0)) =~= Seq::<Member>::empty());
    assert(members_of(out@) =~= without(Seq::<Member>::empty(), name@)) by {
        reveal(Seq::filter);
    }
    while i < sessions.len()
        invariant
            0 <= i <= sessions.len(),
            members_of(out@) == without(members_of(sessions@.take(i as int)), name@),
        decreases sessions.len() - i,
    {
        let s = &sessions[i];
        let ghost prev = members_of(sessions@.take(i as int));
        let ghost next = members_of(sessions@.take(i + 1));
        let ghost before = out@;
        proof {
            assert(next.drop_last() =~= prev);
            assert(next.last() == s@);
            reveal(Seq::filter);
        }
        if !(s.name == *name) {
            out.push(Session { name: s.name.clone(), sink: s.sink });
            assert(members_of(out@) =~= members_of(before).push(s@));
        }
        i += 1;
    }
    assert(sessions@.take(sessions.len() as int) =~= sessions@);
    out
}

/// Whether a session of `sessions` is called `name`.
fn any_named(sessions: &Vec<Session>, name: &String) -> (found: bool)
    ensures
        found == has_name(members_of(sessions@), name@),
{
    let mut i: usize = 0;
    while i < sessions.len()
        invariant
            0 <= i <= sessions.len(),
            forall|j: int| 0 <= j < i ==> (#[trigger] sessions@[j]).name@ != name@,
        decreases sessions.len() - i,
    {
        if sessions[i].name == *name {
            assert(members_of(sessions@)[i as int].name == name@);
            return true;
        }
        i += 1;
    }
    proof {
        let members = members_of(sessions@);
        if has_name(members, name@) {
            let j = choose|j: int| 0 <= j < members.len() && (#[trigger] members[j]).name == name@;
            assert(sessions@[j].name@ != name@);
        }
    }
    false
}

/// The registry of the room: the sessions in the order of their admission.
/// No two of them ever share a name.
pub struct Registry {
    sessions: Vec<Session>,
}

impl View for Registry {
    type V = Seq<Member>;

    closed spec fn view(&self) -> Seq<Member> {
        members_of(self.sessions@)
    }
}

impl Registry {
    #[verifier::type_invariant]
    spec fn names_stay_distinct(&self) -> bool {
        distinct_names(members_of(self.sessions@))
    }

    /// The registry of an empty room.
    pub fn new() -> (r: Registry)
        ensures
            r@ == Seq::<Member>::empty(),
    {
        let sessions: Vec<Session> = Vec::new();
        assert(members_of(sessions@) =~= Seq::<Member>::empty());
        Registry { sessions }
    }

    /// The number of members.
    pub fn len(&self) -> (n: usize)
        ensures
            n == self@.len(),
            distinct_names(self@),
    {
        proof {
            use_type_invariant(self);
        }
        self.sessions.len()
    }

    /// Whether a member carries `name`.
    pub fn contains(&self, name: &str) -> (found: bool)
        ensures
            found == has_name(self@, name@),
            distinct_names(self@),
    {
        proof {
            use_type_invariant(self);
        }
        let name = String::from_str(name);
        any_named(&self.sessions, &name)
    }

    /// Admits `name` with its sink unless the name is taken. The test and
    /// the insertion are one step: of two attempts for one name, whichever
    /// order they come in, the first succeeds and the second fails.
    pub fn try_admit(&mut self, name: &str, sink: u64) -> (ok: bool)
        ensures
            ok == !has_name(old(self)@, name@),
            final(self)@ == admitted(old(self)@, name@, sink),
            distinct_names(final(self)@),
    {
        proof {
            use_type_invariant(&*self);
            lemma_admitted(self@, name@, sink);
        }
        let name = String::from_str(name);
        if any_named(&self.sessions, &name) {
            return false;
        }
        let ghost before = self.sessions@;
        let mut sessions: Vec<Session> = Vec::new();
        assert(members_of(sessions@) =~= Seq::<Member>::empty());
        std::mem::swap(&mut self.sessions, &mut sessions);
        sessions.push(Session { name, sink });
        assert(members_of(sessions@) =~= members_of(before).push(Member { name: name@, sink }));
        self.sessions = sessions;
        true
    }

    /// Removes the member called `name`. Nothing happens where there is
    /// none, so a second removal does no harm.
    pub fn remove(&mut self, name: &str)
        ensures
            final(self)@ == without(old(self)@, name@),
            distinct_names(final(self)@),
    {
        proof {
            use_type_invariant(&*self);
            lemma_without(self@, name@);
        }
        let name = String::from_str(name);
        let kept = others(&self.sessions, &name);
        self.sessions = kept;
    }

    /// The sessions of all members but the one called `name`, in the order
    /// of their admission.
    pub fn snapshot_excluding(&self, name: &str) -> (snapshot: Vec<Session>)
        ensures
            members_of(snapshot@) == without(self@, name@),
            distinct_names(members_of(snapshot@)),
    {
        proof {
            use_type_invariant(self);
            lemma_without(self@, name@);
        }
        let name = String::from_str(name);
        others(&self.sessions, &name)
    }
}

} // verus!
