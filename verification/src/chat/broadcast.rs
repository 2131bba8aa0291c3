//! The broadcaster: each event goes, as one line, to every member but its
//! originator, and the events go out in the order in which they arrive.
//!
//! [`fan_out`] decides who receives what for one event. The caller takes the
//! events off the channel one by one, calls it with the registry as it then
//! is, and performs the writes; a write that fails is skipped.

use vstd::prelude::*;
use vstd::string::*;
use crate::chat::event::{Event, EventView};
use crate::chat::registry::{
    distinct_names, has_name, lemma_without, members_of, without, Member, Registry,
};

verus! {

/// An order to write `text` to the sink of the member `recipient`.
#[derive(Clone, Debug, PartialEq, Eq)]
pub struct Delivery {
    pub recipient: String,
    pub sink: u64,
    pub text: String,
}

/// A delivery as a mathematical value.
pub struct DeliveryView {
    pub recipient: Seq<char>,
    pub sink: u64,
    pub text: Seq<char>,
}

impl View for Delivery {
    type V = DeliveryView;

    open spec fn view(&self) -> DeliveryView {
        DeliveryView { recipient: self.recipient@, sink: self.sink, text: self.text@ }
    }
}

/// The deliveries of a vector as mathematical values.
pub open spec fn deliveries_of(deliveries: Seq<Delivery>) -> Seq<DeliveryView> {
    deliveries.map_values(|d: Delivery| d@)
}

/// Addresses `text` to a member.
pub open spec fn addressed(text: Seq<char>) -> spec_fn(Member) -> DeliveryView {
    |m: Member| DeliveryView { recipient: m.name, sink: m.sink, text }
}

/// The deliveries that one event causes in a room with the given members:
/// its line, to every member but its originator, in the order of admission.
pub open spec fn fan_out_spec(members: Seq<Member>, event: EventView) -> Seq<DeliveryView> {
    without(members, event.origin()).map_values(addressed(event.rendered()))
}

/// The test for the deliveries to the member `name`.
pub open spec fn is_for(name: Seq<char>) -> spec_fn(DeliveryView) -> bool {
    |d: DeliveryView| d.recipient == name
}

/// The lines that `name` receives from `deliveries`, in their order.
pub open spec fn inbox(deliveries: Seq<DeliveryView>, name: Seq<char>) -> Seq<Seq<char>> {
    deliveries.filter(is_for(name)).map_values(|d: DeliveryView| d.text)
}

/// One turn of the broadcaster: the event taken off the channel and the
/// members of the room at that moment.
pub struct Round {
    pub members: Seq<Member>,
    pub event: EventView,
}

/// All deliveries of a run of the broadcaster, in the order in which it
/// makes them: round after round, and within a round member after member.
pub open spec fn relay(rounds: Seq<Round>) -> Seq<DeliveryView>
    decreases rounds.len(),
{
    if rounds.len() == 0 {
        Seq::empty()
    } else {
        relay(rounds.drop_last()) + fan_out_spec(rounds.last().members, rounds.last().event)
    }
}

/// The test for the events that do not come from `name`.
pub open spec fn from_another(name: Seq<char>) -> spec_fn(Round) -> bool {
    |r: Round| r.event.origin() != name
}

/// The lines of the events of `rounds` that do not come from `name`, in the
/// order of the rounds.
pub open spec fn heard(rounds: Seq<Round>, name: Seq<char>) -> Seq<Seq<char>> {
    rounds.filter(from_another(name)).map_values(|r: Round| r.event.rendered())
}

/// Whether `sink` belongs to the member called `name`.
pub open spec fn owns(members: Seq<Member>, name: Seq<char>, sink: u64) -> bool {
    exists|i: int| 0 <= i < members.len() && #[trigger] members[i] == (Member { name, sink })
}

/// No two members share a sink.
pub open spec fn distinct_sinks(members: Seq<Member>) -> bool {
    forall|i: int, j: int|
        0 <= i < j < members.len() ==> (#[trigger] members[i]).sink != (#[trigger] members[j]).sink
}

proof fn lemma_inbox_concat(a: Seq<DeliveryView>, b: Seq<DeliveryView>, name: Seq<char>)
    ensures
        inbox(a + b, name) == inbox(a, name) + inbox(b, name),
{
    Seq::filter_distributes_over_add(a, b, is_for(name));
    assert(inbox(a + b, name) =~= inbox(a, name) + inbox(b, name));
}

/// Among members with distinct names, a line addressed to each of them
/// reaches `name` once if it is a member, and not at all otherwise.
proof fn lemma_inbox_addressed(members: Seq<Member>, text: Seq<char>, name: Seq<char>)
    requires
        distinct_names(members),
    ensures
        inbox(members.map_values(addressed(text)), name) == if has_name(members, name) {
            seq![text]
        } else {
            Seq::<Seq<char>>::empty()
        },
    decreases members.len(),
{
    reveal(Seq::filter);
    let all = members.map_values(addressed(text));
    if members.len() == 0 {
        assert(inbox(all, name) =~= Seq::<Seq<char>>::empty());
    } else {
        let front = members.drop_last();
        let last = members.last();
        assert forall|i: int, j: int| 0 <= i < j < front.len() implies (#[trigger] front[i]).name
            != (#[trigger] front[j]).name by {
            assert(members[i].name != members[j].name);
        }
        lemma_inbox_addressed(front, text, name);
        assert(all.drop_last() =~= front.map_values(addressed(text)));
        assert(all.last() == addressed(text)(last));
        if has_name(front, name) {
            let k = choose|k: int| 0 <= k < front.len() && (#[trigger] front[k]).name == name;
            assert(members[k].name == name);
            assert(members[k].name != members[members.len() - 1].name);
        }
        if last.name == name {
            assert(members[members.len() - 1].name == name);
            assert(inbox(all, name) =~= seq![text]);
        } else {
            if has_name(members, name) {
                let k = choose|k: int|
                    0 <= k < members.len() && (#[trigger] members[k]).name == name;
                assert(front[k].name == name);
            }
            assert(inbox(all, name) =~= inbox(all.drop_last(), name));
        }
    }
}

/// What one event brings a member: its line if it comes from someone else,
/// nothing if it is the member's own.
pub proof fn lemma_fan_out_inbox(members: Seq<Member>, event: EventView, name: Seq<char>)
    requires
        distinct_names(members),
        has_name(members, name),
    ensures
        inbox(fan_out_spec(members, event), name) == if event.origin() != name {
            seq![event.rendered()]
        } else {
            Seq::<Seq<char>>::empty()
        },
{
    lemma_without(members, event.origin());
    lemma_inbox_addressed(without(members, event.origin()), event.rendered(), name);
}

/// Self-exclusion: no delivery of an event goes to its originator, and,
/// where no two members share a sink, none goes to the originator's sink.
/// Every delivery goes to a member, by the sink registered for it, and
/// carries the event's line.
pub proof fn lemma_self_exclusion(members: Seq<Member>, event: EventView)
    ensures
        forall|i: int|
            0 <= i < fan_out_spec(members, event).len() ==> {
                let d = #[trigger] fan_out_spec(members, event)[i];
                &&& d.recipient != event.origin()
                &&& d.text == event.rendered()
                &&& owns(members, d.recipient, d.sink)
                &&& forall|sink: u64|
                    distinct_sinks(members) && owns(members, event.origin(), sink) ==> d.sink
                        != sink
            },
{
    let origin = event.origin();
    let others = without(members, origin);
    let out = fan_out_spec(members, event);
    lemma_without(members, origin);
    assert forall|i: int| 0 <= i < out.len() implies {
        let d = #[trigger] out[i];
        &&& d.recipient != origin
        &&& d.text == event.rendered()
        &&& owns(members, d.recipient, d.sink)
        &&& forall|sink: u64|
            distinct_sinks(members) && owns(members, origin, sink) ==> d.sink != sink
    } by {
        let d = out[i];
        let m = others[i];
        assert(d == addressed(event.rendered())(m));
        if m.name == origin {
            assert(has_name(others, origin));
        }
        members.lemma_filter_contains_rev(crate::chat::registry::is_other(origin), m);
        let k = choose|k: int| 0 <= k < members.len() && members[k] == m;
        assert(members[k] == (Member { name: d.recipient, sink: d.sink }));
        assert forall|sink: u64|
            distinct_sinks(members) && owns(members, origin, sink) implies d.sink != sink by {
            let o = choose|o: int|
                0 <= o < members.len() && #[trigger] members[o] == (Member { name: origin, sink });
            if o < k {
                assert(members[o].sink != members[k].sink);
            } else if k < o {
                assert(members[k].sink != members[o].sink);
            }
        }
    }
}

/// Total order: a member that is in the room at every round receives the
/// lines of all events that are not its own, each once, in the order in
/// which the events arrived.
pub proof fn lemma_total_order(rounds: Seq<Round>, name: Seq<char>)
    requires
        forall|i: int|
            0 <= i < rounds.len() ==> distinct_names((#[trigger] rounds[i]).members) && has_name(
                rounds[i].members,
                name,
            ),
    ensures
        inbox(relay(rounds), name) == heard(rounds, name),
    decreases rounds.len(),
{
    reveal(Seq::filter);
    if rounds.len() == 0 {
        assert(inbox(relay(rounds), name) =~= heard(rounds, name));
    } else {
        let front = rounds.drop_last();
        let last = rounds.last();
        assert forall|i: int| 0 <= i < front.len() implies distinct_names(
            (#[trigger] front[i]).members,
        ) && has_name(front[i].members, name) by {
            assert(front[i] == rounds[i]);
        }
        lemma_total_order(front, name);
        assert(last == rounds[rounds.len() - 1]);
        lemma_fan_out_inbox(last.members, last.event, name);
        lemma_inbox_concat(relay(front), fan_out_spec(last.members, last.event), name);
        if last.event.origin() != name {
            assert(heard(rounds, name) =~= heard(front, name) + seq![last.event.rendered()]);
        } else {
            assert(heard(rounds, name) =~= heard(front, name));
        }
    }
}

/// Decides who receives what for one event: the event's line goes to every
/// member but its originator, in the order of admission.
pub fn fan_out(registry: &Registry, event: &Event) -> (out: Vec<Delivery>)
    ensures
        deliveries_of(out@) == fan_out_spec(registry@, event@),
        forall|i: int| 0 <= i < out@.len() ==> (#[trigger] out@[i]).recipient@ != event@.origin(),
{
    let line = event.render();
    let recipients = registry.snapshot_excluding(event.origin());
    let ghost others = members_of(recipients@);
    let mut out: Vec<Delivery> = Vec::new();
    let mut i: usize = 0;
    assert(deliveries_of(out@) =~= others.take(0).map_values(addressed(line@)));
    while i < recipients.len()
        invariant
            0 <= i <= recipients.len(),
            others == members_of(recipients@),
            deliveries_of(out@) == others.take(i as int).map_values(addressed(line@)),
        decreases recipients.len() - i,
    {
        let ghost before = out@;
        let s = &recipients[i];
        out.push(Delivery { recipient: s.name.clone(), sink: s.sink, text: line.clone() });
        assert(deliveries_of(out@) =~= deliveries_of(before).push(addressed(line@)(s@)));
        assert(others.take(i + 1).map_values(addressed(line@)) =~= others.take(
            i as int,
        ).map_values(addressed(line@)).push(addressed(line@)(s@)));
        i += 1;
    }
    assert(others.take(recipients.len() as int) =~= others);
    proof {
        lemma_self_exclusion(registry@, event@);
        assert forall|i: int| 0 <= i < out@.len() implies (#[trigger] out@[i]).recipient@
            != event@.origin() by {
            assert(deliveries_of(out@)[i] == out@[i]@);
        }
    }
    out
}

} // verus!
