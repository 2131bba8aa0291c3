//! The room as a whole: its workers and its registry, and what holds of
//! them together however the workers take their turns.

use vstd::prelude::*;
use crate::chat::broadcast::owns;
use crate::chat::registry::{distinct_names, has_name, is_other, lemma_without, without, Member};
use crate::chat::worker::{
    failure_transition, frame_transition, ConnectionError, WorkerStateView, WorkerView,
};

verus! {

/// The workers and the members agree: a name is registered, with the
/// worker's sink, exactly while its worker is active.
pub open spec fn agrees(workers: Seq<WorkerView>, members: Seq<Member>) -> bool {
    &&& forall|i: int|
        0 <= i < workers.len() ==> ((#[trigger] workers[i]).state matches WorkerStateView::Active(
            name,
        ) ==> owns(members, name, workers[i].sink))
    &&& forall|k: int|
        0 <= k < members.len() ==> served(workers, #[trigger] members[k])
}

/// Some active worker stands behind the member.
pub open spec fn served(workers: Seq<WorkerView>, member: Member) -> bool {
    exists|i: int|
        0 <= i < workers.len() && #[trigger] workers[i] == (WorkerView {
            sink: member.sink,
            state: WorkerStateView::Active(member.name),
        })
}

/// No two workers write to one sink.
pub open spec fn distinct_worker_sinks(workers: Seq<WorkerView>) -> bool {
    forall|i: int, j: int|
        0 <= i < j < workers.len() ==> (#[trigger] workers[i]).sink != (#[trigger] workers[j]).sink
}

/// The workers after worker `i` has moved to `state`.
pub open spec fn moved(workers: Seq<WorkerView>, i: int, state: WorkerStateView) -> Seq<
    WorkerView,
> {
    workers.update(i, WorkerView { sink: workers[i].sink, state })
}

/// A frame keeps the room in order: whichever worker takes it, the names
/// stay distinct, and workers and members still agree.
pub proof fn lemma_frame_keeps_agreement(
    workers: Seq<WorkerView>,
    members: Seq<Member>,
    i: int,
    frame: Seq<char>,
)
    requires
        0 <= i < workers.len(),
        distinct_names(members),
        agrees(workers, members),
    ensures
        ({
            let t = frame_transition(workers[i].state, workers[i].sink, members, frame);
            &&& distinct_names(t.members)
            &&& agrees(moved(workers, i, t.state), t.members)
        }),
{
    let t = frame_transition(workers[i].state, workers[i].sink, members, frame);
    let after = moved(workers, i, t.state);
    crate::chat::registry::lemma_admitted(members, frame, workers[i].sink);
    match workers[i].state {
        WorkerStateView::Handshaking => {
            assert forall|k: int| 0 <= k < members.len() implies served(
                after,
                #[trigger] members[k],
            ) by {
                assert(served(workers, members[k]));
                let w = choose|w: int|
                    0 <= w < workers.len() && #[trigger] workers[w] == (WorkerView {
                        sink: members[k].sink,
                        state: WorkerStateView::Active(members[k].name),
                    });
                assert(after[w] == workers[w]);
            }
            if t.state is Active {
                let newcomer = Member { name: frame, sink: workers[i].sink };
                assert(t.members == members.push(newcomer));
                assert(!has_name(members, frame));
                assert(t.members == crate::chat::registry::admitted(
                    members,
                    frame,
                    workers[i].sink,
                ));
                assert forall|j: int| 0 <= j < after.len() implies ((
                #[trigger] after[j]).state matches WorkerStateView::Active(name) ==> owns(
                    t.members,
                    name,
                    after[j].sink,
                )) by {
                    if after[j].state is Active {
                        let name = after[j].state->Active_0;
                        if j == i {
                            assert(t.members[members.len() as int] == newcomer);
                        } else {
                            assert(after[j] == workers[j]);
                            assert(owns(members, name, workers[j].sink));
                            let k = choose|k: int|
                                0 <= k < members.len() && #[trigger] members[k] == (Member {
                                    name,
                                    sink: workers[j].sink,
                                });
                            assert(t.members[k] == members[k]);
                        }
                    }
                }
                assert forall|k: int| 0 <= k < t.members.len() implies served(
                    after,
                    #[trigger] t.members[k],
                ) by {
                    if k < members.len() {
                        assert(t.members[k] == members[k]);
                        assert(served(after, members[k]));
                    } else {
                        assert(after[i] == (WorkerView {
                            sink: newcomer.sink,
                            state: WorkerStateView::Active(newcomer.name),
                        }));
                    }
                }
            } else {
                assert forall|j: int| 0 <= j < after.len() implies ((
                #[trigger] after[j]).state matches WorkerStateView::Active(name) ==> owns(
                    t.members,
                    name,
                    after[j].sink,
                )) by {
                    if j != i {
                        assert(after[j] == workers[j]);
                    }
                }
            }
        },
        _ => {
            assert(after =~= workers);
        },
    }
}

/// A failure keeps the room in order: whichever worker it strikes, the
/// names stay distinct, and workers and members still agree. This needs
/// that no two workers share a sink.
pub proof fn lemma_failure_keeps_agreement(
    workers: Seq<WorkerView>,
    members: Seq<Member>,
    i: int,
    error: ConnectionError,
)
    requires
        0 <= i < workers.len(),
        distinct_names(members),
        distinct_worker_sinks(workers),
        agrees(workers, members),
    ensures
        ({
            let t = failure_transition(workers[i].state, members, error);
            &&& distinct_names(t.members)
            &&& agrees(moved(workers, i, t.state), t.members)
        }),
{
    let t = failure_transition(workers[i].state, members, error);
    let after = moved(workers, i, t.state);
    match workers[i].state {
        WorkerStateView::Active(gone) => {
            lemma_without(members, gone);
            let rest = without(members, gone);
            assert(owns(members, gone, workers[i].sink));
            let own = choose|k: int|
                0 <= k < members.len() && #[trigger] members[k] == (Member {
                    name: gone,
                    sink: workers[i].sink,
                });
            assert forall|j: int| 0 <= j < after.len() implies ((
            #[trigger] after[j]).state matches WorkerStateView::Active(name) ==> owns(
                rest,
                name,
                after[j].sink,
            )) by {
                if j != i && after[j].state is Active {
                    let name = after[j].state->Active_0;
                    assert(after[j] == workers[j]);
                    assert(owns(members, name, workers[j].sink));
                    let k = choose|k: int|
                        0 <= k < members.len() && #[trigger] members[k] == (Member {
                            name,
                            sink: workers[j].sink,
                        });
                    if name == gone {
                        if k < own {
                            assert(members[k].name != members[own].name);
                        } else if own < k {
                            assert(members[own].name != members[k].name);
                        }
                        if j < i {
                            assert(workers[j].sink != workers[i].sink);
                        } else {
                            assert(workers[i].sink != workers[j].sink);
                        }
                    }
                    assert(is_other(gone)(members[k]));
                    members.lemma_filter_contains(is_other(gone), k);
                    let r = choose|r: int| 0 <= r < rest.len() && rest[r] == members[k];
                    assert(rest[r] == (Member { name, sink: workers[j].sink }));
                }
            }
            assert forall|k: int| 0 <= k < rest.len() implies served(after, #[trigger] rest[k]) by {
                let m = rest[k];
                members.lemma_filter_pred(is_other(gone), k);
                assert(m.name != gone);
                members.lemma_filter_contains_rev(is_other(gone), m);
                let q = choose|q: int| 0 <= q < members.len() && members[q] == m;
                assert(served(workers, members[q]));
                let w = choose|w: int|
                    0 <= w < workers.len() && #[trigger] workers[w] == (WorkerView {
                        sink: m.sink,
                        state: WorkerStateView::Active(m.name),
                    });
                assert(w != i);
                assert(after[w] == workers[w]);
            }
        },
        WorkerStateView::Handshaking => {
            assert forall|j: int| 0 <= j < after.len() implies ((
            #[trigger] after[j]).state matches WorkerStateView::Active(name) ==> owns(
                members,
                name,
                after[j].sink,
            )) by {
                if j != i {
                    assert(after[j] == workers[j]);
                }
            }
            assert forall|k: int| 0 <= k < members.len() implies served(
                after,
                #[trigger] members[k],
            ) by {
                assert(served(workers, members[k]));
                let w = choose|w: int|
                    0 <= w < workers.len() && #[trigger] workers[w] == (WorkerView {
                        sink: members[k].sink,
                        state: WorkerStateView::Active(members[k].name),
                    });
                assert(after[w] == workers[w]);
            }
        },
        WorkerStateView::Terminated => {
            assert(after =~= workers);
        },
    }
}

} // verus!
