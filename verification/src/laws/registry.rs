//! What spawning does to a registry.

use crate::actor_ref::ActorRef;
use crate::laws::steps::lemma_adopt_keeps_wf;
use crate::state::SystemState;
use vstd::prelude::*;

verus! {

/// The state after each of `kids` was entered in the registry of `parent`,
/// in their order.
pub open spec fn adopt_all<A, M>(
    s: SystemState<A, M>,
    parent: u128,
    kids: Seq<ActorRef<A>>,
) -> SystemState<A, M>
    decreases kids.len(),
{
    if kids.len() == 0 {
        s
    } else {
        adopt_all(s, parent, kids.drop_last()).adopt(parent, kids.last())
    }
}

/// Whether each of `kids` could be spawned under `parent` in their order:
/// whether, at its turn, the registry of `parent` had no child with its
/// identifier.
pub open spec fn spawnable<A, M>(s: SystemState<A, M>, parent: u128, kids: Seq<ActorRef<A>>) -> bool
    decreases kids.len(),
{
    kids.len() == 0 || {
        &&& spawnable(s, parent, kids.drop_last())
        &&& !adopt_all(s, parent, kids.drop_last()).children[parent].contains_key(kids.last().pid)
    }
}

/// Spawning adds exactly the spawned actors to a registry: after `kids`
/// were spawned under `parent`, their identifiers differ from one another,
/// the registry holds each of them under its identifier and, unchanged,
/// every child that it held before, and it has grown by their number.
/// Nothing else in the system has changed.
pub proof fn lemma_spawns_fill_registry<A, M>(
    s: SystemState<A, M>,
    parent: u128,
    kids: Seq<ActorRef<A>>,
)
    requires
        s.wf(),
        spawnable(s, parent, kids),
    ensures
        ({
            let before = s.children[parent];
            let after = adopt_all(s, parent, kids).children[parent];
            &&& adopt_all(s, parent, kids).wf()
            &&& after.len() == before.len() + kids.len()
            &&& forall|i: int, j: int|
                0 <= i < j < kids.len() ==> #[trigger] kids[i].pid != #[trigger] kids[j].pid
            &&& forall|i: int|
                0 <= i < kids.len() ==> after.contains_key(#[trigger] kids[i].pid)
                    && after[kids[i].pid] == kids[i]
            &&& forall|pid: u128| #[trigger]
                before.contains_key(pid) ==> after.contains_key(pid) && after[pid] == before[pid]
            &&& forall|pid: u128| #[trigger]
                after.contains_key(pid) ==> before.contains_key(pid) || exists|i: int|
                    0 <= i < kids.len() && #[trigger] kids[i].pid == pid
            &&& adopt_all(s, parent, kids) == (SystemState {
                children: s.children.insert(parent, after),
                ..s
            })
        }),
    decreases kids.len(),
{
    let before = s.children[parent];
    if kids.len() == 0 {
        assert(s.children.insert(parent, before) =~= s.children);
    } else {
        let earlier = kids.drop_last();
        let kid = kids.last();
        lemma_spawns_fill_registry(s, parent, earlier);
        let mid_state = adopt_all(s, parent, earlier);
        let mid = mid_state.children[parent];
        let after = adopt_all(s, parent, kids).children[parent];
        assert(after == mid.insert(kid.pid, kid));
        assert(mid.dom().finite());
        lemma_adopt_keeps_wf(mid_state, parent, kid);
        assert forall|i: int, j: int| 0 <= i < j < kids.len() implies #[trigger] kids[i].pid
            != #[trigger] kids[j].pid by {
            if j == kids.len() - 1 {
                assert(earlier[i] == kids[i]);
                assert(mid.contains_key(earlier[i].pid));
            } else {
                assert(earlier[i] == kids[i] && earlier[j] == kids[j]);
            }
        }
        assert forall|i: int| 0 <= i < kids.len() implies after.contains_key(
            #[trigger] kids[i].pid,
        ) && after[kids[i].pid] == kids[i] by {
            if i < kids.len() - 1 {
                assert(earlier[i] == kids[i]);
                assert(mid.contains_key(earlier[i].pid));
            }
        }
        assert forall|pid: u128| #[trigger] after.contains_key(pid) implies before.contains_key(pid)
            || exists|i: int| 0 <= i < kids.len() && #[trigger] kids[i].pid == pid by {
            if pid == kid.pid {
                assert(kids[kids.len() - 1].pid == pid);
            } else {
                assert(mid.contains_key(pid));
                if !before.contains_key(pid) {
                    let i = choose|i: int|
                        0 <= i < earlier.len() && #[trigger] earlier[i].pid == pid;
                    assert(kids[i].pid == pid);
                }
            }
        }
        assert(adopt_all(s, parent, kids).children =~= s.children.insert(parent, after));
    }
}

} // verus!
