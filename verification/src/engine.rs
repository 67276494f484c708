//! Depth-first backtracking search over an abstract state space.
//!
//! Given an initial state and a rule for generating successor states, the
//! engine finds one sequence of states from the initial state to a state
//! satisfying the terminal predicate.  It keeps an explicit stack of open
//! attempts instead of recursing, and memoizes dead ends so that no state
//! is ever explored twice.

use vstd::prelude::*;
use std::io::Write;

verus! {

use vstd::string::StringExecFns;

/// How much diagnostic output the search prints while it runs.  The
/// setting never affects the search result.
#[derive(Clone, Copy, Debug, PartialEq, Eq, Structural)]
pub enum Verbosity {
    Quiet,
    Info,
    Trace,
}

/// The typed, recoverable signal that the whole reachable state space was
/// explored and no terminal state was found.
#[derive(Clone, Copy, Debug, PartialEq, Eq, Structural)]
pub struct SearchExhausted;

/// A node of a search graph: the capability set a state type must offer
/// so that the engine can search it.  Two states that are equal must be
/// fungible: the engine treats a visit to one as a visit to the other.
pub trait State: Sized {
    /// Whether this state satisfies the search goal, as a mathematical
    /// predicate.
    spec fn spec_is_final(&self) -> bool;

    /// The ordered successor states, as a mathematical sequence.
    spec fn spec_successors(&self) -> Seq<Self>;

    /// Whether this state satisfies the search goal.
    fn is_final(&self) -> (r: bool)
        ensures
            r == self.spec_is_final(),
    ;

    /// The states reachable in one step, in the order in which the state
    /// generates them.  The engine tries them in reverse: last first.
    fn get_possible_successors(&self) -> (r: Vec<Self>)
        ensures
            r@ == self.spec_successors(),
    ;

    /// Whether two states are the same.
    fn equals(&self, other: &Self) -> (r: bool)
        ensures
            r == (*self == *other),
    ;

    /// An independent copy of this state.
    fn clone_state(&self) -> (r: Self)
        ensures
            r == *self,
    ;

    /// A deterministic, human-readable label, used only for diagnostics.
    fn label(&self) -> String;

    /// A finite set of states, closed under successor generation, that
    /// holds every state the search may meet.  This makes precise the
    /// demand that a state type limit its own growth: a space without such
    /// a bound would let the search run forever.
    spec fn spec_space() -> Set<Self>;

    /// The state space is finite.
    proof fn lemma_space_finite()
        ensures
            Self::spec_space().finite(),
    ;

    /// The state space is closed under successor generation.
    proof fn lemma_space_closed(s: Self)
        requires
            Self::spec_space().contains(s),
        ensures
            forall|k: int|
                0 <= k < s.spec_successors().len() ==> Self::spec_space().contains(
                    #[trigger] s.spec_successors()[k],
                ),
    ;
}

/// One frame of the search: a state that was entered, plus the successors
/// of it that have not been tried yet.
struct Attempt<AState: State> {
    state: AState,
    successors_to_try: Vec<AState>,
}

/// Each state of `p` after the first is a successor of the one before it.
pub open spec fn is_successor_path<AState: State>(p: Seq<AState>) -> bool {
    forall|i: int| 0 <= i < p.len() - 1 ==> #[trigger] p[i].spec_successors().contains(p[i + 1])
}

/// `to` can be reached from `from` along zero or more successor steps.
pub open spec fn reaches<AState: State>(from: AState, to: AState) -> bool {
    exists|p: Seq<AState>|
        p.len() > 0 && p[0] == from && p.last() == to && #[trigger] is_successor_path(p)
}

/// Some open attempt holds this state.
spec fn on_stack<AState: State>(attempts: Seq<Attempt<AState>>, s: AState) -> bool {
    exists|i: int| 0 <= i < attempts.len() && attempts[i].state == s
}

/// The state is accounted for: either a known dead end or on the stack.
spec fn settled<AState: State>(
    dead: Seq<AState>,
    attempts: Seq<Attempt<AState>>,
    s: AState,
) -> bool {
    dead.contains(s) || on_stack(attempts, s)
}

/// The not-yet-tried successors of a frame are exactly an initial segment
/// of the state's successor sequence, and no frame holds a final state.
spec fn attempt_wf<AState: State>(a: Attempt<AState>) -> bool {
    &&& a.successors_to_try@.len() <= a.state.spec_successors().len()
    &&& a.successors_to_try@ == a.state.spec_successors().take(
        a.successors_to_try@.len() as int,
    )
    &&& !a.state.spec_is_final()
}

/// The stack of attempts is the current path: it starts at the initial
/// state, each frame's state is a successor of the one below it, and no
/// state appears twice.
#[verifier::opaque]
spec fn stack_wf<AState: State>(attempts: Seq<Attempt<AState>>, initial: AState) -> bool {
    &&& forall|i: int| 0 <= i < attempts.len() ==> attempt_wf(#[trigger] attempts[i])
    &&& forall|i: int|
        0 < i < attempts.len() ==> attempts[i - 1].state.spec_successors().contains(
            (#[trigger] attempts[i]).state,
        )
    &&& forall|i: int, j: int|
        0 <= i < j < attempts.len() ==> attempts[i].state != attempts[j].state
    &&& attempts.len() > 0 ==> attempts[0].state == initial
}

/// Every successor a frame has already tried is not final and is settled.
#[verifier::opaque]
spec fn tried_settled<AState: State>(
    dead: Seq<AState>,
    attempts: Seq<Attempt<AState>>,
) -> bool {
    forall|i: int, k: int|
        0 <= i < attempts.len() && attempts[i].successors_to_try@.len() <= k
            < attempts[i].state.spec_successors().len() ==> {
            &&& !(#[trigger] attempts[i].state.spec_successors()[k]).spec_is_final()
            &&& settled(dead, attempts, attempts[i].state.spec_successors()[k])
        }
}

/// Every state the search holds lies in the state space.
#[verifier::opaque]
spec fn in_space<AState: State>(dead: Seq<AState>, attempts: Seq<Attempt<AState>>) -> bool {
    &&& forall|d: int| 0 <= d < dead.len() ==> AState::spec_space().contains(#[trigger] dead[d])
    &&& forall|i: int|
        0 <= i < attempts.len() ==> AState::spec_space().contains(
            (#[trigger] attempts[i]).state,
        )
}

/// The states the search has met so far: dead ends and open attempts.
spec fn explored_states<AState: State>(
    dead: Seq<AState>,
    attempts: Seq<Attempt<AState>>,
) -> Set<AState> {
    Set::new(|s: AState| settled(dead, attempts, s))
}

/// How many states of the space the search has not met yet; the leading
/// component of the termination measure.
spec fn unexplored_count<AState: State>(
    dead: Seq<AState>,
    attempts: Seq<Attempt<AState>>,
) -> nat {
    AState::spec_space().difference(explored_states(dead, attempts)).len()
}

/// How many successors are still pending over the whole stack.
spec fn pending_total<AState: State>(attempts: Seq<Attempt<AState>>) -> nat
    decreases attempts.len(),
{
    if attempts.len() == 0 {
        0
    } else {
        pending_total(attempts.drop_last()) + attempts.last().successors_to_try@.len()
    }
}

/// Dead-end states are not final, and each of their successors is settled
/// in turn: a terminal state can never hide behind a dead end.
#[verifier::opaque]
spec fn dead_closed<AState: State>(
    dead: Seq<AState>,
    attempts: Seq<Attempt<AState>>,
) -> bool {
    &&& forall|d: int| 0 <= d < dead.len() ==> !(#[trigger] dead[d]).spec_is_final()
    &&& forall|d: int, k: int|
        0 <= d < dead.len() && 0 <= k < dead[d].spec_successors().len() ==> settled(
            dead,
            attempts,
            #[trigger] dead[d].spec_successors()[k],
        )
}

/// A set of dead ends that is closed under successors and free of final
/// states traps every successor path that starts inside it.
proof fn lemma_dead_set_traps_paths<AState: State>(dead: Seq<AState>, p: Seq<AState>)
    requires
        p.len() > 0,
        dead.contains(p[0]),
        is_successor_path(p),
        forall|d: int| 0 <= d < dead.len() ==> !(#[trigger] dead[d]).spec_is_final(),
        forall|d: int, k: int|
            0 <= d < dead.len() && 0 <= k < dead[d].spec_successors().len() ==> dead.contains(
                #[trigger] dead[d].spec_successors()[k],
            ),
    ensures
        dead.contains(p.last()),
        !p.last().spec_is_final(),
    decreases p.len(),
{
    if p.len() == 1 {
        assert(p.last() == p[0]);
        let d = choose|d: int| 0 <= d < dead.len() && dead[d] == p[0];
        assert(!dead[d].spec_is_final());
    } else {
        let q = p.drop_last();
        assert(is_successor_path(q)) by {
            assert forall|i: int| 0 <= i < q.len() - 1 implies #[trigger] q[i].spec_successors()
                .contains(q[i + 1]) by {
                assert(q[i] == p[i]);
                assert(q[i + 1] == p[i + 1]);
            }
        }
        assert(q[0] == p[0]);
        lemma_dead_set_traps_paths(dead, q);
        let prev = p[p.len() - 2];
        assert(q.last() == prev);
        assert(prev.spec_successors().contains(p.last())) by {
            assert(p[p.len() - 2].spec_successors().contains(p[p.len() - 2 + 1]));
        }
        let d = choose|d: int| 0 <= d < dead.len() && dead[d] == prev;
        let k = choose|k: int|
            0 <= k < prev.spec_successors().len() && prev.spec_successors()[k] == p.last();
        assert(dead.contains(dead[d].spec_successors()[k]));
        let e = choose|e: int| 0 <= e < dead.len() && dead[e] == p.last();
        assert(!dead[e].spec_is_final());
    }
}

/// Taking one successor out of the top frame's pending list keeps the
/// search invariants, provided that successor is not final and is already
/// settled (it is discarded rather than entered).
proof fn lemma_step_keeps_invariants<AState: State>(
    old_dead: Seq<AState>,
    old_att: Seq<Attempt<AState>>,
    dead: Seq<AState>,
    att: Seq<Attempt<AState>>,
    initial: AState,
    cand: AState,
    ti: int,
    ki: int,
)
    requires
        dead == old_dead,
        stack_wf(old_att, initial),
        tried_settled(old_dead, old_att),
        dead_closed(old_dead, old_att),
        settled(old_dead, old_att, initial),
        att.len() == old_att.len(),
        ti == old_att.len() - 1,
        0 <= ti,
        forall|j: int| 0 <= j < ti ==> att[j] == old_att[j],
        att[ti].state == old_att[ti].state,
        0 <= ki,
        ki + 1 <= att[ti].state.spec_successors().len(),
        old_att[ti].successors_to_try@.len() == ki + 1,
        att[ti].successors_to_try@ == att[ti].state.spec_successors().take(ki),
        cand == att[ti].state.spec_successors()[ki],
        !cand.spec_is_final(),
        settled(dead, att, cand),
        in_space(old_dead, old_att),
        forall|s: AState| on_stack(old_att, s) == on_stack(att, s),
    ensures
        stack_wf(att, initial),
        tried_settled(dead, att),
        dead_closed(dead, att),
        settled(dead, att, initial),
        in_space(dead, att),
        explored_states(dead, att) == explored_states(old_dead, old_att),
        pending_total(old_att) == pending_total(att) + 1,
{
    reveal(stack_wf);
    reveal(tried_settled);
    reveal(dead_closed);
    reveal(in_space);
    assert(forall|j: int| 0 <= j < att.len() ==> att[j].state == old_att[j].state);
    assert forall|i: int| 0 <= i < att.len() implies AState::spec_space().contains(
        (#[trigger] att[i]).state,
    ) by {
        assert(AState::spec_space().contains(old_att[i].state));
    }
    assert(explored_states(dead, att) =~= explored_states(old_dead, old_att)) by {
        assert(forall|s: AState|
            settled(dead, att, s) == settled(old_dead, old_att, s));
    }
    assert(old_att.drop_last() =~= att.drop_last());
    assert(pending_total(old_att) == pending_total(old_att.drop_last()) + (ki + 1));
    assert(pending_total(att) == pending_total(att.drop_last()) + ki);
    assert forall|i: int| 0 <= i < att.len() implies attempt_wf(#[trigger] att[i]) by {
        if i < ti {
            assert(att[i] == old_att[i]);
            assert(attempt_wf(old_att[i]));
        } else {
            assert(attempt_wf(old_att[ti]));
        }
    }
    assert forall|i: int| 0 < i < att.len() implies att[i - 1].state.spec_successors().contains(
        (#[trigger] att[i]).state,
    ) by {
        assert(old_att[i - 1].state.spec_successors().contains(old_att[i].state));
    }
    assert forall|i: int, k: int|
        0 <= i < att.len() && att[i].successors_to_try@.len() <= k
            < att[i].state.spec_successors().len() implies {
            &&& !(#[trigger] att[i].state.spec_successors()[k]).spec_is_final()
            &&& settled(dead, att, att[i].state.spec_successors()[k])
        } by {
        if i < ti {
            assert(att[i] == old_att[i]);
            assert(!old_att[i].state.spec_successors()[k].spec_is_final());
            assert(settled(old_dead, old_att, old_att[i].state.spec_successors()[k]));
        } else {
            if k == ki {
                assert(att[i].state.spec_successors()[k] == cand);
            } else {
                assert(old_att[ti].successors_to_try@.len() <= k);
                assert(!old_att[ti].state.spec_successors()[k].spec_is_final());
                assert(settled(old_dead, old_att, old_att[ti].state.spec_successors()[k]));
            }
        }
    }
    assert forall|d: int, k: int|
        0 <= d < dead.len() && 0 <= k < dead[d].spec_successors().len() implies settled(
        dead,
        att,
        #[trigger] dead[d].spec_successors()[k],
    ) by {
        assert(settled(old_dead, old_att, old_dead[d].spec_successors()[k]));
    }
}

/// Entering a fresh successor as a new top frame keeps the search
/// invariants: the new state is not final, not yet settled, and its whole
/// successor list is still pending.
proof fn lemma_push_keeps_invariants<AState: State>(
    old_dead: Seq<AState>,
    old_att: Seq<Attempt<AState>>,
    mid_att: Seq<Attempt<AState>>,
    att: Seq<Attempt<AState>>,
    initial: AState,
    cand: AState,
    ti: int,
    ki: int,
)
    requires
        stack_wf(old_att, initial),
        tried_settled(old_dead, old_att),
        dead_closed(old_dead, old_att),
        settled(old_dead, old_att, initial),
        mid_att.len() == old_att.len(),
        ti == old_att.len() - 1,
        0 <= ti,
        forall|j: int| 0 <= j < ti ==> mid_att[j] == old_att[j],
        mid_att[ti].state == old_att[ti].state,
        0 <= ki,
        ki + 1 <= mid_att[ti].state.spec_successors().len(),
        old_att[ti].successors_to_try@.len() == ki + 1,
        mid_att[ti].successors_to_try@ == mid_att[ti].state.spec_successors().take(ki),
        cand == mid_att[ti].state.spec_successors()[ki],
        !cand.spec_is_final(),
        !on_stack(mid_att, cand),
        !old_dead.contains(cand),
        att.len() == mid_att.len() + 1,
        forall|j: int| 0 <= j < mid_att.len() ==> att[j] == mid_att[j],
        att[att.len() - 1].state == cand,
        att[att.len() - 1].successors_to_try@ == cand.spec_successors(),
        in_space(old_dead, old_att),
        forall|s: AState| on_stack(old_att, s) == on_stack(mid_att, s),
    ensures
        stack_wf(att, initial),
        tried_settled(old_dead, att),
        dead_closed(old_dead, att),
        settled(old_dead, att, initial),
        in_space(old_dead, att),
        unexplored_count(old_dead, att) < unexplored_count(old_dead, old_att),
{
    reveal(stack_wf);
    reveal(tried_settled);
    reveal(dead_closed);
    reveal(in_space);
    let nn = att.len() - 1;
    assert(forall|j: int| 0 <= j < nn ==> att[j] == mid_att[j]);
    assert(att[nn].state == cand);
    assert(forall|j: int| 0 <= j < nn ==> att[j].state == old_att[j].state);
    assert forall|s: AState| on_stack(mid_att, s) implies on_stack(att, s) by {
        let i = choose|i: int| 0 <= i < mid_att.len() && mid_att[i].state == s;
        assert(att[i].state == s);
    }
    // Well-formed frames.
    assert forall|i: int| 0 <= i < att.len() implies attempt_wf(#[trigger] att[i]) by {
        if i < ti {
            assert(att[i] == old_att[i]);
            assert(attempt_wf(old_att[i]));
        } else if i == ti {
            assert(attempt_wf(old_att[ti]));
            assert(att[ti].successors_to_try@ =~= att[ti].state.spec_successors().take(
                att[ti].successors_to_try@.len() as int,
            ));
        } else {
            assert(att[i].successors_to_try@ =~= att[i].state.spec_successors().take(
                att[i].successors_to_try@.len() as int,
            ));
        }
    }
    // Consecutive frames are successor-linked.
    assert forall|i: int| 0 < i < att.len() implies att[i - 1].state.spec_successors().contains(
        (#[trigger] att[i]).state,
    ) by {
        if i < att.len() - 1 {
            assert(old_att[i - 1].state.spec_successors().contains(old_att[i].state));
        } else {
            assert(att[i - 1].state.spec_successors()[ki] == cand);
        }
    }
    // No state repeats on the stack.
    assert forall|i: int, j: int| 0 <= i < j < att.len() implies att[i].state != att[j].state by {
        if j < att.len() - 1 {
            assert(old_att[i].state != old_att[j].state);
        } else {
            if att[i].state == cand {
                assert(on_stack(mid_att, cand));
            }
        }
    }
    // Tried successors stay settled.
    assert forall|i: int, k: int|
        0 <= i < att.len() && att[i].successors_to_try@.len() <= k
            < att[i].state.spec_successors().len() implies {
            &&& !(#[trigger] att[i].state.spec_successors()[k]).spec_is_final()
            &&& settled(old_dead, att, att[i].state.spec_successors()[k])
        } by {
        if i < ti {
            assert(att[i] == old_att[i]);
            assert(!old_att[i].state.spec_successors()[k].spec_is_final());
            assert(settled(old_dead, old_att, old_att[i].state.spec_successors()[k]));
        } else if i == ti {
            if k == ki {
                assert(att[i].state.spec_successors()[k] == cand);
                assert(on_stack(att, cand)) by {
                    assert(att[att.len() - 1].state == cand);
                }
            } else {
                assert(old_att[ti].successors_to_try@.len() <= k);
                assert(!old_att[ti].state.spec_successors()[k].spec_is_final());
                assert(settled(old_dead, old_att, old_att[ti].state.spec_successors()[k]));
            }
        } else {
            assert(att[i].successors_to_try@.len() == att[i].state.spec_successors().len());
        }
    }
    // Dead ends stay closed.
    assert forall|d: int, k: int|
        0 <= d < old_dead.len() && 0 <= k < old_dead[d].spec_successors().len() implies settled(
        old_dead,
        att,
        #[trigger] old_dead[d].spec_successors()[k],
    ) by {
        assert(settled(old_dead, old_att, old_dead[d].spec_successors()[k]));
    }
    assert(att[0].state == initial);
    // The entered state lies in the space because it is a successor of a
    // state that does.
    assert(AState::spec_space().contains(old_att[ti].state));
    AState::lemma_space_closed(old_att[ti].state);
    assert(AState::spec_space().contains(cand));
    assert forall|i: int| 0 <= i < att.len() implies AState::spec_space().contains(
        (#[trigger] att[i]).state,
    ) by {
        if i < att.len() - 1 {
            assert(AState::spec_space().contains(old_att[i].state));
        }
    }
    // One more state of the finite space is now explored, so the count of
    // unexplored states goes down.
    let exp_old = explored_states(old_dead, old_att);
    let exp_new = explored_states(old_dead, att);
    assert(exp_new =~= exp_old.insert(cand)) by {
        assert forall|s: AState|
            settled(old_dead, att, s) implies settled(old_dead, old_att, s) || s == cand by {
            if on_stack(att, s) {
                let i = choose|i: int| 0 <= i < att.len() && att[i].state == s;
                if i < att.len() - 1 {
                    assert(old_att[i].state == s);
                }
            }
        }
        assert forall|s: AState|
            settled(old_dead, old_att, s) implies settled(old_dead, att, s) by {
            if on_stack(old_att, s) {
                assert(on_stack(mid_att, s));
                let i = choose|i: int| 0 <= i < mid_att.len() && mid_att[i].state == s;
                assert(att[i].state == s);
            }
        }
        assert(settled(old_dead, att, cand)) by {
            assert(att[att.len() - 1].state == cand);
        }
    }
    assert(!exp_old.contains(cand));
    AState::lemma_space_finite();
    let space = AState::spec_space();
    let diff_old = space.difference(exp_old);
    let diff_new = space.difference(exp_new);
    assert(diff_old.subset_of(space));
    vstd::set_lib::lemma_len_subset(diff_old, space);
    assert(diff_new =~= diff_old.remove(cand));
    assert(diff_old.contains(cand));
    vstd::set::axiom_set_remove_len(diff_old, cand);
}

/// Retiring an exhausted top frame into the dead-end set keeps the search
/// invariants.
proof fn lemma_backtrack_keeps_invariants<AState: State>(
    old_dead: Seq<AState>,
    old_att: Seq<Attempt<AState>>,
    dead: Seq<AState>,
    att: Seq<Attempt<AState>>,
    initial: AState,
)
    requires
        stack_wf(old_att, initial),
        tried_settled(old_dead, old_att),
        dead_closed(old_dead, old_att),
        settled(old_dead, old_att, initial),
        old_att.len() >= 1,
        att == old_att.drop_last(),
        old_att[old_att.len() - 1].successors_to_try@.len() == 0,
        dead == old_dead.push(old_att[old_att.len() - 1].state),
        in_space(old_dead, old_att),
    ensures
        stack_wf(att, initial),
        tried_settled(dead, att),
        dead_closed(dead, att),
        settled(dead, att, initial),
        in_space(dead, att),
        explored_states(dead, att) == explored_states(old_dead, old_att),
        pending_total(att) == pending_total(old_att),
{
    reveal(stack_wf);
    reveal(tried_settled);
    reveal(dead_closed);
    reveal(in_space);
    let n = old_att.len();
    let t = old_att[n - 1].state;
    assert(dead[dead.len() - 1] == t);
    assert(forall|j: int| 0 <= j < n - 1 ==> att[j] == old_att[j]);
    // Settledness carries over from the old stack to the new stack plus
    // the freshly recorded dead end.
    assert forall|s: AState| settled(old_dead, old_att, s) implies settled(dead, att, s) by {
        if old_dead.contains(s) {
            let d = choose|d: int| 0 <= d < old_dead.len() && old_dead[d] == s;
            assert(dead[d] == s);
        } else {
            let i = choose|i: int| 0 <= i < old_att.len() && old_att[i].state == s;
            if i < n - 1 {
                assert(att[i].state == s);
            } else {
                assert(dead[dead.len() - 1] == s);
            }
        }
    }
    assert forall|i: int| 0 <= i < att.len() implies attempt_wf(#[trigger] att[i]) by {
        assert(attempt_wf(old_att[i]));
    }
    assert forall|i: int| 0 < i < att.len() implies att[i - 1].state.spec_successors().contains(
        (#[trigger] att[i]).state,
    ) by {
        assert(old_att[i - 1].state.spec_successors().contains(old_att[i].state));
    }
    assert forall|i: int, k: int|
        0 <= i < att.len() && att[i].successors_to_try@.len() <= k
            < att[i].state.spec_successors().len() implies {
            &&& !(#[trigger] att[i].state.spec_successors()[k]).spec_is_final()
            &&& settled(dead, att, att[i].state.spec_successors()[k])
        } by {
        assert(att[i] == old_att[i]);
        assert(!old_att[i].state.spec_successors()[k].spec_is_final());
        assert(settled(old_dead, old_att, old_att[i].state.spec_successors()[k]));
    }
    assert forall|d: int| 0 <= d < dead.len() implies !(#[trigger] dead[d]).spec_is_final() by {
        if d < old_dead.len() {
            assert(dead[d] == old_dead[d]);
        } else {
            assert(dead[d] == t);
            assert(attempt_wf(old_att[n - 1]));
        }
    }
    assert forall|d: int, k: int|
        0 <= d < dead.len() && 0 <= k < dead[d].spec_successors().len() implies settled(
        dead,
        att,
        #[trigger] dead[d].spec_successors()[k],
    ) by {
        if d < old_dead.len() {
            assert(dead[d] == old_dead[d]);
            assert(settled(old_dead, old_att, old_dead[d].spec_successors()[k]));
        } else {
            assert(dead[d] == t);
            // Every successor of the retired state was tried: its pending
            // list is empty.
            assert(old_att[n - 1].successors_to_try@.len() <= k);
            assert(settled(old_dead, old_att, old_att[n - 1].state.spec_successors()[k]));
        }
    }
    // The retired state stays accounted for, so the space invariant holds
    // and the explored set is unchanged; the pending total is unchanged
    // because the retired frame had nothing pending.
    assert forall|d: int| 0 <= d < dead.len() implies AState::spec_space().contains(
        #[trigger] dead[d],
    ) by {
        if d < old_dead.len() {
            assert(dead[d] == old_dead[d]);
        } else {
            assert(dead[d] == old_att[n - 1].state);
        }
    }
    assert forall|i: int| 0 <= i < att.len() implies AState::spec_space().contains(
        (#[trigger] att[i]).state,
    ) by {
        assert(AState::spec_space().contains(old_att[i].state));
    }
    assert(explored_states(dead, att) =~= explored_states(old_dead, old_att)) by {
        assert forall|s: AState| settled(dead, att, s) implies settled(
            old_dead,
            old_att,
            s,
        ) by {
            if dead.contains(s) {
                let d = choose|d: int| 0 <= d < dead.len() && dead[d] == s;
                if d < old_dead.len() {
                    assert(old_dead[d] == s);
                } else {
                    assert(old_att[n - 1].state == s);
                }
            } else {
                let i = choose|i: int| 0 <= i < att.len() && att[i].state == s;
                assert(old_att[i].state == s);
            }
        }
        assert(forall|s: AState| settled(old_dead, old_att, s) ==> settled(dead, att, s));
    }
    assert(pending_total(old_att) == pending_total(old_att.drop_last())
        + old_att.last().successors_to_try@.len());
}

/// A one-frame stack holding the initial state with all its successors
/// pending satisfies the search invariants with no dead ends yet.
proof fn lemma_init<AState: State>(
    dead: Seq<AState>,
    att: Seq<Attempt<AState>>,
    initial: AState,
)
    requires
        dead.len() == 0,
        att.len() == 1,
        att[0].state == initial,
        att[0].successors_to_try@ == initial.spec_successors(),
        !initial.spec_is_final(),
        AState::spec_space().contains(initial),
    ensures
        stack_wf(att, initial),
        tried_settled(dead, att),
        dead_closed(dead, att),
        in_space(dead, att),
{
    reveal(stack_wf);
    reveal(tried_settled);
    reveal(dead_closed);
    reveal(in_space);
    assert(att[0].successors_to_try@ =~= att[0].state.spec_successors().take(
        att[0].successors_to_try@.len() as int,
    ));
    assert(attempt_wf(att[0]));
}

/// The top frame of a well-formed stack is itself well formed, and the
/// bottom frame holds the initial state.
proof fn lemma_top_frame_facts<AState: State>(att: Seq<Attempt<AState>>, initial: AState)
    requires
        stack_wf(att, initial),
        att.len() > 0,
    ensures
        attempt_wf(att[att.len() - 1]),
        att[0].state == initial,
{
    reveal(stack_wf);
}

/// Two stacks whose frames hold the same states hold the same states.
proof fn lemma_same_states_on_stack<AState: State>(
    a: Seq<Attempt<AState>>,
    b: Seq<Attempt<AState>>,
)
    requires
        a.len() == b.len(),
        forall|j: int| 0 <= j < a.len() ==> a[j].state == b[j].state,
    ensures
        forall|s: AState| on_stack(a, s) == on_stack(b, s),
{
    assert forall|s: AState| on_stack(a, s) implies on_stack(b, s) by {
        let i = choose|i: int| 0 <= i < a.len() && a[i].state == s;
        assert(b[i].state == s);
    }
    assert forall|s: AState| on_stack(b, s) implies on_stack(a, s) by {
        let i = choose|i: int| 0 <= i < b.len() && b[i].state == s;
        assert(a[i].state == s);
    }
}

/// When a final successor is appended to a well-formed stack, the states
/// of the stack form a correct search result.
proof fn lemma_success_path<AState: State>(
    old_att: Seq<Attempt<AState>>,
    att: Seq<Attempt<AState>>,
    pv: Seq<AState>,
    initial: AState,
    cand: AState,
    n: int,
    k0: int,
)
    requires
        stack_wf(old_att, initial),
        n == old_att.len(),
        n >= 1,
        1 <= k0 <= old_att[n - 1].state.spec_successors().len(),
        old_att[n - 1].successors_to_try@.len() == k0,
        cand == old_att[n - 1].state.spec_successors()[k0 - 1],
        cand.spec_is_final(),
        att.len() == n + 1,
        forall|j: int| 0 <= j < n - 1 ==> att[j] == old_att[j],
        att[n - 1].state == old_att[n - 1].state,
        att[n].state == cand,
        pv.len() == n + 1,
        forall|k: int| 0 <= k < n + 1 ==> pv[k] == att[k].state,
        ({
            let succs = initial.spec_successors();
            (succs.len() > 0 && succs.last().spec_is_final()) ==> (n == 1
                && old_att[0].successors_to_try@.len() == succs.len())
        }),
    ensures
        pv.len() >= 1,
        pv[0] == initial,
        pv.last().spec_is_final(),
        is_successor_path(pv),
        forall|i: int| 0 <= i < pv.len() - 1 ==> !(#[trigger] pv[i]).spec_is_final(),
        forall|i: int, j: int| 0 <= i < j < pv.len() ==> pv[i] != pv[j],
        ({
            let succs = initial.spec_successors();
            (succs.len() > 0 && succs.last().spec_is_final()) ==> pv =~= seq![
                initial,
                succs.last(),
            ]
        }),
{
    reveal(stack_wf);
    assert(forall|j: int| 0 <= j < n ==> pv[j] == old_att[j].state);
    assert(pv[0] == initial);
    assert(pv.last() == cand);
    assert(is_successor_path(pv)) by {
        assert forall|i: int| 0 <= i < pv.len() - 1 implies #[trigger] pv[i].spec_successors()
            .contains(pv[i + 1]) by {
            if i < n - 1 {
                assert(old_att[i].state.spec_successors().contains(old_att[i + 1].state));
            } else {
                assert(pv[i] == old_att[n - 1].state);
                assert(pv[i + 1] == cand);
            }
        }
    }
    assert forall|i: int| 0 <= i < pv.len() - 1 implies !(#[trigger] pv[i]).spec_is_final() by {
        assert(attempt_wf(old_att[i]));
    }
    assert forall|i: int, j: int| 0 <= i < j < pv.len() implies pv[i] != pv[j] by {
        if j < n {
            assert(old_att[i].state != old_att[j].state);
        } else {
            assert(attempt_wf(old_att[i]));
            assert(!pv[i].spec_is_final());
        }
    }
    let succs = initial.spec_successors();
    if succs.len() > 0 && succs.last().spec_is_final() {
        assert(n == 1);
        assert(old_att[0].state == initial);
        assert(k0 == succs.len());
        assert(cand == succs.last());
        assert(pv =~= seq![initial, succs.last()]);
    }
}

/// Whether some open attempt already holds this state.
fn is_on_stack<AState: State>(attempts: &Vec<Attempt<AState>>, s: &AState) -> (r: bool)
    ensures
        r == on_stack(attempts@, *s),
{
    let mut i: usize = 0;
    while i < attempts.len()
        invariant
            i <= attempts@.len(),
            forall|k: int| 0 <= k < i ==> attempts@[k].state != *s,
        decreases attempts@.len() - i,
    {
        if attempts[i].state.equals(s) {
            return true;
        }
        i = i + 1;
    }
    false
}

/// Whether the vector already holds this state.
fn contains_state<AState: State>(states: &Vec<AState>, s: &AState) -> (r: bool)
    ensures
        r == states@.contains(*s),
{
    let mut i: usize = 0;
    while i < states.len()
        invariant
            i <= states@.len(),
            forall|k: int| 0 <= k < i ==> states@[k] != *s,
        decreases states@.len() - i,
    {
        if states[i].equals(s) {
            return true;
        }
        i = i + 1;
    }
    false
}

/// Copy the states of the open attempts, root first.
fn collect_states<AState: State>(attempts: &Vec<Attempt<AState>>) -> (r: Vec<AState>)
    ensures
        r@.len() == attempts@.len(),
        forall|k: int| 0 <= k < attempts@.len() ==> r@[k] == attempts@[k].state,
{
    let mut r: Vec<AState> = Vec::new();
    let mut i: usize = 0;
    while i < attempts.len()
        invariant
            i <= attempts@.len(),
            r@.len() == i,
            forall|k: int| 0 <= k < i ==> r@[k] == attempts@[k].state,
        decreases attempts@.len() - i,
    {
        r.push(attempts[i].state.clone_state());
        i = i + 1;
    }
    r
}

/// Relies on the `Write` implementation of `std::io::Stdout`: prints one
/// line of diagnostic output; a write failure is ignored.
#[verifier::external_body]
fn emit_line(line: &str) {
    let _ = writeln!(std::io::stdout(), "{}", line);
}

/// Print the trace line for a successor about to be examined.
fn emit_trying<AState: State>(s: &AState) {
    let mut line: String = "Going to evaluate successors of ".to_owned();
    let l = s.label();
    line.append(l.as_str());
    line.append(".");
    emit_line(line.as_str());
}

/// Print the trace line for a successor that was seen before.
fn emit_tried_before<AState: State>(s: &AState) {
    let l = s.label();
    let mut line: String = l;
    line.append(" has been tried before, not considering it.");
    emit_line(line.as_str());
}

/// Print the line announcing a backtrack.
fn emit_backtracking<AState: State>(s: &AState) {
    let mut line: String = "Backtracking from ".to_owned();
    let l = s.label();
    line.append(l.as_str());
    emit_line(line.as_str());
}

/// Print the current set of known dead ends.
fn emit_dead_ends<AState: State>(dead_ends: &Vec<AState>) {
    let mut line: String = "  Known dead ends: ".to_owned();
    let mut i: usize = 0;
    while i < dead_ends.len()
        decreases dead_ends@.len() - i,
    {
        if i > 0 {
            line.append(", ");
        }
        let l = dead_ends[i].label();
        line.append(l.as_str());
        i = i + 1;
    }
    emit_line(line.as_str());
}

/// Search depth-first from `initial_state` for a state that satisfies
/// `is_final`, memoizing dead ends so that no state is explored twice.
///
/// On success the returned path starts at the initial state, ends at the
/// first terminal state found, follows successor steps, and repeats no
/// state.  `SearchExhausted` means no terminal state is reachable from the
/// initial state at all.  Successors are tried in reverse generation
/// order (LIFO), a deliberate, observable tie-break; `verbosity` controls
/// diagnostic output only.
#[verifier::rlimit(100)]
#[verifier::spinoff_prover]
pub fn get_sequence_to_final_state<AState: State>(
    initial_state: &AState,
    verbosity: &Verbosity,
) -> (r: Result<Vec<AState>, SearchExhausted>)
    requires
        AState::spec_space().contains(*initial_state),
    ensures
        match r {
            Ok(path) => {
                &&& path@.len() >= 1
                &&& path@[0] == *initial_state
                &&& path@.last().spec_is_final()
                &&& is_successor_path(path@)
                &&& forall|i: int| 0 <= i < path@.len() - 1 ==> !(#[trigger] path@[i]).spec_is_final()
                &&& forall|i: int, j: int| 0 <= i < j < path@.len() ==> path@[i] != path@[j]
            },
            Err(_) => forall|t: AState| reaches(*initial_state, t) ==> !t.spec_is_final(),
        },
        (r is Ok) <==> exists|t: AState| reaches(*initial_state, t) && t.spec_is_final(),
        initial_state.spec_is_final() ==> (r matches Ok(path) && path@ =~= seq![*initial_state]),
        ({
            let succs = initial_state.spec_successors();
            (!initial_state.spec_is_final() && succs.len() > 0 && succs.last().spec_is_final())
                ==> (r matches Ok(path) && path@ =~= seq![*initial_state, succs.last()])
        }),
{
    if initial_state.is_final() {
        let mut path: Vec<AState> = Vec::new();
        path.push(initial_state.clone_state());
        proof {
            assert(path@ =~= seq![*initial_state]);
            let p = seq![*initial_state];
            assert(p.len() > 0 && p[0] == *initial_state && p.last() == *initial_state);
            assert(is_successor_path(p));
            assert(reaches(*initial_state, *initial_state));
        }
        return Ok(path);
    }

    // Things that we can currently try: the path from the initial state to
    // the search frontier.
    let mut attempts: Vec<Attempt<AState>> = Vec::new();
    attempts.push(
        Attempt {
            state: initial_state.clone_state(),
            successors_to_try: initial_state.get_possible_successors(),
        },
    );
    // Things that we have tried and failed, so do not re-try.
    let mut dead_ends: Vec<AState> = Vec::new();

    // The states whose successors were generated so far.  It always equals
    // the set of states met so far, which is why no state ever has its
    // successors generated twice.
    let ghost mut asked: Set<AState> = Set::empty().insert(*initial_state);

    proof {
        lemma_init(dead_ends@, attempts@, *initial_state);
        assert(attempts@[0].state == *initial_state);
        assert(on_stack(attempts@, *initial_state));
        assert(asked =~= explored_states(dead_ends@, attempts@)) by {
            assert(forall|s: AState|
                settled(dead_ends@, attempts@, s) ==> s == *initial_state);
        }
    }

    while attempts.len() > 0
        invariant
            stack_wf(attempts@, *initial_state),
            tried_settled(dead_ends@, attempts@),
            dead_closed(dead_ends@, attempts@),
            settled(dead_ends@, attempts@, *initial_state),
            in_space(dead_ends@, attempts@),
            !initial_state.spec_is_final(),
            ({
                let succs = initial_state.spec_successors();
                (succs.len() > 0 && succs.last().spec_is_final()) ==> (attempts@.len() == 1
                    && attempts@[0].successors_to_try@.len() == succs.len())
            }),
            asked == explored_states(dead_ends@, attempts@),
        decreases
            unexplored_count(dead_ends@, attempts@),
            pending_total(attempts@),
            attempts@.len(),
    {
        let ghost old_attempts = attempts@;
        let ghost old_dead = dead_ends@;
        let ghost n: int = old_attempts.len() as int;
        let mut current_attempt = attempts.pop().unwrap();
        let ghost top0 = old_attempts[n - 1];
        proof {
            lemma_top_frame_facts(old_attempts, *initial_state);
        }
        if current_attempt.successors_to_try.len() > 0 {
            let ghost k0 = top0.successors_to_try@.len() as int;
            let successor = current_attempt.successors_to_try.pop().unwrap();
            attempts.push(current_attempt);
            proof {
                // The stack holds the same states as before; only the top
                // frame's pending list lost its last element.
                assert(attempts@.len() == n);
                assert(forall|j: int| 0 <= j < n - 1 ==> attempts@[j] == old_attempts[j]);
                assert(attempts@[n - 1].state == top0.state);
                assert(top0.successors_to_try@ == top0.state.spec_successors().take(k0));
                assert(successor == top0.state.spec_successors().take(k0)[k0 - 1]);
                assert(successor == top0.state.spec_successors()[k0 - 1]);
                assert(attempts@[n - 1].successors_to_try@ =~= top0.state.spec_successors().take(
                    k0 - 1,
                ));
                assert(forall|j: int|
                    0 <= j < n ==> attempts@[j].state == old_attempts[j].state);
                lemma_same_states_on_stack(old_attempts, attempts@);
            }
            if *verbosity == Verbosity::Trace {
                emit_trying(&successor);
            }
            if successor.is_final() {
                attempts.push(Attempt { state: successor, successors_to_try: Vec::new() });
                let path = collect_states(&attempts);
                proof {
                    lemma_success_path(
                        old_attempts,
                        attempts@,
                        path@,
                        *initial_state,
                        successor,
                        n,
                        k0,
                    );
                    assert(is_successor_path(path@));
                    assert(reaches(*initial_state, path@.last()));
                    assert(path@.last().spec_is_final());
                }
                return Ok(path);
            }
            let already_open = is_on_stack(&attempts, &successor);
            let already_dead = contains_state(&dead_ends, &successor);
            if already_open || already_dead {
                // This state has already been tested: no need to re-try.
                if *verbosity == Verbosity::Trace {
                    emit_tried_before(&successor);
                }
                proof {
                    assert(settled(dead_ends@, attempts@, successor));
                    lemma_step_keeps_invariants(
                        old_dead,
                        old_attempts,
                        dead_ends@,
                        attempts@,
                        *initial_state,
                        successor,
                        n - 1,
                        k0 - 1,
                    );
                    assert(!(initial_state.spec_successors().len() > 0
                        && initial_state.spec_successors().last().spec_is_final())) by {
                        if initial_state.spec_successors().len() > 0
                            && initial_state.spec_successors().last().spec_is_final() {
                            assert(successor == initial_state.spec_successors().last());
                        }
                    }
                }
            } else {
                let ghost mid_attempts = attempts@;
                proof {
                    // No re-exploration: this state was never asked for its
                    // successors before.
                    assert(!asked.contains(successor));
                    asked = asked.insert(successor);
                }
                let new_successors = successor.get_possible_successors();
                attempts.push(Attempt { state: successor, successors_to_try: new_successors });
                proof {
                    assert(forall|j: int| 0 <= j < n ==> attempts@[j] == mid_attempts[j]);
                    assert(attempts@[n].state == successor);
                    assert(attempts@[n].successors_to_try@ == successor.spec_successors());
                    lemma_push_keeps_invariants(
                        old_dead,
                        old_attempts,
                        mid_attempts,
                        attempts@,
                        *initial_state,
                        successor,
                        n - 1,
                        k0 - 1,
                    );
                    assert(!(initial_state.spec_successors().len() > 0
                        && initial_state.spec_successors().last().spec_is_final())) by {
                        if initial_state.spec_successors().len() > 0
                            && initial_state.spec_successors().last().spec_is_final() {
                            assert(successor == initial_state.spec_successors().last());
                        }
                    }
                }
            }
        } else {
            // No successors left to try: this state is a dead end.
            if *verbosity != Verbosity::Quiet {
                emit_backtracking(&current_attempt.state);
            }
            dead_ends.push(current_attempt.state);
            if *verbosity == Verbosity::Trace {
                emit_dead_ends(&dead_ends);
            }
            proof {
                lemma_backtrack_keeps_invariants(
                    old_dead,
                    old_attempts,
                    dead_ends@,
                    attempts@,
                    *initial_state,
                );
                assert(!(initial_state.spec_successors().len() > 0
                    && initial_state.spec_successors().last().spec_is_final())) by {
                    if initial_state.spec_successors().len() > 0
                        && initial_state.spec_successors().last().spec_is_final() {
                        assert(top0.successors_to_try@.len()
                            == initial_state.spec_successors().len());
                    }
                }
            }
        }
    }

    // The stack is empty: the whole reachable space was explored and every
    // reachable state is a recorded dead end, none of them final.
    proof {
        reveal(dead_closed);
        assert forall|t: AState| reaches(*initial_state, t) implies !t.spec_is_final() by {
            let p = choose|p: Seq<AState>|
                p.len() > 0 && p[0] == *initial_state && p.last() == t
                    && #[trigger] is_successor_path(p);
            assert(dead_ends@.contains(*initial_state));
            assert forall|d: int, k: int|
                0 <= d < dead_ends@.len() && 0 <= k
                    < dead_ends@[d].spec_successors().len() implies dead_ends@.contains(
                #[trigger] dead_ends@[d].spec_successors()[k],
            ) by {
                assert(settled(dead_ends@, attempts@, dead_ends@[d].spec_successors()[k]));
            }
            lemma_dead_set_traps_paths(dead_ends@, p);
        }
    }
    Err(SearchExhausted)
}

} // verus!
