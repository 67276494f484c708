//! Demonstration states for the search engine: simple counters over a
//! finite value range.

use vstd::prelude::*;

verus! {

use crate::engine::State;

/// The counter holding each `i32` value; a finite set because `i32` is
/// finite.
pub open spec fn spec_all_counters() -> Set<Counter> {
    Set::<i32>::full().map(|v: i32| Counter { value: v })
}

/// Count up by one until the target value is reached.
#[derive(Clone, Debug, Eq, Hash)]
pub struct Counter {
    pub value: i32,
}

impl PartialEq for Counter {
    fn eq(&self, other_state: &Self) -> (r: bool)
        ensures
            r == (other_state.value == self.value),
    {
        other_state.value == self.value
    }
}

impl vstd::std_specs::cmp::PartialEqSpecImpl for Counter {
    open spec fn obeys_eq_spec() -> bool {
        true
    }

    open spec fn eq_spec(&self, other_state: &Self) -> bool {
        other_state.value == self.value
    }
}

impl State for Counter {
    open spec fn spec_is_final(&self) -> bool {
        self.value == 7
    }

    open spec fn spec_successors(&self) -> Seq<Counter> {
        if self.value < i32::MAX {
            seq![Counter { value: (self.value + 1) as i32 }]
        } else {
            seq![]
        }
    }

    fn is_final(&self) -> (r: bool)
        ensures
            r == self.spec_is_final(),
    {
        self.value == 7
    }

    fn get_possible_successors(&self) -> (r: Vec<Counter>)
        ensures
            r@ == self.spec_successors(),
    {
        let mut r: Vec<Counter> = Vec::new();
        if self.value < i32::MAX {
            r.push(Counter { value: self.value + 1 });
        }
        proof {
            assert(r@ =~= self.spec_successors());
        }
        r
    }

    fn equals(&self, other: &Self) -> (r: bool)
        ensures
            r == (*self == *other),
    {
        self.value == other.value
    }

    fn clone_state(&self) -> (r: Self)
        ensures
            r == *self,
    {
        Counter { value: self.value }
    }

    fn label(&self) -> String {
        self.value.to_string()
    }

    open spec fn spec_space() -> Set<Counter> {
        spec_all_counters()
    }

    proof fn lemma_space_finite() {
        <i32 as vstd::set_lib::FiniteFull>::full_properties();
        Set::<i32>::full().lemma_map_finite(|v: i32| Counter { value: v });
    }

    proof fn lemma_space_closed(s: Counter) {
        assert forall|k: int|
            0 <= k < s.spec_successors().len() implies Self::spec_space().contains(
            #[trigger] s.spec_successors()[k],
        ) by {
            let t = s.spec_successors()[k];
            assert(Set::<i32>::full().contains(t.value));
            assert(Set::<i32>::full().map(|v: i32| Counter { value: v }).contains(
                Counter { value: t.value },
            ));
        }
    }
}

/// The jumping counter holding each `i32` value; a finite set because
/// `i32` is finite.
pub open spec fn spec_all_jumping_counters() -> Set<JumpingCounter> {
    Set::<i32>::full().map(|v: i32| JumpingCounter { value: v })
}

/// Count up by either two or one until the target value is reached.  The
/// counter stops generating successors above ten: if we allowed `value+2`
/// in every case and 'missed' the target, we would just count up and up.
#[derive(Clone, Debug, Eq, Hash)]
pub struct JumpingCounter {
    pub value: i32,
}

impl PartialEq for JumpingCounter {
    fn eq(&self, other_state: &Self) -> (r: bool)
        ensures
            r == (other_state.value == self.value),
    {
        other_state.value == self.value
    }
}

impl vstd::std_specs::cmp::PartialEqSpecImpl for JumpingCounter {
    open spec fn obeys_eq_spec() -> bool {
        true
    }

    open spec fn eq_spec(&self, other_state: &Self) -> bool {
        other_state.value == self.value
    }
}

impl State for JumpingCounter {
    open spec fn spec_is_final(&self) -> bool {
        self.value == 4
    }

    open spec fn spec_successors(&self) -> Seq<JumpingCounter> {
        if 0 <= self.value <= 10 {
            seq![
                JumpingCounter { value: (self.value + 1) as i32 },
                JumpingCounter { value: (self.value + 2) as i32 },
            ]
        } else {
            seq![]
        }
    }

    fn is_final(&self) -> (r: bool)
        ensures
            r == self.spec_is_final(),
    {
        self.value == 4
    }

    fn get_possible_successors(&self) -> (r: Vec<JumpingCounter>)
        ensures
            r@ == self.spec_successors(),
    {
        let mut r: Vec<JumpingCounter> = Vec::new();
        if 0 <= self.value && self.value <= 10 {
            r.push(JumpingCounter { value: self.value + 1 });
            r.push(JumpingCounter { value: self.value + 2 });
        }
        proof {
            assert(r@ =~= self.spec_successors());
        }
        r
    }

    fn equals(&self, other: &Self) -> (r: bool)
        ensures
            r == (*self == *other),
    {
        self.value == other.value
    }

    fn clone_state(&self) -> (r: Self)
        ensures
            r == *self,
    {
        JumpingCounter { value: self.value }
    }

    fn label(&self) -> String {
        self.value.to_string()
    }

    open spec fn spec_space() -> Set<JumpingCounter> {
        spec_all_jumping_counters()
    }

    proof fn lemma_space_finite() {
        <i32 as vstd::set_lib::FiniteFull>::full_properties();
        Set::<i32>::full().lemma_map_finite(|v: i32| JumpingCounter { value: v });
    }

    proof fn lemma_space_closed(s: JumpingCounter) {
        assert forall|k: int|
            0 <= k < s.spec_successors().len() implies Self::spec_space().contains(
            #[trigger] s.spec_successors()[k],
        ) by {
            let t = s.spec_successors()[k];
            assert(Set::<i32>::full().contains(t.value));
            assert(Set::<i32>::full().map(|v: i32| JumpingCounter { value: v }).contains(
                JumpingCounter { value: t.value },
            ));
        }
    }
}

/// The looping counter holding each `i32` value; a finite set because
/// `i32` is finite.
pub open spec fn spec_all_looping_counters() -> Set<LoopingCounter> {
    Set::<i32>::full().map(|v: i32| LoopingCounter { value: v })
}

/// A counter that never reaches a goal: its only successor is itself.  It
/// exercises the engine's cycle avoidance — a search from it must end in
/// exhaustion instead of looping forever.
#[derive(Clone, Debug, Eq, Hash)]
pub struct LoopingCounter {
    pub value: i32,
}

impl PartialEq for LoopingCounter {
    fn eq(&self, other_state: &Self) -> (r: bool)
        ensures
            r == (other_state.value == self.value),
    {
        other_state.value == self.value
    }
}

impl vstd::std_specs::cmp::PartialEqSpecImpl for LoopingCounter {
    open spec fn obeys_eq_spec() -> bool {
        true
    }

    open spec fn eq_spec(&self, other_state: &Self) -> bool {
        other_state.value == self.value
    }
}

impl State for LoopingCounter {
    open spec fn spec_is_final(&self) -> bool {
        false
    }

    open spec fn spec_successors(&self) -> Seq<LoopingCounter> {
        seq![*self]
    }

    fn is_final(&self) -> (r: bool)
        ensures
            r == self.spec_is_final(),
    {
        false
    }

    fn get_possible_successors(&self) -> (r: Vec<LoopingCounter>)
        ensures
            r@ == self.spec_successors(),
    {
        let mut r: Vec<LoopingCounter> = Vec::new();
        r.push(LoopingCounter { value: self.value });
        proof {
            assert(r@ =~= self.spec_successors());
        }
        r
    }

    fn equals(&self, other: &Self) -> (r: bool)
        ensures
            r == (*self == *other),
    {
        self.value == other.value
    }

    fn clone_state(&self) -> (r: Self)
        ensures
            r == *self,
    {
        LoopingCounter { value: self.value }
    }

    fn label(&self) -> String {
        self.value.to_string()
    }

    open spec fn spec_space() -> Set<LoopingCounter> {
        spec_all_looping_counters()
    }

    proof fn lemma_space_finite() {
        <i32 as vstd::set_lib::FiniteFull>::full_properties();
        Set::<i32>::full().lemma_map_finite(|v: i32| LoopingCounter { value: v });
    }

    proof fn lemma_space_closed(s: LoopingCounter) {
        assert forall|k: int|
            0 <= k < s.spec_successors().len() implies Self::spec_space().contains(
            #[trigger] s.spec_successors()[k],
        ) by {
            let t = s.spec_successors()[k];
            assert(Set::<i32>::full().contains(t.value));
            assert(Set::<i32>::full().map(|v: i32| LoopingCounter { value: v }).contains(
                LoopingCounter { value: t.value },
            ));
        }
    }
}

} // verus!
