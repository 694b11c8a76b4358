use std::collections::HashSet;
use vstd::prelude::*;

use super::inner_state::Lesson;
use crate::illegal_state::IllegalState;

verus! {

/// A teacher who may give a lesson.
#[derive(Hash, Clone, Copy, PartialEq, Eq, Structural)]
pub struct CanTeach {
    pub lesson_id: usize,
    pub teacher_id: u8,
}

/// A classroom in which a lesson may be held.
#[derive(Hash, Clone, Copy, PartialEq, Eq, Structural)]
pub struct CanHold {
    pub classroom_id: u8,
    pub lesson_id: usize,
}

/// The number under which a lesson and a resource are stored together.
pub open spec fn spec_pair_code(lesson_id: usize, resource: u8) -> u128 {
    (lesson_id * 256 + resource) as u128
}

#[verifier::when_used_as_spec(spec_pair_code)]
pub fn pair_code(lesson_id: usize, resource: u8) -> (code: u128)
    ensures
        code == spec_pair_code(lesson_id, resource),
{
    let high: u128 = lesson_id as u128;
    let low: u128 = resource as u128;
    high * 256 + low
}

/// Distinct pairs have distinct codes.
pub proof fn lemma_pair_code_injective(
    lesson_id: usize,
    resource: u8,
    other_lesson_id: usize,
    other_resource: u8,
)
    ensures
        pair_code(lesson_id, resource) == pair_code(other_lesson_id, other_resource)
            ==> lesson_id == other_lesson_id && resource == other_resource,
{
}

impl CanTeach {
    pub open spec fn spec_code(self) -> u128 {
        pair_code(self.lesson_id, self.teacher_id)
    }

    #[verifier::when_used_as_spec(spec_code)]
    pub fn code(self) -> (code: u128)
        ensures
            code == self.spec_code(),
    {
        pair_code(self.lesson_id, self.teacher_id)
    }
}

impl CanHold {
    pub open spec fn spec_code(self) -> u128 {
        pair_code(self.lesson_id, self.classroom_id)
    }

    #[verifier::when_used_as_spec(spec_code)]
    pub fn code(self) -> (code: u128)
        ensures
            code == self.spec_code(),
    {
        pair_code(self.lesson_id, self.classroom_id)
    }
}

/// The patterns of `all` that are no logic errors, in their order.
pub open spec fn meaningful(all: Seq<IllegalState>, count: int) -> Seq<IllegalState>
    decreases count,
{
    if count <= 0 {
        Seq::empty()
    } else if all[count - 1].is_logic_error() {
        meaningful(all, count - 1)
    } else {
        meaningful(all, count - 1).push(all[count - 1])
    }
}

/// The teaching permissions that a raw set of codes stands for.
pub open spec fn teach_set(raw: Set<u128>) -> Set<CanTeach> {
    Set::new(|pair: CanTeach| raw.contains(pair.code()))
}

/// The room permissions that a raw set of codes stands for.
pub open spec fn hold_set(raw: Set<u128>) -> Set<CanHold> {
    Set::new(|pair: CanHold| raw.contains(pair.code()))
}

/// What an [`IllegalBuffer`] knows.
pub struct IllegalBufferView {
    pub can_teach: Set<CanTeach>,
    pub can_hold: Set<CanHold>,
    pub illegal_states: Seq<IllegalState>,
}

impl IllegalBufferView {
    /// Some forbidden pattern matches the lesson.
    pub open spec fn is_illegal(self, lesson: Lesson) -> bool {
        exists|i: int|
            0 <= i < self.illegal_states.len() && (#[trigger] self.illegal_states[i])
                .is_violated_by(lesson)
    }

    /// No stored pattern is a logic error.
    pub open spec fn wf(self) -> bool {
        forall|i: int|
            0 <= i < self.illegal_states.len() ==> !(#[trigger] self.illegal_states[i])
                .is_logic_error()
    }
}

/// The hard constraints of a catalog: who may teach which lesson, which
/// room may hold it, and the patterns that no lesson may match.
pub struct IllegalBuffer {
    can_teach: HashSet<u128>,
    can_hold: HashSet<u128>,
    illegal_states: Vec<IllegalState>,
}

impl View for IllegalBuffer {
    type V = IllegalBufferView;

    closed spec fn view(&self) -> IllegalBufferView {
        IllegalBufferView {
            can_teach: teach_set(self.can_teach@),
            can_hold: hold_set(self.can_hold@),
            illegal_states: self.illegal_states@,
        }
    }
}

proof fn lemma_teach_set_insert(raw: Set<u128>, pair: CanTeach)
    ensures
        teach_set(raw.insert(pair.code())) == teach_set(raw).insert(pair),
{
    assert forall|other: CanTeach| other.code() == pair.code() implies other == pair by {
        lemma_pair_code_injective(
            other.lesson_id,
            other.teacher_id,
            pair.lesson_id,
            pair.teacher_id,
        );
    }
    assert(teach_set(raw.insert(pair.code())) =~= teach_set(raw).insert(pair));
}

proof fn lemma_hold_set_insert(raw: Set<u128>, pair: CanHold)
    ensures
        hold_set(raw.insert(pair.code())) == hold_set(raw).insert(pair),
{
    assert forall|other: CanHold| other.code() == pair.code() implies other == pair by {
        lemma_pair_code_injective(
            other.lesson_id,
            other.classroom_id,
            pair.lesson_id,
            pair.classroom_id,
        );
    }
    assert(hold_set(raw.insert(pair.code())) =~= hold_set(raw).insert(pair));
}

/// The patterns that are left once the logic errors are dropped never
/// hold one.
pub proof fn lemma_meaningful_is_wf(all: Seq<IllegalState>, count: int)
    requires
        0 <= count <= all.len(),
    ensures
        forall|i: int|
            0 <= i < meaningful(all, count).len() ==> !(#[trigger] meaningful(
                all,
                count,
            )[i]).is_logic_error(),
    decreases count,
{
    if count > 0 {
        lemma_meaningful_is_wf(all, count - 1);
        let before = meaningful(all, count - 1);
        assert forall|i: int| 0 <= i < meaningful(all, count).len() implies !(#[trigger] meaningful(
            all,
            count,
        )[i]).is_logic_error() by {
            if i < before.len() {
                assert(meaningful(all, count)[i] == before[i]);
            }
        }
    }
}

impl IllegalBuffer {
    /// Builds the buffer from lists of permissions and patterns. Patterns
    /// that are logic errors are dropped.
    pub fn new(
        can_teach: Vec<CanTeach>,
        can_hold: Vec<CanHold>,
        illegal_states: Vec<IllegalState>,
    ) -> (buffer: Self)
        ensures
            buffer@.can_teach == can_teach@.to_set(),
            buffer@.can_hold == can_hold@.to_set(),
            buffer@.illegal_states == meaningful(illegal_states@, illegal_states@.len() as int),
            buffer@.wf(),
    {
        broadcast use vstd::std_specs::hash::group_hash_axioms;

        let mut buffer = Self {
            can_teach: HashSet::new(),
            can_hold: HashSet::new(),
            illegal_states: Vec::new(),
        };
        assert(buffer@.can_teach =~= can_teach@.take(0).to_set());
        assert(buffer@.can_hold =~= can_hold@.take(0).to_set());
        let mut i: usize = 0;
        while i < can_teach.len()
            invariant
                i <= can_teach.len(),
                buffer@.can_teach == can_teach@.take(i as int).to_set(),
                buffer@.can_hold == can_hold@.take(0).to_set(),
                buffer@.illegal_states == Seq::<IllegalState>::empty(),
            decreases can_teach.len() - i,
        {
            buffer.insert_can_teach(can_teach[i]);
            assert(can_teach@.take(i + 1).to_set() =~= can_teach@.take(i as int).to_set().insert(
                can_teach@[i as int],
            )) by {
                assert(can_teach@.take(i + 1) =~= can_teach@.take(i as int).push(
                    can_teach@[i as int],
                ));
                vstd::seq_lib::seq_to_set_is_finite(can_teach@.take(i as int));
                can_teach@.take(i as int).lemma_push_to_set_commute(can_teach@[i as int]);
            }
            i += 1;
        }
        let mut j: usize = 0;
        while j < can_hold.len()
            invariant
                j <= can_hold.len(),
                buffer@.can_teach == can_teach@.take(can_teach@.len() as int).to_set(),
                buffer@.can_hold == can_hold@.take(j as int).to_set(),
                buffer@.illegal_states == Seq::<IllegalState>::empty(),
            decreases can_hold.len() - j,
        {
            buffer.insert_can_hold(can_hold[j]);
            assert(can_hold@.take(j + 1).to_set() =~= can_hold@.take(j as int).to_set().insert(
                can_hold@[j as int],
            )) by {
                assert(can_hold@.take(j + 1) =~= can_hold@.take(j as int).push(
                    can_hold@[j as int],
                ));
                can_hold@.take(j as int).lemma_push_to_set_commute(can_hold@[j as int]);
            }
            j += 1;
        }
        let mut kept: Vec<IllegalState> = Vec::new();
        let mut k: usize = 0;
        while k < illegal_states.len()
            invariant
                k <= illegal_states.len(),
                kept@ == meaningful(illegal_states@, k as int),
            decreases illegal_states.len() - k,
        {
            if !illegal_states[k].is_logic_error() {
                kept.push(illegal_states[k]);
            }
            k += 1;
        }
        buffer.illegal_states = kept;
        proof {
            assert(can_teach@.take(can_teach@.len() as int) =~= can_teach@);
            assert(can_hold@.take(can_hold@.len() as int) =~= can_hold@);
            lemma_meaningful_is_wf(illegal_states@, illegal_states@.len() as int);
        }
        buffer
    }

    /// Whether the teacher may give the lesson.
    pub fn can_teach(&self, can_teach: CanTeach) -> (allowed: bool)
        ensures
            allowed == self@.can_teach.contains(can_teach),
    {
        broadcast use vstd::std_specs::hash::group_hash_axioms;

        let code = can_teach.code();
        self.can_teach.contains(&code)
    }

    /// Whether the classroom may hold the lesson.
    pub fn can_hold(&self, can_hold: CanHold) -> (allowed: bool)
        ensures
            allowed == self@.can_hold.contains(can_hold),
    {
        broadcast use vstd::std_specs::hash::group_hash_axioms;

        let code = can_hold.code();
        self.can_hold.contains(&code)
    }

    /// Adds a permission; returns whether it was new.
    pub fn insert_can_teach(&mut self, can_teach: CanTeach) -> (added: bool)
        ensures
            final(self)@.can_teach == old(self)@.can_teach.insert(can_teach),
            final(self)@.can_hold == old(self)@.can_hold,
            final(self)@.illegal_states == old(self)@.illegal_states,
            added == !old(self)@.can_teach.contains(can_teach),
    {
        broadcast use vstd::std_specs::hash::group_hash_axioms;

        proof {
            lemma_teach_set_insert(self.can_teach@, can_teach);
        }
        self.can_teach.insert(can_teach.code())
    }

    /// Adds a permission; returns whether it was new.
    pub fn insert_can_hold(&mut self, can_hold: CanHold) -> (added: bool)
        ensures
            final(self)@.can_hold == old(self)@.can_hold.insert(can_hold),
            final(self)@.can_teach == old(self)@.can_teach,
            final(self)@.illegal_states == old(self)@.illegal_states,
            added == !old(self)@.can_hold.contains(can_hold),
    {
        broadcast use vstd::std_specs::hash::group_hash_axioms;

        proof {
            lemma_hold_set_insert(self.can_hold@, can_hold);
        }
        self.can_hold.insert(can_hold.code())
    }

    /// Whether some forbidden pattern matches the lesson.
    pub fn is_illegal(&self, lesson: Lesson) -> (illegal: bool)
        ensures
            illegal == self@.is_illegal(lesson),
    {
        let mut i: usize = 0;
        while i < self.illegal_states.len()
            invariant
                i <= self.illegal_states.len(),
                forall|j: int|
                    0 <= j < i ==> !(#[trigger] self.illegal_states@[j]).is_violated_by(lesson),
            decreases self.illegal_states.len() - i,
        {
            if self.illegal_states[i].is_violated_by(lesson) {
                assert(self@.illegal_states[i as int].is_violated_by(lesson));
                return true;
            }
            i += 1;
        }
        false
    }
}

} // verus!
