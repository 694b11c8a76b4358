use vstd::prelude::*;

use super::annealing_buffer::AnnealingBuffer;
use super::illegal_buffer::{meaningful, CanHold, CanTeach, IllegalBuffer};
use super::inner_state::{lemma_place_keeps_wf, InnerStateView, Lesson};
use crate::data_types::simple_date::{SimpleDate, SLOTS_PER_DAY};
use crate::illegal_state::IllegalState;
use crate::input::{LessonInfo, PlanInput};
use crate::output::{LessonOwned, PlanOutput};

verus! {

/// Most groups that a catalog may hold: their ids are bytes.
pub const MAX_GROUPS: usize = 256;

/// Most teachers that a catalog may hold: their number is a byte.
pub const MAX_TEACHERS: usize = 255;

/// Most classrooms that a catalog may hold: their number is a byte.
pub const MAX_CLASSROOMS: usize = 255;

/// Most days that a session may last: its slots are numbered by a byte.
pub const MAX_DAYS: u8 = 42;

/// Why no timetable could be set up for a catalog.
#[derive(Clone, Copy, Debug, PartialEq, Eq, Structural)]
pub enum AdapterError {
    /// Entry `position` of group `group` names a subject that the catalog
    /// does not define.
    UnknownSubject { group: usize, position: usize },
    /// The catalog holds more groups, teachers, classrooms or days than
    /// ids and slots can number.
    CatalogTooLarge,
    /// No slot, teacher and classroom are left for lesson `lesson`.
    Infeasible { lesson: usize },
}

/// The catalog is small enough for its groups, teachers, classrooms and
/// slots to be numbered by bytes.
pub open spec fn spec_fits_bytes(plan: &PlanInput) -> bool {
    &&& plan.student_groups@.len() <= MAX_GROUPS
    &&& plan.teachers@.len() <= MAX_TEACHERS
    &&& plan.classrooms@.len() <= MAX_CLASSROOMS
    &&& plan.days <= MAX_DAYS
}

#[verifier::when_used_as_spec(spec_fits_bytes)]
pub fn fits_bytes(plan: &PlanInput) -> (fits: bool)
    ensures
        fits == spec_fits_bytes(plan),
{
    plan.student_groups.len() <= MAX_GROUPS && plan.teachers.len() <= MAX_TEACHERS
        && plan.classrooms.len() <= MAX_CLASSROOMS && plan.days <= MAX_DAYS
}

/// The catalog allows `lesson` for the requirement `info`: it is a lesson
/// of the right group within the session, its teacher teaches the subject
/// and its classroom seats the group.
pub open spec fn admissible(plan: &PlanInput, info: LessonInfo, lesson: Lesson) -> bool {
    &&& lesson.group == info.group
    &&& lesson.time < plan.days * SLOTS_PER_DAY
    &&& lesson.teacher < plan.teachers@.len()
    &&& lesson.classroom < plan.classrooms@.len()
    &&& plan.teachers@[lesson.teacher as int].teaches(&plan.subjects@[info.subject as int].name)
    &&& plan.classrooms@[lesson.classroom as int].seats(
        plan.student_groups@[info.group as int].size,
    )
}

/// `lesson` is allowed and its three slots are free in `state`.
pub open spec fn fits(
    plan: &PlanInput,
    state: InnerStateView,
    info: LessonInfo,
    lesson: Lesson,
) -> bool {
    admissible(plan, info, lesson) && state.all_free(lesson)
}

/// `one` comes before `other` in the order in which seeding tries lessons:
/// by time, then by teacher, then by classroom.
pub open spec fn sooner(one: Lesson, other: Lesson) -> bool {
    ||| one.time < other.time
    ||| one.time == other.time && one.teacher < other.teacher
    ||| one.time == other.time && one.teacher == other.teacher && one.classroom < other.classroom
}

/// `lesson` fits, and no lesson that fits comes sooner.
pub open spec fn is_first_fit(
    plan: &PlanInput,
    state: InnerStateView,
    info: LessonInfo,
    lesson: Lesson,
) -> bool {
    &&& fits(plan, state, info, lesson)
    &&& forall|other: Lesson| #[trigger] fits(plan, state, info, other) ==> !sooner(other, lesson)
}

/// The first lesson that fits, if any fits.
pub open spec fn first_fit(plan: &PlanInput, state: InnerStateView, info: LessonInfo) -> Option<
    Lesson,
> {
    if exists|lesson: Lesson| is_first_fit(plan, state, info, lesson) {
        Some(choose|lesson: Lesson| is_first_fit(plan, state, info, lesson))
    } else {
        None
    }
}

/// The state after the first `count` lessons of `list` were seeded one
/// after the other, each as the first lesson that fits; nothing where one of
/// them found no place.
pub open spec fn seeded(plan: &PlanInput, list: Seq<LessonInfo>, count: int) -> Option<
    InnerStateView,
>
    decreases count,
{
    if count <= 0 {
        Some(InnerStateView::empty(list.len()))
    } else {
        match seeded(plan, list, count - 1) {
            Some(state) => match first_fit(plan, state, list[count - 1]) {
                Some(lesson) => Some(state.with_lesson(count - 1, lesson)),
                None => None,
            },
            None => None,
        }
    }
}

/// There is at most one first fit.
pub proof fn lemma_first_fit_is_unique(
    plan: &PlanInput,
    state: InnerStateView,
    info: LessonInfo,
    lesson: Lesson,
)
    requires
        is_first_fit(plan, state, info, lesson),
    ensures
        first_fit(plan, state, info) == Some(lesson),
{
    let chosen = choose|other: Lesson| is_first_fit(plan, state, info, other);
    assert(fits(plan, state, info, chosen));
    assert(!sooner(chosen, lesson));
    assert(!sooner(lesson, chosen));
}

/// Seed feasibility. Seeding keeps the state well formed, and after `count`
/// lessons exactly the first `count` are placed: once every lesson is
/// seeded, the state is synchronized.
pub proof fn lemma_seeded_is_placed(plan: &PlanInput, list: Seq<LessonInfo>, count: int)
    requires
        0 <= count <= list.len() <= usize::MAX,
        seeded(plan, list, count).is_some(),
    ensures
        seeded(plan, list, count).unwrap().wf(),
        seeded(plan, list, count).unwrap().lessons.len() == list.len(),
        forall|k: int| seeded(plan, list, count).unwrap().is_placed(k) == (0 <= k < count),
        count == list.len() ==> seeded(plan, list, count).unwrap().synchronized(),
    decreases count,
{
    let state = seeded(plan, list, count).unwrap();
    if count > 0 {
        lemma_seeded_is_placed(plan, list, count - 1);
        let before = seeded(plan, list, count - 1).unwrap();
        let lesson = first_fit(plan, before, list[count - 1]).unwrap();
        assert(is_first_fit(plan, before, list[count - 1], lesson));
        assert(!before.is_placed(count - 1));
        lemma_place_keeps_wf(before, count - 1, lesson);
        assert(state == before.with_lesson(count - 1, lesson));
        assert forall|k: int| state.is_placed(k) == (0 <= k < count) by {
            assert(state.is_placed(k) == (before.is_placed(k) || k == count - 1));
        }
    } else {
        assert(state == InnerStateView::empty(list.len()));
        assert forall|k: int| !state.is_placed(k) by {
            assert(!state.holds_teacher_slot(k));
        }
    }
    if count == list.len() {
        assert forall|k: int| 0 <= k < state.lessons.len() implies #[trigger] state.is_placed(
            k,
        ) by {}
    }
}

/// Once a lesson has found no place, seeding has failed for good.
pub proof fn lemma_seeding_stays_failed(
    plan: &PlanInput,
    list: Seq<LessonInfo>,
    count: int,
    later: int,
)
    requires
        count <= later,
        seeded(plan, list, count).is_none(),
    ensures
        seeded(plan, list, later).is_none(),
    decreases later - count,
{
    if count < later {
        lemma_seeding_stays_failed(plan, list, count, later - 1);
    }
}

/// Every seeded lesson is one that the catalog allows for its requirement:
/// seeding gives no lesson to a teacher who does not teach its subject, nor
/// to a classroom that does not seat its group.
pub proof fn lemma_seeded_is_admissible(plan: &PlanInput, list: Seq<LessonInfo>, count: int)
    requires
        0 <= count <= list.len(),
        seeded(plan, list, count).is_some(),
    ensures
        seeded(plan, list, count).unwrap().lessons.len() == list.len(),
        forall|k: int|
            0 <= k < count ==> admissible(
                plan,
                list[k],
                #[trigger] seeded(plan, list, count).unwrap().lessons[k],
            ),
    decreases count,
{
    if count > 0 {
        lemma_seeded_is_admissible(plan, list, count - 1);
        let before = seeded(plan, list, count - 1).unwrap();
        let lesson = first_fit(plan, before, list[count - 1]).unwrap();
        assert(is_first_fit(plan, before, list[count - 1], lesson));
        let state = seeded(plan, list, count).unwrap();
        assert(state == before.with_lesson(count - 1, lesson));
        assert forall|k: int| 0 <= k < count implies admissible(
            plan,
            list[k],
            #[trigger] state.lessons[k],
        ) by {
            if k < count - 1 {
                assert(state.lessons[k] == before.lessons[k]);
            }
        }
    }
}

/// Turns a catalog into the dense ids that annealing works on, and a
/// finished state back into names.
pub struct AnnealingAdapter<'a> {
    lesson_info: Vec<LessonInfo>,
    plan_input: &'a PlanInput,
}

impl<'a> AnnealingAdapter<'a> {
    #[verifier::type_invariant]
    spec fn valid(self) -> bool {
        &&& fits_bytes(self.plan_input)
        &&& self.plan_input.lessons() == Some(self.lesson_info@)
        &&& self.plan_input.covers(self.lesson_info@)
    }

    /// The catalog that the adapter was made for.
    pub closed spec fn plan(self) -> &'a PlanInput {
        self.plan_input
    }

    /// The lessons that have to take place; a lesson's id is its position.
    pub closed spec fn lessons(self) -> Seq<LessonInfo> {
        self.lesson_info@
    }

    /// The number of lessons that have to take place.
    pub fn lesson_count(&self) -> (count: usize)
        ensures
            count == self.lessons().len(),
    {
        self.lesson_info.len()
    }

    /// What lesson `lesson_id` is a lesson of.
    pub fn lesson_info(&self, lesson_id: usize) -> (info: LessonInfo)
        requires
            lesson_id < self.lessons().len(),
        ensures
            info == self.lessons()[lesson_id as int],
            info.group < self.plan().student_groups@.len(),
            info.subject < self.plan().subjects@.len(),
    {
        proof {
            use_type_invariant(self);
        }
        self.lesson_info[lesson_id]
    }

    /// Reads a catalog. Fails where the catalog is too large, or where a
    /// group names a subject that the catalog does not define.
    pub fn of_plan_input(plan_input: &'a PlanInput) -> (made: Result<Self, AdapterError>)
        ensures
            match made {
                Ok(adapter) => {
                    &&& adapter.plan() == plan_input
                    &&& fits_bytes(plan_input)
                    &&& plan_input.lessons() == Some(adapter.lessons())
                    &&& plan_input.covers(adapter.lessons())
                },
                Err(AdapterError::CatalogTooLarge) => !fits_bytes(plan_input),
                Err(AdapterError::UnknownSubject { group, position }) => {
                    &&& fits_bytes(plan_input)
                    &&& group < plan_input.student_groups@.len()
                    &&& position < plan_input.student_groups@[group as int].subjects@.len()
                    &&& plan_input.lessons_before(group as int, position as int).is_some()
                    &&& plan_input.subject_taken(group as int, position as int).is_none()
                    &&& plan_input.lessons().is_none()
                },
                Err(AdapterError::Infeasible { .. }) => false,
            },
    {
        if !fits_bytes(plan_input) {
            return Err(AdapterError::CatalogTooLarge);
        }
        match plan_input.required_lessons() {
            Ok(lesson_info) => Ok(Self { lesson_info, plan_input }),
            Err((group, position)) => Err(AdapterError::UnknownSubject { group, position }),
        }
    }

    /// Tries the teachers and classrooms of one slot after the other, in
    /// the order of [`sooner`], and places the lesson at the first that fits.
    fn seed_lesson(&self, buffer: &mut AnnealingBuffer, lesson_id: usize) -> (placed: bool)
        requires
            lesson_id < self.lessons().len(),
            old(buffer).inner_state@.lessons.len() == self.lessons().len(),
        ensures
            placed == first_fit(
                self.plan(),
                old(buffer).inner_state@,
                self.lessons()[lesson_id as int],
            ).is_some(),
            placed ==> final(buffer).inner_state@ == old(buffer).inner_state@.with_lesson(
                lesson_id as int,
                first_fit(
                    self.plan(),
                    old(buffer).inner_state@,
                    self.lessons()[lesson_id as int],
                ).unwrap(),
            ),
            !placed ==> final(buffer).inner_state@ == old(buffer).inner_state@,
            final(buffer).same_domains(old(buffer)),
    {
        proof {
            use_type_invariant(self);
        }
        let plan = self.plan_input;
        let info = self.lesson_info[lesson_id];
        let group = &plan.student_groups[info.group];
        let subject = &plan.subjects[info.subject];
        let max_time: u8 = plan.days * SLOTS_PER_DAY;
        let ghost state = buffer.inner_state@;

        let mut time: u8 = 0;
        while time < max_time
            invariant
                time <= max_time,
                max_time == plan.days * SLOTS_PER_DAY,
                plan == self.plan(),
                fits_bytes(plan),
                info == self.lessons()[lesson_id as int],
                info.group < plan.student_groups@.len(),
                info.subject < plan.subjects@.len(),
                group == &plan.student_groups@[info.group as int],
                subject == &plan.subjects@[info.subject as int],
                lesson_id < self.lessons().len(),
                buffer.inner_state@ == state,
                state == old(buffer).inner_state@,
                state.lessons.len() == self.lessons().len(),
                buffer.same_domains(old(buffer)),
                forall|other: Lesson| #[trigger]
                    fits(plan, state, info, other) ==> other.time >= time,
            decreases max_time - time,
        {
            let mut teacher: usize = 0;
            while teacher < plan.teachers.len()
                invariant
                    time < max_time,
                    max_time == plan.days * SLOTS_PER_DAY,
                    teacher <= plan.teachers.len(),
                    plan == self.plan(),
                    fits_bytes(plan),
                    info == self.lessons()[lesson_id as int],
                    info.group < plan.student_groups@.len(),
                    info.subject < plan.subjects@.len(),
                    group == &plan.student_groups@[info.group as int],
                    subject == &plan.subjects@[info.subject as int],
                    lesson_id < self.lessons().len(),
                    buffer.inner_state@ == state,
                    state == old(buffer).inner_state@,
                    state.lessons.len() == self.lessons().len(),
                    buffer.same_domains(old(buffer)),
                    forall|other: Lesson| #[trigger]
                        fits(plan, state, info, other) ==> other.time >= time && (other.time
                            == time ==> other.teacher >= teacher),
                decreases plan.teachers.len() - teacher,
            {
                if plan.teachers[teacher].teaches(&subject.name) {
                    let mut classroom: usize = 0;
                    while classroom < plan.classrooms.len()
                        invariant
                            time < max_time,
                            max_time == plan.days * SLOTS_PER_DAY,
                            teacher < plan.teachers.len(),
                            classroom <= plan.classrooms.len(),
                            plan == self.plan(),
                            fits_bytes(plan),
                            info == self.lessons()[lesson_id as int],
                            info.group < plan.student_groups@.len(),
                            info.subject < plan.subjects@.len(),
                            group == &plan.student_groups@[info.group as int],
                            subject == &plan.subjects@[info.subject as int],
                            plan.teachers@[teacher as int].teaches(&subject.name),
                            lesson_id < self.lessons().len(),
                            buffer.inner_state@ == state,
                            state == old(buffer).inner_state@,
                            state.lessons.len() == self.lessons().len(),
                            buffer.same_domains(old(buffer)),
                            forall|other: Lesson| #[trigger]
                                fits(plan, state, info, other) ==> other.time >= time && (
                                other.time == time ==> other.teacher >= teacher) && (other.time
                                    == time && other.teacher == teacher ==> other.classroom
                                    >= classroom),
                        decreases plan.classrooms.len() - classroom,
                    {
                        if plan.classrooms[classroom].seats(group.size) {
                            if buffer.place_lesson(
                                lesson_id,
                                teacher as u8,
                                classroom as u8,
                                time,
                                info.group as u8,
                            ) {
                                proof {
                                    let lesson = Lesson {
                                        time,
                                        teacher: teacher as u8,
                                        classroom: classroom as u8,
                                        group: info.group as u8,
                                    };
                                    assert(fits(plan, state, info, lesson));
                                    assert(is_first_fit(plan, state, info, lesson));
                                    lemma_first_fit_is_unique(plan, state, info, lesson);
                                }
                                return true;
                            }
                        }
                        classroom += 1;
                    }
                }
                teacher += 1;
            }
            time += 1;
        }
        proof {
            assert forall|lesson: Lesson| !is_first_fit(plan, state, info, lesson) by {
                if fits(plan, state, info, lesson) {
                    assert(lesson.time >= time);
                }
            }
        }
        false
    }

    /// Sets up the annealing state: as many lessons as have to take place,
    /// each seeded in turn at the first slot, teacher and classroom that
    /// fit. Fails with the first lesson for which nothing fits.
    pub fn create_annealing_buffer(&self) -> (made: Result<AnnealingBuffer, AdapterError>)
        ensures
            match made {
                Ok(buffer) => {
                    &&& seeded(self.plan(), self.lessons(), self.lessons().len() as int) == Some(
                        buffer.inner_state@,
                    )
                    &&& buffer.inner_state@.synchronized()
                    &&& buffer.inner_state@.lessons.len() == self.lessons().len()
                    &&& forall|k: int|
                        0 <= k < self.lessons().len() ==> admissible(
                            self.plan(),
                            self.lessons()[k],
                            #[trigger] buffer.inner_state@.lessons[k],
                        )
                    &&& buffer.max_time == self.plan().days * SLOTS_PER_DAY
                    &&& buffer.teacher_count == self.plan().teachers@.len()
                    &&& buffer.classroom_count == self.plan().classrooms@.len()
                },
                Err(AdapterError::Infeasible { lesson }) => {
                    &&& lesson < self.lessons().len()
                    &&& seeded(self.plan(), self.lessons(), lesson as int).is_some()
                    &&& seeded(self.plan(), self.lessons(), lesson + 1).is_none()
                    &&& seeded(self.plan(), self.lessons(), self.lessons().len() as int).is_none()
                },
                Err(_) => false,
            },
    {
        proof {
            use_type_invariant(self);
        }
        let plan_input = self.plan_input;
        let lesson_count = self.lesson_info.len();
        let max_time: u8 = plan_input.days * SLOTS_PER_DAY;
        let mut buffer = AnnealingBuffer::new(lesson_count, max_time);

        let mut lesson_index: usize = 0;
        while lesson_index < lesson_count
            invariant
                lesson_index <= lesson_count,
                lesson_count == self.lessons().len(),
                plan_input == self.plan(),
                buffer.max_time == max_time,
                seeded(self.plan(), self.lessons(), lesson_index as int) == Some(
                    buffer.inner_state@,
                ),
                buffer.inner_state@.lessons.len() == lesson_count,
            decreases lesson_count - lesson_index,
        {
            if !self.seed_lesson(&mut buffer, lesson_index) {
                proof {
                    lemma_seeding_stays_failed(
                        self.plan(),
                        self.lessons(),
                        lesson_index + 1,
                        lesson_count as int,
                    );
                }
                return Err(AdapterError::Infeasible { lesson: lesson_index });
            }
            lesson_index += 1;
        }
        proof {
            lemma_seeded_is_placed(self.plan(), self.lessons(), lesson_count as int);
            lemma_seeded_is_admissible(self.plan(), self.lessons(), lesson_count as int);
        }
        buffer.teacher_count = plan_input.teachers.len() as u8;
        buffer.classroom_count = plan_input.classrooms.len() as u8;

        Ok(buffer)
    }

    /// Teacher `teacher` teaches the subject of lesson `lesson_id`.
    pub open spec fn may_teach(self, lesson_id: int, teacher: int) -> bool {
        &&& 0 <= lesson_id < self.lessons().len()
        &&& 0 <= teacher < self.plan().teachers@.len()
        &&& self.plan().teachers@[teacher].teaches(
            &self.plan().subjects@[self.lessons()[lesson_id].subject as int].name,
        )
    }

    /// Classroom `classroom` seats the group of lesson `lesson_id`.
    pub open spec fn may_hold(self, lesson_id: int, classroom: int) -> bool {
        &&& 0 <= lesson_id < self.lessons().len()
        &&& 0 <= classroom < self.plan().classrooms@.len()
        &&& self.plan().classrooms@[classroom].seats(
            self.plan().student_groups@[self.lessons()[lesson_id].group as int].size,
        )
    }

    /// Collects the hard constraints of the catalog: for every lesson the
    /// teachers who teach its subject and the classrooms that seat its
    /// group, and the forbidden patterns that are no logic errors.
    pub fn create_illegal_buffer(&self) -> (buffer: IllegalBuffer)
        ensures
            forall|pair: CanTeach| #[trigger]
                buffer@.can_teach.contains(pair) == self.may_teach(
                    pair.lesson_id as int,
                    pair.teacher_id as int,
                ),
            forall|pair: CanHold| #[trigger]
                buffer@.can_hold.contains(pair) == self.may_hold(
                    pair.lesson_id as int,
                    pair.classroom_id as int,
                ),
            buffer@.illegal_states == meaningful(
                self.plan().illegal_states@,
                self.plan().illegal_states@.len() as int,
            ),
            buffer@.wf(),
    {
        proof {
            use_type_invariant(self);
        }
        let plan = self.plan_input;
        let mut illegal_states: Vec<IllegalState> = Vec::new();
        let mut copied: usize = 0;
        while copied < plan.illegal_states.len()
            invariant
                copied <= plan.illegal_states.len(),
                illegal_states@ == plan.illegal_states@.take(copied as int),
            decreases plan.illegal_states.len() - copied,
        {
            illegal_states.push(plan.illegal_states[copied]);
            assert(illegal_states@ =~= plan.illegal_states@.take(copied + 1));
            copied += 1;
        }
        assert(illegal_states@ =~= plan.illegal_states@);
        let mut buffer = IllegalBuffer::new(Vec::new(), Vec::new(), illegal_states);
        assert(buffer@.can_teach =~= Set::empty());
        assert(buffer@.can_hold =~= Set::empty());

        let mut lesson_id: usize = 0;
        while lesson_id < self.lesson_info.len()
            invariant
                lesson_id <= self.lessons().len(),
                plan == self.plan(),
                fits_bytes(plan),
                plan.covers(self.lessons()),
                forall|pair: CanTeach| #[trigger]
                    buffer@.can_teach.contains(pair) == (pair.lesson_id < lesson_id
                        && self.may_teach(pair.lesson_id as int, pair.teacher_id as int)),
                forall|pair: CanHold| #[trigger]
                    buffer@.can_hold.contains(pair) == (pair.lesson_id < lesson_id
                        && self.may_hold(pair.lesson_id as int, pair.classroom_id as int)),
                buffer@.illegal_states == meaningful(
                    plan.illegal_states@,
                    plan.illegal_states@.len() as int,
                ),
                buffer@.wf(),
            decreases self.lessons().len() - lesson_id,
        {
            let info = self.lesson_info[lesson_id];
            assert(self.lessons()[lesson_id as int].group < plan.student_groups@.len());
            let subject = &plan.subjects[info.subject];
            let group = &plan.student_groups[info.group];

            let mut teacher: usize = 0;
            while teacher < plan.teachers.len()
                invariant
                    lesson_id < self.lessons().len(),
                    teacher <= plan.teachers.len(),
                    plan == self.plan(),
                    fits_bytes(plan),
                    info == self.lessons()[lesson_id as int],
                    info.subject < plan.subjects@.len(),
                    subject == &plan.subjects@[info.subject as int],
                    forall|pair: CanTeach| #[trigger]
                        buffer@.can_teach.contains(pair) == ((pair.lesson_id < lesson_id || (
                        pair.lesson_id == lesson_id && pair.teacher_id < teacher))
                            && self.may_teach(pair.lesson_id as int, pair.teacher_id as int)),
                    forall|pair: CanHold| #[trigger]
                        buffer@.can_hold.contains(pair) == (pair.lesson_id < lesson_id
                            && self.may_hold(pair.lesson_id as int, pair.classroom_id as int)),
                    buffer@.illegal_states == meaningful(
                        plan.illegal_states@,
                        plan.illegal_states@.len() as int,
                    ),
                    buffer@.wf(),
                decreases plan.teachers.len() - teacher,
            {
                if plan.teachers[teacher].teaches(&subject.name) {
                    buffer.insert_can_teach(CanTeach { lesson_id, teacher_id: teacher as u8 });
                }
                teacher += 1;
            }

            let mut classroom: usize = 0;
            while classroom < plan.classrooms.len()
                invariant
                    lesson_id < self.lessons().len(),
                    classroom <= plan.classrooms.len(),
                    plan == self.plan(),
                    fits_bytes(plan),
                    info == self.lessons()[lesson_id as int],
                    info.group < plan.student_groups@.len(),
                    group == &plan.student_groups@[info.group as int],
                    forall|pair: CanTeach| #[trigger]
                        buffer@.can_teach.contains(pair) == (pair.lesson_id < lesson_id + 1
                            && self.may_teach(pair.lesson_id as int, pair.teacher_id as int)),
                    forall|pair: CanHold| #[trigger]
                        buffer@.can_hold.contains(pair) == ((pair.lesson_id < lesson_id || (
                        pair.lesson_id == lesson_id && pair.classroom_id < classroom))
                            && self.may_hold(pair.lesson_id as int, pair.classroom_id as int)),
                    buffer@.illegal_states == meaningful(
                        plan.illegal_states@,
                        plan.illegal_states@.len() as int,
                    ),
                    buffer@.wf(),
                decreases plan.classrooms.len() - classroom,
            {
                if plan.classrooms[classroom].seats(group.size) {
                    buffer.insert_can_hold(CanHold { classroom_id: classroom as u8, lesson_id });
                }
                classroom += 1;
            }
            lesson_id += 1;
        }
        buffer
    }

    /// The names that belong to lesson `lesson_id` holding `lesson`.
    pub open spec fn named(self, lesson_id: int, lesson: Lesson, owned: LessonOwned) -> bool {
        let info = self.lessons()[lesson_id];
        &&& owned.subject_name == self.plan().subjects@[info.subject as int].name
        &&& owned.group == self.plan().student_groups@[info.group as int].name
        &&& owned.teacher == self.plan().teachers@[lesson.teacher as int].name
        &&& owned.classroom == self.plan().classrooms@[lesson.classroom as int].name
        &&& owned.time == SimpleDate::of_slot(lesson.time)
    }

    /// The state holds one lesson for every lesson that has to take place,
    /// and each names a teacher and a classroom of the catalog.
    pub open spec fn spec_can_name(self, state: InnerStateView) -> bool {
        &&& state.lessons.len() == self.lessons().len()
        &&& forall|k: int|
            0 <= k < state.lessons.len() ==> {
                &&& (#[trigger] state.lessons[k]).teacher < self.plan().teachers@.len()
                &&& state.lessons[k].classroom < self.plan().classrooms@.len()
            }
    }

    /// Whether the state of `annealing_buffer` can be written out by name.
    pub fn can_name(&self, annealing_buffer: &AnnealingBuffer) -> (nameable: bool)
        ensures
            nameable == self.spec_can_name(annealing_buffer.inner_state@),
    {
        let plan = self.plan_input;
        let state_ref = annealing_buffer.inner_state.state_ref();
        if state_ref.lessons.len() != self.lesson_info.len() {
            return false;
        }
        let mut lesson_id: usize = 0;
        while lesson_id < state_ref.lessons.len()
            invariant
                lesson_id <= state_ref.lessons@.len(),
                plan == self.plan(),
                state_ref.lessons@ == annealing_buffer.inner_state@.lessons,
                state_ref.lessons@.len() == self.lessons().len(),
                forall|k: int|
                    0 <= k < lesson_id ==> {
                        &&& (#[trigger] annealing_buffer.inner_state@.lessons[k]).teacher
                            < plan.teachers@.len()
                        &&& annealing_buffer.inner_state@.lessons[k].classroom
                            < plan.classrooms@.len()
                    },
            decreases state_ref.lessons@.len() - lesson_id,
        {
            let lesson = state_ref.lessons[lesson_id];
            if lesson.teacher as usize >= plan.teachers.len() || lesson.classroom as usize
                >= plan.classrooms.len() {
                assert(!(annealing_buffer.inner_state@.lessons[lesson_id as int].teacher
                    < plan.teachers@.len()
                    && annealing_buffer.inner_state@.lessons[lesson_id as int].classroom
                    < plan.classrooms@.len()));
                return false;
            }
            lesson_id += 1;
        }
        true
    }

    /// Writes a state out by name: for every lesson its group, teacher,
    /// classroom and subject as the catalog calls them, and its date.
    pub fn buffer_to_output(&self, annealing_buffer: &AnnealingBuffer) -> (output: PlanOutput)
        requires
            self.spec_can_name(annealing_buffer.inner_state@),
        ensures
            output@.len() == self.lessons().len(),
            forall|k: int|
                0 <= k < output@.len() ==> self.named(
                    k,
                    annealing_buffer.inner_state@.lessons[k],
                    #[trigger] output@[k],
                ),
    {
        proof {
            use_type_invariant(self);
        }
        let plan = self.plan_input;
        let mut output = PlanOutput::new();
        let state_ref = annealing_buffer.inner_state.state_ref();
        let mut lesson_id: usize = 0;
        while lesson_id < state_ref.lessons.len()
            invariant
                lesson_id <= state_ref.lessons@.len(),
                plan == self.plan(),
                plan.covers(self.lessons()),
                state_ref.lessons@ == annealing_buffer.inner_state@.lessons,
                state_ref.lessons@.len() == self.lessons().len(),
                forall|k: int|
                    0 <= k < state_ref.lessons@.len() ==> {
                        &&& (#[trigger] state_ref.lessons@[k]).teacher < plan.teachers@.len()
                        &&& state_ref.lessons@[k].classroom < plan.classrooms@.len()
                    },
                output@.len() == lesson_id,
                forall|k: int|
                    0 <= k < lesson_id ==> self.named(
                        k,
                        state_ref.lessons@[k],
                        #[trigger] output@[k],
                    ),
            decreases state_ref.lessons@.len() - lesson_id,
        {
            let lesson = state_ref.lessons[lesson_id];
            let lesson_info = self.lesson_info[lesson_id];
            assert(self.lessons()[lesson_id as int].group < plan.student_groups@.len());
            assert(state_ref.lessons@[lesson_id as int].teacher < plan.teachers@.len());
            output.push_lesson(
                LessonOwned {
                    subject_name: plan.subjects[lesson_info.subject].name.clone(),
                    group: plan.student_groups[lesson_info.group].name.clone(),
                    teacher: plan.teachers[lesson.teacher as usize].name.clone(),
                    time: SimpleDate::from_u8_time(lesson.time),
                    classroom: plan.classrooms[lesson.classroom as usize].name.clone(),
                },
            );
            lesson_id += 1;
        }
        output
    }
}

} // verus!
