use vstd::prelude::*;

verus! {

/// Number of teaching slots in one day.
pub const SLOTS_PER_DAY: u8 = 6;

/// Hour at which the first slot of a day begins.
pub const FIRST_HOUR: u8 = 8;

/// A day of the session and the hour at which a lesson starts.
#[derive(Debug, Clone, Copy, PartialEq, Eq, Hash, Structural)]
pub struct SimpleDate {
    pub day: u8,
    pub hour: u8,
}

impl SimpleDate {
    /// Day on which slot `t` falls.
    pub open spec fn day_of(t: u8) -> u8 {
        t / SLOTS_PER_DAY
    }

    /// Hour at which slot `t` begins.
    pub open spec fn hour_of(t: u8) -> u8 {
        (FIRST_HOUR + 2 * (t % SLOTS_PER_DAY)) as u8
    }

    /// The date of a slot, as a value of the model.
    pub open spec fn of_slot(t: u8) -> SimpleDate {
        SimpleDate { day: Self::day_of(t), hour: Self::hour_of(t) }
    }

    /// A date is valid when lessons may start at its hour.
    pub open spec fn valid(self) -> bool {
        self.hour < 23 && self.hour % 2 == 0
    }

    pub fn new(day: u8, hour: u8) -> (date: SimpleDate)
        requires
            hour < 23,
            hour % 2 == 0,
        ensures
            date == (SimpleDate { day, hour }),
            date.valid(),
    {
        SimpleDate { day, hour }
    }

    /// Decomposes a slot index into its day and starting hour.
    pub fn from_u8_time(t: u8) -> (date: SimpleDate)
        ensures
            date == Self::of_slot(t),
            date.day == t / 6,
            date.hour == 8 + 2 * (t % 6),
            date.hour % 2 == 0,
            8 <= date.hour < 20,
            date.valid(),
    {
        let day: u8 = t / SLOTS_PER_DAY;
        let hour: u8 = FIRST_HOUR + 2 * (t % SLOTS_PER_DAY);
        SimpleDate { day, hour }
    }
}

/// The starting hours of a run of days, in order: from 8 to 20 o'clock in
/// steps of two hours, day after day.
#[derive(Debug, Clone)]
pub struct DateList {
    days: u8,
    current_day: u8,
    current_hour: u8,
}

/// Hour at which the last lesson of a day in a [`DateList`] begins.
pub const LAST_HOUR: u8 = 20;

impl DateList {
    /// Number of days that the list runs over.
    pub closed spec fn days(&self) -> u8 {
        self.days
    }

    /// The date that [`DateList::next`] hands out next, where the list is
    /// not used up.
    pub closed spec fn current(&self) -> SimpleDate {
        SimpleDate { day: self.current_day, hour: self.current_hour }
    }

    /// The list has not passed its last day, and its hour is one at which a
    /// lesson may start.
    pub closed spec fn wf(&self) -> bool {
        &&& self.current_day <= self.days
        &&& FIRST_HOUR <= self.current_hour <= LAST_HOUR
        &&& self.current_hour % 2 == 0
    }

    /// All dates have been handed out.
    pub closed spec fn spec_is_done(&self) -> bool {
        self.current_day == self.days
    }

    /// The date that follows `date` in a list.
    pub open spec fn following(date: SimpleDate) -> SimpleDate {
        if date.hour + 2 > LAST_HOUR {
            SimpleDate { day: (date.day + 1) as u8, hour: FIRST_HOUR }
        } else {
            SimpleDate { day: date.day, hour: (date.hour + 2) as u8 }
        }
    }

    pub fn new(days: u8) -> (list: Self)
        ensures
            list.wf(),
            list.days() == days,
            list.current() == (SimpleDate { day: 0, hour: FIRST_HOUR }),
            list.spec_is_done() == (days == 0),
    {
        Self { days, current_day: 0, current_hour: FIRST_HOUR }
    }

    fn set_next(&mut self)
        requires
            old(self).wf(),
            !old(self).spec_is_done(),
        ensures
            final(self).wf(),
            final(self).days() == old(self).days(),
            final(self).current() == Self::following(old(self).current()),
    {
        self.current_hour += 2;
        if self.current_hour > LAST_HOUR {
            self.current_hour = FIRST_HOUR;
            self.current_day += 1;
        }
    }

    #[verifier::when_used_as_spec(spec_is_done)]
    fn is_done(&self) -> (done: bool)
        ensures
            done == self.spec_is_done(),
    {
        self.current_day == self.days
    }

    /// Hands out the current date and moves on to the one that follows, or
    /// hands out nothing once the last day has passed.
    pub fn next(&mut self) -> (date: Option<SimpleDate>)
        requires
            old(self).wf(),
        ensures
            final(self).wf(),
            final(self).days() == old(self).days(),
            old(self).spec_is_done() ==> date.is_none() && *final(self) == *old(self),
            !old(self).spec_is_done() ==> date == Some(old(self).current()),
            !old(self).spec_is_done() ==> final(self).current() == Self::following(
                old(self).current(),
            ),
            date matches Some(d) ==> d.valid() && d.day < old(self).days(),
    {
        if self.is_done() {
            None
        } else {
            let next = SimpleDate::new(self.current_day, self.current_hour);
            self.set_next();
            Some(next)
        }
    }
}

} // verus!
