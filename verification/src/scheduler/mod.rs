//! The assignment and consistency engine around one owned `Roster`.

pub(crate) mod assignment;
pub(crate) mod conflicts;
pub(crate) mod mutate;
pub(crate) mod types;
pub(crate) mod util;

pub use assignment::{
    lemma_pick_takes_eligible, lemma_rest_enforced, lemma_rotation_deterministic,
    lemma_rotation_preserves_intervals, lemma_rotation_respects_rest,
    lemma_rotation_run_respects_rest, spec_assign_rotative, spec_eligible, spec_exclude,
};
pub use conflicts::{lemma_detect_reports_overlaps, spec_detect_conflicts, spec_has_overlap_for};
pub use mutate::{
    lemma_cover_conservation, lemma_cover_preserves_intervals, lemma_swap_preserves_intervals,
    lemma_swap_rollback, spec_cover_outcome, spec_swap_outcome,
};
pub use types::{AssignOptions, Conflict, ConflictKind, SchedError};
pub use util::{
    lemma_overlaps_symmetric, lemma_sort_by_start_multiset, lemma_sort_by_start_sorted,
    lemma_touching_intervals_disjoint, overlaps, spec_overlaps, spec_sorted_by_start,
    spec_vacation_blocks,
};

use vstd::prelude::*;

use crate::model::{Person, PersonId, Roster, Shift, ShiftId};

verus! {

/// The scheduling engine; it exclusively owns the roster it builds.
///
/// The view of a `Scheduler` is its roster.
#[derive(Debug)]
pub struct Scheduler {
    roster: Roster,
}

impl View for Scheduler {
    type V = Roster;

    closed spec fn view(&self) -> Roster {
        self.roster
    }
}

impl Default for Scheduler {
    fn default() -> (r: Self)
        ensures
            r@.people@ == Seq::<Person>::empty(),
            r@.shifts@ == Seq::<Shift>::empty(),
    {
        Scheduler::new()
    }
}

impl Scheduler {
    pub fn new() -> (r: Self)
        ensures
            r@.people@ == Seq::<Person>::empty(),
            r@.shifts@ == Seq::<Shift>::empty(),
    {
        Scheduler { roster: Roster::default() }
    }

    pub fn roster(&self) -> (r: &Roster)
        ensures
            *r == self@,
    {
        &self.roster
    }

    pub fn roster_mut(&mut self) -> (r: &mut Roster)
        ensures
            *r == old(self)@,
            final(self)@ == *final(r),
    {
        &mut self.roster
    }

    /// Appends `people` to the roster, keeping insertion order.
    pub fn add_people(&mut self, people: Vec<Person>)
        ensures
            final(self)@.people@ == old(self)@.people@ + people@,
            final(self)@.shifts == old(self)@.shifts,
    {
        let mut moved = people;
        self.roster.people.append(&mut moved);
    }

    /// Creates an unassigned shift `[start, end)` and appends it, rejecting
    /// `end <= start` with `InvalidTimeRange`.
    pub fn create_shift(&mut self, name: &str, start: i64, end: i64) -> (r: Result<
        ShiftId,
        SchedError,
    >)
        ensures
            end > start ==> (r matches Ok(id) && {
                let s = final(self)@.shifts@.last();
                &&& final(self)@.shifts@ == old(self)@.shifts@.push(s)
                &&& s.name@ == name@
                &&& s.start == start
                &&& s.end == end
                &&& s.role is None
                &&& s.assigned is None
                &&& s.id@ == id@
                &&& final(self)@.people == old(self)@.people
            }),
            end <= start ==> (r matches Err(e) && e is InvalidTimeRange) && *final(self) == *old(
                self,
            ),
    {
        if end <= start {
            return Err(SchedError::InvalidTimeRange);
        }
        let s = match Shift::new(name.to_owned(), start, end, None) {
            Ok(s) => s,
            Err(_) => {
                return Err(SchedError::InvalidTimeRange);
            },
        };
        let id = s.id.clone();
        self.roster.shifts.push(s);
        Ok(id)
    }

    /// Whether `person` may take `shift` under `opts`, ignoring any existing
    /// assignment at `exclude_shift_index` (used when re-evaluating a shift
    /// being re-assigned, to avoid self-conflict). Purely a predicate.
    pub fn person_ok_for_shift(
        &self,
        person: &PersonId,
        shift: &Shift,
        opts: AssignOptions,
        exclude_shift_index: Option<usize>,
    ) -> (r: bool)
        ensures
            r == spec_eligible(
                self@.shifts@,
                self@.people@,
                person@,
                shift.start as int,
                shift.end as int,
                opts,
                spec_exclude(exclude_shift_index),
            ),
    {
        assignment::eligible_for(&self.roster, person, shift, opts, exclude_shift_index)
    }

    /// Sorts the shifts by start time (a persistent side effect) and assigns
    /// each one, in chronological order, to the next eligible candidate in
    /// cyclic rotation, leaving shifts with no eligible candidate unassigned;
    /// a no-op when `people` is empty. Never fails.
    pub fn assign_rotative(&mut self, people: &[Person], opts: AssignOptions) -> (r: Result<
        (),
        SchedError,
    >)
        ensures
            r is Ok,
            final(self)@.people == old(self)@.people,
            final(self)@.shifts@ == spec_assign_rotative(
                old(self)@.shifts@,
                old(self)@.people@,
                people@,
                opts,
            ),
    {
        assignment::assign_rotative(&mut self.roster, people, opts)
    }

    /// Scans the assigned schedule and reports every overlap and rest-gap
    /// violation, person by person in roster order; read-only.
    pub fn detect_conflicts(&self, opts: AssignOptions) -> (r: Vec<Conflict>)
        ensures
            r@ == spec_detect_conflicts(self@.shifts@, self@.people@, opts),
    {
        conflicts::detect_conflicts(&self.roster, opts)
    }

    /// Swaps the named shift between `a` and `b`: whichever of the two holds
    /// it hands it to the other, unless the new assignee is on vacation or the
    /// re-run conflict detector reports them in an `Overlap`, in which case
    /// the change is rolled back. All-or-nothing: on any error the roster is
    /// exactly as before the call; `spec_swap_outcome` states each case.
    pub fn swap(
        &mut self,
        shift_id: &ShiftId,
        a: &PersonId,
        b: &PersonId,
        opts: AssignOptions,
    ) -> (r: Result<(), SchedError>)
        ensures
            spec_swap_outcome(old(self)@, final(self)@, r, shift_id@, *a, *b, opts),
    {
        mutate::swap(&mut self.roster, shift_id, a, b, opts)
    }

    /// Splits the named shift at `from`: the original keeps its identity and
    /// assignee but is truncated to end at `from`, and a new shift over
    /// `[from, end)` with the same name and role, assigned to `person`, is
    /// inserted right after it. Fails, leaving the roster untouched, when the
    /// cover point is not strictly inside the shift, the person is unknown or
    /// on vacation, a vacation window blocks the tail, or the person is not
    /// eligible for it; `spec_cover_outcome` states each case.
    pub fn cover_shift(
        &mut self,
        shift_id: &ShiftId,
        from: i64,
        person: &PersonId,
        opts: AssignOptions,
    ) -> (r: Result<ShiftId, SchedError>)
        ensures
            spec_cover_outcome(old(self)@, final(self)@, r, shift_id@, person@, from, opts),
    {
        mutate::cover_shift(&mut self.roster, shift_id, from, person, opts)
    }
}

} // verus!
