//! Eligibility of a person for a shift, and round-robin assignment.

use vstd::prelude::*;

use crate::model::{spec_find_person_by_id, Person, PersonId, Roster, Shift};
use crate::scheduler::types::{AssignOptions, SchedError};
use crate::scheduler::util::{
    overlaps, sort_shifts_by_start, spec_overlaps, spec_sort_by_start, spec_sorted_by_start,
    spec_vacation_blocks, vacation_blocks_shift,
};
use crate::timeline::{hours_between, minutes_between, whole_hours, whole_minutes};

verus! {

/// Maps an optional excluded index into the ghost domain.
pub open spec fn spec_exclude(e: Option<usize>) -> Option<int> {
    match e {
        Some(i) => Some(i as int),
        None => None,
    }
}

/// Shift `i` of `shifts` counts toward `person`'s constraints: it is assigned
/// to that person and is not the excluded index.
pub open spec fn spec_counted(
    shifts: Seq<Shift>,
    person: Seq<char>,
    exclude: Option<int>,
    i: int,
) -> bool {
    &&& 0 <= i < shifts.len()
    &&& shifts[i].assignee() == Some(person)
    &&& match exclude {
        Some(e) => i != e,
        None => true,
    }
}

/// None of `person`'s counted shifts intersects the candidate interval
/// `[c_start, c_end)`.
pub open spec fn spec_overlap_free(
    shifts: Seq<Shift>,
    person: Seq<char>,
    exclude: Option<int>,
    c_start: int,
    c_end: int,
) -> bool {
    forall|i: int|
        #[trigger] spec_counted(shifts, person, exclude, i) ==> !spec_overlaps(
            shifts[i].start as int,
            shifts[i].end as int,
            c_start,
            c_end,
        )
}

/// The gap from the end of an existing shift to the candidate's start lies
/// within the thirty-minute tolerance on either side, so the two are treated
/// as one continuous duty run.
pub open spec fn spec_near_gap(c_start: int, s_end: int) -> bool {
    -30 <= minutes_between(c_start, s_end) <= 30
}

/// Latest end among the first `n` counted shifts that end at or before the
/// candidate's start: the rest-gap baseline.
pub open spec fn spec_rest_baseline(
    shifts: Seq<Shift>,
    person: Seq<char>,
    exclude: Option<int>,
    c_start: int,
    n: int,
) -> Option<int>
    decreases n,
{
    if n <= 0 {
        None
    } else {
        let rest = spec_rest_baseline(shifts, person, exclude, c_start, n - 1);
        if spec_counted(shifts, person, exclude, n - 1) && shifts[n - 1].end <= c_start {
            match rest {
                Some(e) => if shifts[n - 1].end as int > e {
                    Some(shifts[n - 1].end as int)
                } else {
                    Some(e)
                },
                None => Some(shifts[n - 1].end as int),
            }
        } else {
            rest
        }
    }
}

/// How many of the first `n` counted shifts lie within the consecutive-run
/// tolerance of the candidate's start.
pub open spec fn spec_consecutive_count(
    shifts: Seq<Shift>,
    person: Seq<char>,
    exclude: Option<int>,
    c_start: int,
    n: int,
) -> int
    decreases n,
{
    if n <= 0 {
        0
    } else {
        spec_consecutive_count(shifts, person, exclude, c_start, n - 1) + if spec_counted(
            shifts,
            person,
            exclude,
            n - 1,
        ) && spec_near_gap(c_start, shifts[n - 1].end as int) {
            1int
        } else {
            0int
        }
    }
}

/// The person's own record does not forbid the candidate: no blanket vacation
/// flag, and no vacation window (expanded by the minimum rest) intersecting
/// it. A person absent from the roster is not restricted.
pub open spec fn spec_vacation_clear(
    people: Seq<Person>,
    person: Seq<char>,
    c_start: int,
    c_end: int,
    rest_hours: int,
) -> bool {
    match spec_find_person_by_id(people, person) {
        Some(p) => !p.on_vacation && forall|j: int|
            0 <= j < p.vacations@.len() ==> !spec_vacation_blocks(
                #[trigger] p.vacations@[j],
                c_start,
                c_end,
                rest_hours,
            ),
        None => true,
    }
}

/// `person` may take a candidate shift over `[c_start, c_end)`: no overlap
/// with a counted shift, the rest gap from the baseline reaches
/// `min_rest_hours`, the consecutive-run count is below
/// `max_consecutive_shifts`, and no vacation stands in the way.
pub open spec fn spec_eligible(
    shifts: Seq<Shift>,
    people: Seq<Person>,
    person: Seq<char>,
    c_start: int,
    c_end: int,
    opts: AssignOptions,
    exclude: Option<int>,
) -> bool {
    &&& spec_overlap_free(shifts, person, exclude, c_start, c_end)
    &&& match spec_rest_baseline(shifts, person, exclude, c_start, shifts.len() as int) {
        Some(e) => hours_between(c_start, e) >= opts.min_rest_hours,
        None => true,
    }
    &&& spec_consecutive_count(shifts, person, exclude, c_start, shifts.len() as int)
        < opts.max_consecutive_shifts
    &&& spec_vacation_clear(people, person, c_start, c_end, opts.min_rest_hours as int)
}

/// Decides `spec_eligible` for the roster's current state.
pub(crate) fn eligible_for(
    roster: &Roster,
    person: &PersonId,
    shift: &Shift,
    opts: AssignOptions,
    exclude_shift_index: Option<usize>,
) -> (r: bool)
    ensures
        r == spec_eligible(
            roster.shifts@,
            roster.people@,
            person@,
            shift.start as int,
            shift.end as int,
            opts,
            spec_exclude(exclude_shift_index),
        ),
{
    let ghost sh = roster.shifts@;
    let ghost who = person@;
    let ghost excl = spec_exclude(exclude_shift_index);
    let n = roster.shifts.len();
    let mut prev_end: Option<i64> = None;
    let mut consec: usize = 0;
    let mut i: usize = 0;
    while i < n
        invariant
            i <= n,
            n == sh.len(),
            sh == roster.shifts@,
            who == person@,
            excl == spec_exclude(exclude_shift_index),
            forall|k: int|
                #[trigger] spec_counted(sh, who, excl, k) && k < i ==> !spec_overlaps(
                    sh[k].start as int,
                    sh[k].end as int,
                    shift.start as int,
                    shift.end as int,
                ),
            match prev_end {
                Some(e) => spec_rest_baseline(sh, who, excl, shift.start as int, i as int)
                    == Some(e as int),
                None => spec_rest_baseline(sh, who, excl, shift.start as int, i as int) is None,
            },
            consec == spec_consecutive_count(sh, who, excl, shift.start as int, i as int),
            consec <= i,
        decreases n - i,
    {
        let s = &roster.shifts[i];
        let counted = match (&s.assigned, exclude_shift_index) {
            (Some(p), Some(e)) => i != e && p.eq(person),
            (Some(p), None) => p.eq(person),
            (None, _) => false,
        };
        proof {
            assert(counted == spec_counted(sh, who, excl, i as int));
        }
        if counted {
            if overlaps(s.start, s.end, shift.start, shift.end) {
                proof {
                    assert(spec_counted(sh, who, excl, i as int));
                    assert(!spec_overlap_free(sh, who, excl, shift.start as int, shift.end as int));
                }
                return false;
            }
            if s.end <= shift.start {
                prev_end = match prev_end {
                    Some(e) => if s.end > e {
                        Some(s.end)
                    } else {
                        Some(e)
                    },
                    None => Some(s.end),
                };
            }
            let gap = whole_minutes(shift.start, s.end);
            if -30 <= gap && gap <= 30 {
                consec += 1;
            }
        }
        i += 1;
    }
    if let Some(e) = prev_end {
        let rest_h = whole_hours(shift.start, e);
        if rest_h < opts.min_rest_hours as i64 {
            return false;
        }
    }
    if consec as u64 >= opts.max_consecutive_shifts as u64 {
        return false;
    }
    match roster.find_person_by_id(person) {
        Some(p) => {
            if p.on_vacation {
                return false;
            }
            let m = p.vacations.len();
            let mut j: usize = 0;
            while j < m
                invariant
                    j <= m,
                    m == p.vacations@.len(),
                    spec_find_person_by_id(roster.people@, who) == Some(*p),
                    who == person@,
                    forall|k: int|
                        0 <= k < j ==> !spec_vacation_blocks(
                            #[trigger] p.vacations@[k],
                            shift.start as int,
                            shift.end as int,
                            opts.min_rest_hours as int,
                        ),
                decreases m - j,
            {
                if vacation_blocks_shift(&p.vacations[j], shift, opts) {
                    return false;
                }
                j += 1;
            }
        },
        None => {},
    }
    true
}

/// The candidate chosen for the shift at `idx`, as an index into
/// `candidates`: starting at `cursor`, up to `candidates.len() - tries`
/// positions are tried in cyclic order; a candidate on blanket vacation is
/// passed over without an eligibility check, and the first eligible candidate
/// wins. `None` when the whole rotation is exhausted.
pub open spec fn spec_pick(
    shifts: Seq<Shift>,
    people: Seq<Person>,
    candidates: Seq<Person>,
    opts: AssignOptions,
    idx: int,
    cursor: int,
    tries: int,
) -> Option<int>
    decreases candidates.len() - tries,
{
    if tries >= candidates.len() || candidates.len() == 0 || cursor < 0 || cursor
        >= candidates.len() {
        None
    } else {
        let c = candidates[cursor];
        if !c.on_vacation && spec_eligible(
            shifts,
            people,
            c.id@,
            shifts[idx].start as int,
            shifts[idx].end as int,
            opts,
            Some(idx),
        ) {
            Some(cursor)
        } else {
            spec_pick(
                shifts,
                people,
                candidates,
                opts,
                idx,
                (cursor + 1) % (candidates.len() as int),
                tries + 1,
            )
        }
    }
}

/// `s` with its assignment replaced by `p`.
pub open spec fn spec_assign(s: Shift, p: PersonId) -> Shift {
    Shift { assigned: Some(p), ..s }
}

/// The shift sequence after round-robin assignment has processed the shifts
/// from `idx` on, with the shared rotation cursor at `cursor`: each shift in
/// order takes the first eligible candidate, which advances the cursor past
/// them; a shift with no eligible candidate is left as it is and the cursor
/// comes back to where it started.
pub open spec fn spec_assign_from(
    shifts: Seq<Shift>,
    people: Seq<Person>,
    candidates: Seq<Person>,
    opts: AssignOptions,
    idx: int,
    cursor: int,
) -> Seq<Shift>
    decreases shifts.len() - idx,
{
    if idx < 0 || idx >= shifts.len() {
        shifts
    } else {
        match spec_pick(shifts, people, candidates, opts, idx, cursor, 0) {
            Some(ci) => spec_assign_from(
                shifts.update(idx, spec_assign(shifts[idx], candidates[ci].id)),
                people,
                candidates,
                opts,
                idx + 1,
                (ci + 1) % (candidates.len() as int),
            ),
            None => spec_assign_from(shifts, people, candidates, opts, idx + 1, cursor),
        }
    }
}

/// The whole run: shifts are first stably sorted by start time, then assigned
/// from index 0 with the cursor at 0. An empty candidate list is a no-op.
pub open spec fn spec_assign_rotative(
    shifts: Seq<Shift>,
    people: Seq<Person>,
    candidates: Seq<Person>,
    opts: AssignOptions,
) -> Seq<Shift> {
    if candidates.len() == 0 {
        shifts
    } else {
        spec_assign_from(spec_sort_by_start(shifts), people, candidates, opts, 0, 0)
    }
}

/// Rotation determinism: the outcome of a full round-robin run is a function
/// of the starting shift list, the roster's people, the candidate order and
/// the options alone — there is no randomness and no dependence on the time
/// of day — so two runs over value-equal rosters and candidate lists yield
/// value-equal assignments. The substance is `assign_rotative`'s `ensures`,
/// which pins each run's result to this one spec function of its inputs.
pub proof fn lemma_rotation_deterministic(
    shifts1: Seq<Shift>,
    people1: Seq<Person>,
    candidates1: Seq<Person>,
    shifts2: Seq<Shift>,
    people2: Seq<Person>,
    candidates2: Seq<Person>,
    opts: AssignOptions,
)
    requires
        shifts1 == shifts2,
        people1 == people2,
        candidates1 == candidates2,
    ensures
        spec_assign_rotative(shifts1, people1, candidates1, opts) == spec_assign_rotative(
            shifts2,
            people2,
            candidates2,
            opts,
        ),
{
}

/// Whatever candidate the rotation picks was off blanket vacation and
/// eligible for the shift being filled, in the very state the pick saw.
pub proof fn lemma_pick_takes_eligible(
    shifts: Seq<Shift>,
    people: Seq<Person>,
    candidates: Seq<Person>,
    opts: AssignOptions,
    idx: int,
    cursor: int,
    tries: int,
    ci: int,
)
    requires
        spec_pick(shifts, people, candidates, opts, idx, cursor, tries) == Some(ci),
    ensures
        0 <= ci < candidates.len(),
        !candidates[ci].on_vacation,
        spec_eligible(
            shifts,
            people,
            candidates[ci].id@,
            shifts[idx].start as int,
            shifts[idx].end as int,
            opts,
            Some(idx),
        ),
    decreases candidates.len() - tries,
{
    if tries >= candidates.len() || candidates.len() == 0 || cursor < 0 || cursor
        >= candidates.len() {
    } else {
        let c = candidates[cursor];
        if !c.on_vacation && spec_eligible(
            shifts,
            people,
            c.id@,
            shifts[idx].start as int,
            shifts[idx].end as int,
            opts,
            Some(idx),
        ) {
        } else {
            lemma_pick_takes_eligible(
                shifts,
                people,
                candidates,
                opts,
                idx,
                (cursor + 1) % (candidates.len() as int),
                tries + 1,
                ci,
            );
        }
    }
}

/// A rest baseline, when one exists, lies at or before the candidate's start.
proof fn lemma_baseline_le(
    shifts: Seq<Shift>,
    person: Seq<char>,
    exclude: Option<int>,
    c_start: int,
    n: int,
)
    ensures
        match spec_rest_baseline(shifts, person, exclude, c_start, n) {
            Some(e) => e <= c_start,
            None => true,
        },
    decreases n,
{
    if n > 0 {
        lemma_baseline_le(shifts, person, exclude, c_start, n - 1);
    }
}

/// A counted shift ending at or before the candidate's start pushes the rest
/// baseline at least up to its own end.
proof fn lemma_baseline_bounds(
    shifts: Seq<Shift>,
    person: Seq<char>,
    exclude: Option<int>,
    c_start: int,
    n: int,
    i: int,
)
    requires
        spec_counted(shifts, person, exclude, i),
        i < n <= shifts.len(),
        shifts[i].end <= c_start,
    ensures
        spec_rest_baseline(shifts, person, exclude, c_start, n) matches Some(e) && shifts[i].end
            <= e,
    decreases n,
{
    if i < n - 1 {
        lemma_baseline_bounds(shifts, person, exclude, c_start, n - 1, i);
    }
}

/// Rest enforcement: a person one of whose counted shifts ends at `T`, at or
/// before the candidate's start and closer to it than `min_rest_hours` whole
/// hours, is not eligible for the candidate — so the allocator, which assigns
/// only eligible people, can never assign them such a shift; it rather leaves
/// the shift unassigned when nobody else qualifies.
pub proof fn lemma_rest_enforced(
    shifts: Seq<Shift>,
    people: Seq<Person>,
    person: Seq<char>,
    c_start: int,
    c_end: int,
    opts: AssignOptions,
    exclude: Option<int>,
    i: int,
)
    requires
        spec_counted(shifts, person, exclude, i),
        shifts[i].end <= c_start,
        hours_between(c_start, shifts[i].end as int) < opts.min_rest_hours,
    ensures
        !spec_eligible(shifts, people, person, c_start, c_end, opts, exclude),
{
    let n = shifts.len() as int;
    lemma_baseline_le(shifts, person, exclude, c_start, n);
    lemma_baseline_bounds(shifts, person, exclude, c_start, n, i);
    let e = spec_rest_baseline(shifts, person, exclude, c_start, n)->0;
    vstd::arithmetic::div_mod::lemma_div_is_ordered(c_start - e, c_start - shifts[i].end, 3600);
}

/// Rest enforcement at assignment time: when the rotation picks a candidate,
/// every one of their other shifts that ends at or before the shift being
/// filled leaves at least the minimum rest gap before it.
pub proof fn lemma_rotation_respects_rest(
    shifts: Seq<Shift>,
    people: Seq<Person>,
    candidates: Seq<Person>,
    opts: AssignOptions,
    idx: int,
    cursor: int,
    tries: int,
    ci: int,
    i: int,
)
    requires
        spec_pick(shifts, people, candidates, opts, idx, cursor, tries) == Some(ci),
        spec_counted(shifts, candidates[ci].id@, Some(idx), i),
        shifts[i].end <= shifts[idx].start,
    ensures
        hours_between(shifts[idx].start as int, shifts[i].end as int) >= opts.min_rest_hours,
{
    lemma_pick_takes_eligible(shifts, people, candidates, opts, idx, cursor, tries, ci);
    if hours_between(shifts[idx].start as int, shifts[i].end as int) < opts.min_rest_hours {
        lemma_rest_enforced(
            shifts,
            people,
            candidates[ci].id@,
            shifts[idx].start as int,
            shifts[idx].end as int,
            opts,
            Some(idx),
            i,
        );
    }
}

/// A run never adds or removes shifts.
proof fn lemma_assign_from_len(
    shifts: Seq<Shift>,
    people: Seq<Person>,
    candidates: Seq<Person>,
    opts: AssignOptions,
    idx: int,
    cursor: int,
)
    ensures
        spec_assign_from(shifts, people, candidates, opts, idx, cursor).len() == shifts.len(),
    decreases shifts.len() - idx,
{
    if 0 <= idx < shifts.len() {
        match spec_pick(shifts, people, candidates, opts, idx, cursor, 0) {
            Some(ci) => {
                lemma_assign_from_len(
                    shifts.update(idx, spec_assign(shifts[idx], candidates[ci].id)),
                    people,
                    candidates,
                    opts,
                    idx + 1,
                    (ci + 1) % (candidates.len() as int),
                );
            },
            None => {
                lemma_assign_from_len(shifts, people, candidates, opts, idx + 1, cursor);
            },
        }
    }
}

/// A run from `idx` on leaves every earlier shift exactly as it stands.
proof fn lemma_assign_from_stable_prefix(
    shifts: Seq<Shift>,
    people: Seq<Person>,
    candidates: Seq<Person>,
    opts: AssignOptions,
    idx: int,
    cursor: int,
    k: int,
)
    requires
        0 <= k < shifts.len(),
        k < idx,
    ensures
        spec_assign_from(shifts, people, candidates, opts, idx, cursor)[k] == shifts[k],
    decreases shifts.len() - idx,
{
    if 0 <= idx < shifts.len() {
        match spec_pick(shifts, people, candidates, opts, idx, cursor, 0) {
            Some(ci) => {
                let updated = shifts.update(idx, spec_assign(shifts[idx], candidates[ci].id));
                lemma_assign_from_stable_prefix(
                    updated,
                    people,
                    candidates,
                    opts,
                    idx + 1,
                    (ci + 1) % (candidates.len() as int),
                    k,
                );
            },
            None => {
                lemma_assign_from_stable_prefix(
                    shifts,
                    people,
                    candidates,
                    opts,
                    idx + 1,
                    cursor,
                    k,
                );
            },
        }
    }
}

/// A run touches only who holds each shift, never its interval.
proof fn lemma_assign_from_keeps_intervals(
    shifts: Seq<Shift>,
    people: Seq<Person>,
    candidates: Seq<Person>,
    opts: AssignOptions,
    idx: int,
    cursor: int,
    k: int,
)
    requires
        0 <= k < shifts.len(),
    ensures
        spec_assign_from(shifts, people, candidates, opts, idx, cursor)[k].start == shifts[k].start,
        spec_assign_from(shifts, people, candidates, opts, idx, cursor)[k].end == shifts[k].end,
    decreases shifts.len() - idx,
{
    if 0 <= idx < shifts.len() {
        match spec_pick(shifts, people, candidates, opts, idx, cursor, 0) {
            Some(ci) => {
                let updated = shifts.update(idx, spec_assign(shifts[idx], candidates[ci].id));
                lemma_assign_from_keeps_intervals(
                    updated,
                    people,
                    candidates,
                    opts,
                    idx + 1,
                    (ci + 1) % (candidates.len() as int),
                    k,
                );
            },
            None => {
                lemma_assign_from_keeps_intervals(
                    shifts,
                    people,
                    candidates,
                    opts,
                    idx + 1,
                    cursor,
                    k,
                );
            },
        }
    }
}

/// Rest enforcement from `idx` on: when the run changes who holds the shift
/// at `t` — which only a pick does — every shift of the final schedule held
/// by the same person and ending at or before `t`'s start leaves at least
/// the minimum rest before it. The pick saw those earlier shifts exactly as
/// the final schedule holds them, because shifts sit in ascending start
/// order and the run walks them left to right.
proof fn lemma_assign_from_respects_rest(
    shifts: Seq<Shift>,
    people: Seq<Person>,
    candidates: Seq<Person>,
    opts: AssignOptions,
    idx: int,
    cursor: int,
    t: int,
    i: int,
)
    requires
        spec_sorted_by_start(shifts),
        forall|k: int| 0 <= k < shifts.len() ==> (#[trigger] shifts[k]).valid(),
        0 <= idx <= t < shifts.len(),
        0 <= i < shifts.len(),
        i != t,
        ({
            let out = spec_assign_from(shifts, people, candidates, opts, idx, cursor);
            &&& out[t].assignee() != shifts[t].assignee()
            &&& out[i].assignee() == out[t].assignee()
            &&& out[i].end <= out[t].start
        }),
    ensures
        ({
            let out = spec_assign_from(shifts, people, candidates, opts, idx, cursor);
            hours_between(out[t].start as int, out[i].end as int) >= opts.min_rest_hours
        }),
    decreases shifts.len() - idx,
{
    let out = spec_assign_from(shifts, people, candidates, opts, idx, cursor);
    lemma_assign_from_keeps_intervals(shifts, people, candidates, opts, idx, cursor, t);
    lemma_assign_from_keeps_intervals(shifts, people, candidates, opts, idx, cursor, i);
    assert(i < t) by {
        if i > t {
            assert(shifts[t].start <= shifts[i].start);
            assert(shifts[i].start < shifts[i].end);
        }
    }
    match spec_pick(shifts, people, candidates, opts, idx, cursor, 0) {
        Some(ci) => {
            lemma_pick_takes_eligible(shifts, people, candidates, opts, idx, cursor, 0, ci);
            let updated = shifts.update(idx, spec_assign(shifts[idx], candidates[ci].id));
            let ncur = (ci + 1) % (candidates.len() as int);
            assert(out == spec_assign_from(updated, people, candidates, opts, idx + 1, ncur));
            if idx == t {
                lemma_assign_from_stable_prefix(updated, people, candidates, opts, idx + 1, ncur, t);
                lemma_assign_from_stable_prefix(updated, people, candidates, opts, idx + 1, ncur, i);
                assert(out[t] == updated[t]);
                assert(out[i] == updated[i] && updated[i] == shifts[i]);
                let p = candidates[ci].id@;
                assert(out[t].assignee() == Some(p));
                assert(shifts[i].assignee() == Some(p));
                assert(spec_counted(shifts, p, Some(idx), i));
                if hours_between(shifts[t].start as int, shifts[i].end as int)
                    < opts.min_rest_hours {
                    lemma_rest_enforced(
                        shifts,
                        people,
                        p,
                        shifts[t].start as int,
                        shifts[t].end as int,
                        opts,
                        Some(idx),
                        i,
                    );
                }
            } else {
                assert(spec_sorted_by_start(updated)) by {
                    assert(forall|x: int|
                        0 <= x < updated.len() ==> (#[trigger] updated[x]).start
                            == shifts[x].start);
                }
                assert(forall|k: int| 0 <= k < updated.len() ==> (#[trigger] updated[k]).valid());
                assert(updated[t] == shifts[t]);
                lemma_assign_from_respects_rest(
                    updated,
                    people,
                    candidates,
                    opts,
                    idx + 1,
                    ncur,
                    t,
                    i,
                );
            }
        },
        None => {
            assert(out == spec_assign_from(shifts, people, candidates, opts, idx + 1, cursor));
            if idx == t {
                lemma_assign_from_stable_prefix(
                    shifts,
                    people,
                    candidates,
                    opts,
                    idx + 1,
                    cursor,
                    t,
                );
                assert(out[t] == shifts[t]);
            } else {
                lemma_assign_from_respects_rest(
                    shifts,
                    people,
                    candidates,
                    opts,
                    idx + 1,
                    cursor,
                    t,
                    i,
                );
            }
        },
    }
}

/// Rest enforcement at the level of a whole run's final schedule: when
/// `assign_rotative`'s outcome holds a shift the run newly assigned, every
/// shift the same person holds that ends at or before its start leaves at
/// least `min_rest_hours` whole hours before it — a shift that would break
/// the rest is rather left unassigned.
pub proof fn lemma_rotation_run_respects_rest(
    shifts: Seq<Shift>,
    people: Seq<Person>,
    candidates: Seq<Person>,
    opts: AssignOptions,
    t: int,
    i: int,
)
    requires
        candidates.len() > 0,
        forall|k: int| 0 <= k < shifts.len() ==> (#[trigger] shifts[k]).valid(),
        ({
            let sorted = spec_sort_by_start(shifts);
            let out = spec_assign_rotative(shifts, people, candidates, opts);
            &&& 0 <= t < out.len()
            &&& 0 <= i < out.len()
            &&& i != t
            &&& out[t].assignee() != sorted[t].assignee()
            &&& out[i].assignee() == out[t].assignee()
            &&& out[i].end <= out[t].start
        }),
    ensures
        ({
            let out = spec_assign_rotative(shifts, people, candidates, opts);
            hours_between(out[t].start as int, out[i].end as int) >= opts.min_rest_hours
        }),
{
    let sorted = spec_sort_by_start(shifts);
    crate::scheduler::util::lemma_sort_by_start_sorted(shifts);
    crate::scheduler::util::lemma_sort_by_start_multiset(shifts);
    assert forall|k: int| 0 <= k < sorted.len() implies (#[trigger] sorted[k]).valid() by {
        sorted.to_multiset_ensures();
        shifts.to_multiset_ensures();
        assert(sorted.contains(sorted[k]));
        assert(sorted.to_multiset().count(sorted[k]) > 0);
        assert(shifts.to_multiset().count(sorted[k]) > 0);
        assert(shifts.contains(sorted[k]));
        let w = choose|w: int| 0 <= w < shifts.len() && shifts[w] == sorted[k];
        assert(shifts[w].valid());
    }
    lemma_assign_from_len(sorted, people, candidates, opts, 0, 0);
    lemma_assign_from_respects_rest(sorted, people, candidates, opts, 0, 0, t, i);
}

/// Assignment only rewrites who holds a shift, never its interval: from
/// `idx` on, every shift of the outcome keeps a non-empty interval when
/// every input shift had one.
proof fn lemma_assign_from_preserves_validity(
    shifts: Seq<Shift>,
    people: Seq<Person>,
    candidates: Seq<Person>,
    opts: AssignOptions,
    idx: int,
    cursor: int,
)
    requires
        forall|i: int| 0 <= i < shifts.len() ==> (#[trigger] shifts[i]).valid(),
    ensures
        forall|i: int|
            0 <= i < spec_assign_from(shifts, people, candidates, opts, idx, cursor).len() ==> (
            #[trigger] spec_assign_from(shifts, people, candidates, opts, idx, cursor)[i]).valid(),
    decreases shifts.len() - idx,
{
    let out = spec_assign_from(shifts, people, candidates, opts, idx, cursor);
    if 0 <= idx < shifts.len() {
        match spec_pick(shifts, people, candidates, opts, idx, cursor, 0) {
            Some(ci) => {
                lemma_pick_takes_eligible(shifts, people, candidates, opts, idx, cursor, 0, ci);
                let updated = shifts.update(idx, spec_assign(shifts[idx], candidates[ci].id));
                assert(forall|i: int| 0 <= i < updated.len() ==> (#[trigger] updated[i]).valid());
                lemma_assign_from_preserves_validity(
                    updated,
                    people,
                    candidates,
                    opts,
                    idx + 1,
                    (ci + 1) % (candidates.len() as int),
                );
                let rest = spec_assign_from(
                    updated,
                    people,
                    candidates,
                    opts,
                    idx + 1,
                    (ci + 1) % (candidates.len() as int),
                );
                assert(out == rest);
                assert forall|i: int| 0 <= i < out.len() implies (#[trigger] out[i]).valid() by {
                    assert(out[i] == rest[i]);
                    assert(rest[i].valid());
                }
            },
            None => {
                lemma_assign_from_preserves_validity(
                    shifts,
                    people,
                    candidates,
                    opts,
                    idx + 1,
                    cursor,
                );
                let rest = spec_assign_from(shifts, people, candidates, opts, idx + 1, cursor);
                assert(out == rest);
                assert forall|i: int| 0 <= i < out.len() implies (#[trigger] out[i]).valid() by {
                    assert(out[i] == rest[i]);
                    assert(rest[i].valid());
                }
            },
        }
    } else {
        assert(out == shifts);
        assert forall|i: int| 0 <= i < out.len() implies (#[trigger] out[i]).valid() by {
            assert(out[i] == shifts[i]);
        }
    }
}

/// A rotation run preserves the shift-set invariant: when every shift's
/// interval is non-empty going in, so is every shift's interval coming out —
/// sorting permutes the shifts and assignment touches only who holds them.
pub proof fn lemma_rotation_preserves_intervals(
    shifts: Seq<Shift>,
    people: Seq<Person>,
    candidates: Seq<Person>,
    opts: AssignOptions,
)
    requires
        forall|i: int| 0 <= i < shifts.len() ==> (#[trigger] shifts[i]).valid(),
    ensures
        forall|i: int|
            0 <= i < spec_assign_rotative(shifts, people, candidates, opts).len() ==> (
            #[trigger] spec_assign_rotative(shifts, people, candidates, opts)[i]).valid(),
{
    if candidates.len() > 0 {
        let sorted = spec_sort_by_start(shifts);
        crate::scheduler::util::lemma_sort_by_start_multiset(shifts);
        assert forall|i: int| 0 <= i < sorted.len() implies (#[trigger] sorted[i]).valid() by {
            sorted.to_multiset_ensures();
            shifts.to_multiset_ensures();
            assert(sorted.contains(sorted[i]));
            assert(sorted.to_multiset().count(sorted[i]) > 0);
            assert(shifts.to_multiset().count(sorted[i]) > 0);
            assert(shifts.contains(sorted[i]));
            let k = choose|k: int| 0 <= k < shifts.len() && shifts[k] == sorted[i];
            assert(shifts[k].valid());
        }
        lemma_assign_from_preserves_validity(sorted, people, candidates, opts, 0, 0);
    }
}

/// Runs the rotation for one shift: tries up to `people.len()` candidates
/// from `cursor`, returning the chosen index and the advanced cursor.
fn pick_candidate(
    roster: &Roster,
    people: &[Person],
    opts: AssignOptions,
    shift_index: usize,
    candidate: &Shift,
    cursor: usize,
) -> (r: (Option<usize>, usize))
    requires
        people@.len() > 0,
        cursor < people@.len(),
        shift_index < roster.shifts@.len(),
        *candidate == roster.shifts@[shift_index as int],
    ensures
        ({
            let pick = spec_pick(
                roster.shifts@,
                roster.people@,
                people@,
                opts,
                shift_index as int,
                cursor as int,
                0,
            );
            match r.0 {
                Some(ci) => pick == Some(ci as int) && ci < people@.len() && r.1 == ((ci + 1) % (
                people@.len() as int)),
                None => pick is None && r.1 == cursor,
            }
        }),
{
    let total = people.len();
    let mut cur: usize = cursor;
    let mut tries: usize = 0;
    while tries < total
        invariant
            total == people@.len(),
            total > 0,
            cur < total,
            tries <= total,
            shift_index < roster.shifts@.len(),
            *candidate == roster.shifts@[shift_index as int],
            spec_pick(
                roster.shifts@,
                roster.people@,
                people@,
                opts,
                shift_index as int,
                cursor as int,
                0,
            ) == spec_pick(
                roster.shifts@,
                roster.people@,
                people@,
                opts,
                shift_index as int,
                cur as int,
                tries as int,
            ),
        decreases total - tries,
    {
        let p = &people[cur];
        let ok = if p.on_vacation {
            false
        } else {
            eligible_for(roster, &p.id, candidate, opts, Some(shift_index))
        };
        if ok {
            return (Some(cur), (cur + 1) % total);
        }
        cur = (cur + 1) % total;
        tries += 1;
    }
    (None, cursor)
}

/// Sorts the roster's shifts by start time (a persistent side effect), then
/// assigns each shift in chronological order to the next eligible candidate
/// in cyclic rotation; shifts with no eligible candidate stay unassigned.
/// With no candidates the roster is untouched. Never fails.
pub(crate) fn assign_rotative(roster: &mut Roster, people: &[Person], opts: AssignOptions) -> (r:
    Result<(), SchedError>)
    ensures
        r is Ok,
        final(roster).people == old(roster).people,
        final(roster).shifts@ == spec_assign_rotative(
            old(roster).shifts@,
            old(roster).people@,
            people@,
            opts,
        ),
{
    if people.len() == 0 {
        return Ok(());
    }
    sort_shifts_by_start(&mut roster.shifts);
    let ghost sorted0 = roster.shifts@;
    let ghost rp = roster.people@;
    let ghost cands = people@;
    let total = people.len();
    let n = roster.shifts.len();
    let mut cursor: usize = 0;
    let mut shift_index: usize = 0;
    while shift_index < n
        invariant
            shift_index <= n,
            n == roster.shifts@.len(),
            total == cands.len(),
            total > 0,
            cursor < total,
            cands == people@,
            roster.people == old(roster).people,
            roster.people@ == rp,
            spec_assign_from(
                roster.shifts@,
                rp,
                cands,
                opts,
                shift_index as int,
                cursor as int,
            ) == spec_assign_from(sorted0, rp, cands, opts, 0, 0),
        decreases n - shift_index,
    {
        let candidate = roster.shifts[shift_index].clone();
        let ghost pre = roster.shifts@;
        let (chosen, new_cursor) = pick_candidate(
            roster,
            people,
            opts,
            shift_index,
            &candidate,
            cursor,
        );
        match chosen {
            Some(ci) => {
                let pid = people[ci].id.clone();
                let s = vstd::std_specs::vec::vec_index_mut(&mut roster.shifts, shift_index);
                s.assigned = Some(pid);
                proof {
                    assert(roster.shifts@ =~= pre.update(
                        shift_index as int,
                        spec_assign(pre[shift_index as int], cands[ci as int].id),
                    ));
                }
            },
            None => {},
        }
        cursor = new_cursor;
        shift_index += 1;
    }
    Ok(())
}

} // verus!
