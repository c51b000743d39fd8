//! Transactional mutation of assignments: swap and split-and-cover.

use vstd::prelude::*;

use crate::model::{
    lemma_find_shift_index_some, spec_find_person_by_id, spec_find_shift_index, Person, PersonId,
    Roster, Shift, ShiftId,
};
use crate::scheduler::assignment::{eligible_for, spec_assign, spec_eligible};
use crate::scheduler::conflicts::{detect_conflicts, spec_detect_conflicts};
use crate::scheduler::types::{AssignOptions, Conflict, ConflictKind, SchedError};
use crate::scheduler::util::{spec_overlaps, spec_vacation_blocks, vacation_blocks_shift};

verus! {

/// The roster holds the same people and the same shifts as before.
pub open spec fn spec_roster_unchanged(pre: Roster, post: Roster) -> bool {
    post.people == pre.people && post.shifts@ == pre.shifts@
}

/// Some vacation window of `p`, expanded by `rest_hours`, intersects
/// `[s_start, s_end)`.
pub open spec fn spec_any_vacation_blocks(
    p: Person,
    s_start: int,
    s_end: int,
    rest_hours: int,
) -> bool {
    exists|j: int|
        0 <= j < p.vacations@.len() && spec_vacation_blocks(
            #[trigger] p.vacations@[j],
            s_start,
            s_end,
            rest_hours,
        )
}

/// Some conflict of `cs` names `target` with an `Overlap`: the one kind a
/// swap treats as severe enough to roll back.
pub open spec fn spec_severe_for(cs: Seq<Conflict>, target: Seq<char>) -> bool {
    exists|k: int|
        0 <= k < cs.len() && (#[trigger] cs[k]).person@ == target && cs[k].kind is Overlap
}

/// What `swap` does. With the shift found at `pos` and currently assigned to
/// one of the two named people, the other becomes the target; the swap fails,
/// leaving the roster as it was, when the target is on vacation, a vacation
/// window blocks the shift, or the tentative reassignment would put the
/// target in an `Overlap` conflict; otherwise the one assignment changes.
pub open spec fn spec_swap_outcome(
    pre: Roster,
    post: Roster,
    r: Result<(), SchedError>,
    shift_id: Seq<char>,
    a: PersonId,
    b: PersonId,
    opts: AssignOptions,
) -> bool {
    match spec_find_shift_index(pre.shifts@, shift_id) {
        None => spec_roster_unchanged(pre, post) && (r matches Err(e) && (e matches
        SchedError::UnknownShift(t) && t@ == shift_id)),
        Some(pos) => {
            let s = pre.shifts@[pos];
            if s.assignee() != Some(a@) && s.assignee() != Some(b@) {
                spec_roster_unchanged(pre, post) && (r matches Err(e) && (e matches
                SchedError::SwapInvalid(m) && m@ == "shift not assigned to either person"@))
            } else {
                let target = if s.assignee() == Some(a@) {
                    b
                } else {
                    a
                };
                let found = spec_find_person_by_id(pre.people@, target@);
                let vac_flag = match found {
                    Some(p) => p.on_vacation,
                    None => false,
                };
                let vac_range = match found {
                    Some(p) => spec_any_vacation_blocks(
                        p,
                        s.start as int,
                        s.end as int,
                        opts.min_rest_hours as int,
                    ),
                    None => false,
                };
                if vac_flag {
                    spec_roster_unchanged(pre, post) && (r matches Err(e) && (e matches
                    SchedError::SwapInvalid(m) && m@ == "target person on vacation"@))
                } else if vac_range {
                    spec_roster_unchanged(pre, post) && (r matches Err(e) && (e matches
                    SchedError::SwapInvalid(m) && m@ == "target person on vacation range"@))
                } else {
                    let tentative = pre.shifts@.update(pos, spec_assign(s, target));
                    if spec_severe_for(
                        spec_detect_conflicts(tentative, pre.people@, opts),
                        target@,
                    ) {
                        spec_roster_unchanged(pre, post) && (r matches Err(e) && (e matches
                        SchedError::SwapInvalid(m) && m@ == "introduces overlap"@))
                    } else {
                        post.people == pre.people && post.shifts@ == tentative && r is Ok
                    }
                }
            }
        },
    }
}

/// Whether any conflict names `target` with kind `Overlap`.
fn has_severe(conflicts: &Vec<Conflict>, target: &PersonId) -> (r: bool)
    ensures
        r == spec_severe_for(conflicts@, target@),
{
    let n = conflicts.len();
    let mut k: usize = 0;
    while k < n
        invariant
            k <= n,
            n == conflicts@.len(),
            forall|t: int|
                0 <= t < k ==> !((#[trigger] conflicts@[t]).person@ == target@
                    && conflicts@[t].kind is Overlap),
        decreases n - k,
    {
        let c = &conflicts[k];
        if c.person.eq(target) && c.kind == ConflictKind::Overlap {
            return true;
        }
        k += 1;
    }
    false
}

/// Swaps the assignment of the named shift between `a` and `b`: whichever of
/// the two holds it hands it to the other. The reassignment is tentatively
/// committed and the conflict detector re-run; if the new assignee appears in
/// any `Overlap` conflict the change is rolled back. All-or-nothing: on any
/// error the roster is left exactly as it was.
#[verifier::rlimit(30)]
#[verifier::loop_isolation(false)]
pub(crate) fn swap(
    roster: &mut Roster,
    shift_id: &ShiftId,
    a: &PersonId,
    b: &PersonId,
    opts: AssignOptions,
) -> (r: Result<(), SchedError>)
    ensures
        spec_swap_outcome(*old(roster), *final(roster), r, shift_id@, *a, *b, opts),
{
    let pos = match roster.find_shift_index(shift_id) {
        Some(p) => p,
        None => {
            return Err(SchedError::UnknownShift(shift_id.as_str().to_owned()));
        },
    };
    let (is_a, is_b) = {
        let s = &roster.shifts[pos];
        (
            match &s.assigned {
                Some(q) => q.eq(a),
                None => false,
            },
            match &s.assigned {
                Some(q) => q.eq(b),
                None => false,
            },
        )
    };
    if !is_a && !is_b {
        return Err(SchedError::SwapInvalid("shift not assigned to either person"));
    }
    let target: PersonId = if is_a {
        b.clone()
    } else {
        a.clone()
    };
    let prev: Option<PersonId> = match &roster.shifts[pos].assigned {
        Some(q) => Some(q.clone()),
        None => None,
    };
    match roster.find_person_by_id(&target) {
        Some(p) => {
            if p.on_vacation {
                return Err(SchedError::SwapInvalid("target person on vacation"));
            }
            let m = p.vacations.len();
            let mut j: usize = 0;
            while j < m
                invariant
                    j <= m,
                    m == p.vacations@.len(),
                    pos < roster.shifts@.len(),
                    forall|t: int|
                        0 <= t < j ==> !spec_vacation_blocks(
                            #[trigger] p.vacations@[t],
                            roster.shifts@[pos as int].start as int,
                            roster.shifts@[pos as int].end as int,
                            opts.min_rest_hours as int,
                        ),
                decreases m - j,
            {
                if vacation_blocks_shift(&p.vacations[j], &roster.shifts[pos], opts) {
                    proof {
                        let jj = j as int;
                        assert(spec_vacation_blocks(
                            p.vacations@[jj],
                            roster.shifts@[pos as int].start as int,
                            roster.shifts@[pos as int].end as int,
                            opts.min_rest_hours as int,
                        ));
                        assert(spec_any_vacation_blocks(
                            *p,
                            roster.shifts@[pos as int].start as int,
                            roster.shifts@[pos as int].end as int,
                            opts.min_rest_hours as int,
                        ));
                    }
                    return Err(SchedError::SwapInvalid("target person on vacation range"));
                }
                j += 1;
            }
        },
        None => {},
    }
    let ghost pre = *roster;
    let s = vstd::std_specs::vec::vec_index_mut(&mut roster.shifts, pos);
    s.assigned = Some(target.clone());
    proof {
        assert(roster.shifts@ =~= pre.shifts@.update(
            pos as int,
            spec_assign(pre.shifts@[pos as int], if is_a {
                *b
            } else {
                *a
            }),
        ));
    }
    let conflicts = detect_conflicts(roster, opts);
    if has_severe(&conflicts, &target) {
        let s = vstd::std_specs::vec::vec_index_mut(&mut roster.shifts, pos);
        s.assigned = prev;
        proof {
            assert(roster.shifts@ =~= pre.shifts@);
        }
        return Err(SchedError::SwapInvalid("introduces overlap"));
    }
    Ok(())
}

/// What `cover_shift` does. With the shift found at `pos`, the covering
/// person known, off vacation, the cover point strictly inside the shift, no
/// vacation window blocking the tail `[from, end)`, and the person eligible
/// for that tail, the original shift is truncated to end at `from` and a new
/// shift over the tail — same name and role, assigned to the covering person
/// — is inserted right after it; on any failure the roster is left as it was.
pub open spec fn spec_cover_outcome(
    pre: Roster,
    post: Roster,
    r: Result<ShiftId, SchedError>,
    shift_id: Seq<char>,
    person: Seq<char>,
    from: i64,
    opts: AssignOptions,
) -> bool {
    match spec_find_shift_index(pre.shifts@, shift_id) {
        None => spec_roster_unchanged(pre, post) && (r matches Err(e) && (e matches
        SchedError::UnknownShift(t) && t@ == shift_id)),
        Some(pos) => {
            let original = pre.shifts@[pos];
            match spec_find_person_by_id(pre.people@, person) {
                None => spec_roster_unchanged(pre, post) && (r matches Err(e) && (e matches
                SchedError::UnknownPerson(h) && h@ == person)),
                Some(cover) => if cover.on_vacation {
                    spec_roster_unchanged(pre, post) && (r matches Err(e) && (e matches
                    SchedError::CoverInvalid(m) && m@ == "person on vacation"@))
                } else if from <= original.start {
                    spec_roster_unchanged(pre, post) && (r matches Err(e) && (e matches
                    SchedError::CoverInvalid(m) && m@ == "cover point before shift start"@))
                } else if from >= original.end {
                    spec_roster_unchanged(pre, post) && (r matches Err(e) && (e matches
                    SchedError::CoverInvalid(m) && m@ == "cover point after shift end"@))
                } else if spec_any_vacation_blocks(
                    cover,
                    from as int,
                    original.end as int,
                    opts.min_rest_hours as int,
                ) {
                    spec_roster_unchanged(pre, post) && (r matches Err(e) && (e matches
                    SchedError::CoverInvalid(m) && m@ == "person vacation conflicts"@))
                } else if !spec_eligible(
                    pre.shifts@,
                    pre.people@,
                    person,
                    from as int,
                    original.end as int,
                    opts,
                    None,
                ) {
                    spec_roster_unchanged(pre, post) && (r matches Err(e) && (e matches
                    SchedError::CoverInvalid(m) && m@ == "assignment constraints violated"@))
                } else {
                    let seg = post.shifts@[pos + 1];
                    &&& post.shifts@ == pre.shifts@.update(
                        pos,
                        Shift { end: from, ..original },
                    ).insert(pos + 1, seg)
                    &&& seg.name == original.name
                    &&& seg.start == from
                    &&& seg.end == original.end
                    &&& seg.role == original.role
                    &&& seg.assignee() == Some(person)
                    &&& post.people == pre.people
                    &&& (r matches Ok(nid) && nid@ == seg.id@)
                },
            }
        },
    }
}

/// Swap rollback: whenever a swap reports an error — in particular when the
/// tentative reassignment would introduce an overlap — the roster holds
/// exactly the people and shifts it held before the call.
pub proof fn lemma_swap_rollback(
    pre: Roster,
    post: Roster,
    r: Result<(), SchedError>,
    shift_id: Seq<char>,
    a: PersonId,
    b: PersonId,
    opts: AssignOptions,
)
    requires
        spec_swap_outcome(pre, post, r, shift_id, a, b, opts),
        r is Err,
    ensures
        post.people == pre.people,
        post.shifts@ == pre.shifts@,
{
}

/// Cover conservation: after a successful cover at `from`, the truncated
/// original `[start, from)` and the new segment `[from, end)` are contiguous
/// and disjoint and together span exactly the original `[start, end)`; the
/// original keeps its identity and assignee, the segment is assigned to the
/// covering person, and exactly one shift was added.
pub proof fn lemma_cover_conservation(
    pre: Roster,
    post: Roster,
    r: Result<ShiftId, SchedError>,
    shift_id: Seq<char>,
    person: Seq<char>,
    from: i64,
    opts: AssignOptions,
)
    requires
        spec_cover_outcome(pre, post, r, shift_id, person, from, opts),
        r is Ok,
    ensures
        spec_find_shift_index(pre.shifts@, shift_id) matches Some(pos) && {
            let original = pre.shifts@[pos];
            let head = post.shifts@[pos];
            let seg = post.shifts@[pos + 1];
            &&& head.id == original.id
            &&& head.assigned == original.assigned
            &&& head.start == original.start
            &&& head.end == from
            &&& seg.start == from
            &&& seg.end == original.end
            &&& !spec_overlaps(
                head.start as int,
                head.end as int,
                seg.start as int,
                seg.end as int,
            )
            &&& seg.assignee() == Some(person)
            &&& post.shifts@.len() == pre.shifts@.len() + 1
        },
{
    lemma_find_shift_index_some(pre.shifts@, shift_id);
    let pos = spec_find_shift_index(pre.shifts@, shift_id)->0;
    let original = pre.shifts@[pos];
    let seg = post.shifts@[pos + 1];
    let truncated = pre.shifts@.update(pos, Shift { end: from, ..original });
    assert(post.shifts@ == truncated.insert(pos + 1, seg));
    truncated.insert_ensures(pos + 1, seg);
    assert(post.shifts@[pos] == truncated[pos]);
}

/// Swap preserves the shift-set invariant: it only moves one assignment, so
/// every shift's interval after the call is non-empty when every one was
/// before.
pub proof fn lemma_swap_preserves_intervals(
    pre: Roster,
    post: Roster,
    r: Result<(), SchedError>,
    shift_id: Seq<char>,
    a: PersonId,
    b: PersonId,
    opts: AssignOptions,
)
    requires
        spec_swap_outcome(pre, post, r, shift_id, a, b, opts),
        forall|i: int| 0 <= i < pre.shifts@.len() ==> (#[trigger] pre.shifts@[i]).valid(),
    ensures
        forall|i: int| 0 <= i < post.shifts@.len() ==> (#[trigger] post.shifts@[i]).valid(),
{
    if r is Ok {
        lemma_find_shift_index_some(pre.shifts@, shift_id);
        let pos = spec_find_shift_index(pre.shifts@, shift_id)->0;
        let s = pre.shifts@[pos];
        let target = if s.assignee() == Some(a@) {
            b
        } else {
            a
        };
        let tentative = pre.shifts@.update(pos, spec_assign(s, target));
        assert(post.shifts@ == tentative);
        assert forall|i: int| 0 <= i < post.shifts@.len() implies (
        #[trigger] post.shifts@[i]).valid() by {
            if i == pos {
                assert(post.shifts@[i].start == s.start && post.shifts@[i].end == s.end);
            } else {
                assert(post.shifts@[i] == pre.shifts@[i]);
            }
        }
    } else {
        assert(post.shifts@ == pre.shifts@);
        assert forall|i: int| 0 <= i < post.shifts@.len() implies (
        #[trigger] post.shifts@[i]).valid() by {
            assert(post.shifts@[i] == pre.shifts@[i]);
        }
    }
}

/// Cover preserves the shift-set invariant: on success the cover point lies
/// strictly inside the original interval, so both the truncated head and the
/// new tail are non-empty; on failure nothing changed.
pub proof fn lemma_cover_preserves_intervals(
    pre: Roster,
    post: Roster,
    r: Result<ShiftId, SchedError>,
    shift_id: Seq<char>,
    person: Seq<char>,
    from: i64,
    opts: AssignOptions,
)
    requires
        spec_cover_outcome(pre, post, r, shift_id, person, from, opts),
        forall|i: int| 0 <= i < pre.shifts@.len() ==> (#[trigger] pre.shifts@[i]).valid(),
    ensures
        forall|i: int| 0 <= i < post.shifts@.len() ==> (#[trigger] post.shifts@[i]).valid(),
{
    if r is Ok {
        lemma_find_shift_index_some(pre.shifts@, shift_id);
        let pos = spec_find_shift_index(pre.shifts@, shift_id)->0;
        let original = pre.shifts@[pos];
        let seg = post.shifts@[pos + 1];
        let truncated = pre.shifts@.update(pos, Shift { end: from, ..original });
        assert(post.shifts@ == truncated.insert(pos + 1, seg));
        truncated.insert_ensures(pos + 1, seg);
        assert(original.start < from < original.end);
        assert forall|i: int| 0 <= i < post.shifts@.len() implies (
        #[trigger] post.shifts@[i]).valid() by {
            if i < pos + 1 {
                assert(post.shifts@[i] == truncated[i]);
                if i != pos {
                    assert(truncated[i] == pre.shifts@[i]);
                }
            } else if i == pos + 1 {
                assert(seg.start == from && seg.end == original.end);
            } else {
                assert(post.shifts@[i] == truncated[i - 1]);
                assert(truncated[i - 1] == pre.shifts@[i - 1]);
            }
        }
    } else {
        assert(post.shifts@ == pre.shifts@);
        assert forall|i: int| 0 <= i < post.shifts@.len() implies (
        #[trigger] post.shifts@[i]).valid() by {
            assert(post.shifts@[i] == pre.shifts@[i]);
        }
    }
}

/// Splits the named shift at `from`, handing the tail `[from, end)` to
/// `person`: the original keeps its identity and assignee but now ends at
/// `from`; a new shift over the tail, with the same name and role, assigned
/// to `person`, is inserted immediately after it. Fails — leaving the roster
/// untouched — when the cover point is not strictly inside the shift, the
/// person is unknown or on vacation, a vacation window blocks the tail, or
/// the person is not eligible for the tail.
#[verifier::loop_isolation(false)]
pub(crate) fn cover_shift(
    roster: &mut Roster,
    shift_id: &ShiftId,
    from: i64,
    person: &PersonId,
    opts: AssignOptions,
) -> (r: Result<ShiftId, SchedError>)
    ensures
        spec_cover_outcome(*old(roster), *final(roster), r, shift_id@, person@, from, opts),
{
    let pos = match roster.find_shift_index(shift_id) {
        Some(p) => p,
        None => {
            return Err(SchedError::UnknownShift(shift_id.as_str().to_owned()));
        },
    };
    let n0 = roster.shifts.len();
    let original = roster.shifts[pos].clone();
    let cover = match roster.find_person_by_id(person) {
        Some(p) => p,
        None => {
            return Err(SchedError::UnknownPerson(person.as_str().to_owned()));
        },
    };
    if cover.on_vacation {
        return Err(SchedError::CoverInvalid("person on vacation"));
    }
    if from <= original.start {
        return Err(SchedError::CoverInvalid("cover point before shift start"));
    }
    if from >= original.end {
        return Err(SchedError::CoverInvalid("cover point after shift end"));
    }
    let mut new_segment = Shift {
        id: ShiftId::random(),
        name: original.name.clone(),
        start: from,
        end: original.end,
        role: match &original.role {
            Some(role) => Some(role.clone()),
            None => None,
        },
        assigned: None,
    };
    let m = cover.vacations.len();
    let mut j: usize = 0;
    while j < m
        invariant
            j <= m,
            m == cover.vacations@.len(),
            new_segment.start == from,
            new_segment.end == original.end,
            forall|t: int|
                0 <= t < j ==> !spec_vacation_blocks(
                    #[trigger] cover.vacations@[t],
                    from as int,
                    original.end as int,
                    opts.min_rest_hours as int,
                ),
        decreases m - j,
    {
        if vacation_blocks_shift(&cover.vacations[j], &new_segment, opts) {
            proof {
                assert(spec_vacation_blocks(
                    cover.vacations@[j as int],
                    from as int,
                    original.end as int,
                    opts.min_rest_hours as int,
                ));
                assert(spec_any_vacation_blocks(
                    *cover,
                    from as int,
                    original.end as int,
                    opts.min_rest_hours as int,
                ));
            }
            return Err(SchedError::CoverInvalid("person vacation conflicts"));
        }
        j += 1;
    }
    if !eligible_for(roster, person, &new_segment, opts, None) {
        return Err(SchedError::CoverInvalid("assignment constraints violated"));
    }
    let ghost pre = *roster;
    let s = vstd::std_specs::vec::vec_index_mut(&mut roster.shifts, pos);
    s.end = from;
    new_segment.assigned = Some(person.clone());
    let new_id = new_segment.id.clone();
    proof {
        assert(roster.shifts@ =~= pre.shifts@.update(
            pos as int,
            Shift { end: from, ..pre.shifts@[pos as int] },
        ));
    }
    proof {
        assert(pos < n0);
    }
    roster.shifts.insert(pos + 1, new_segment);
    Ok(new_id)
}

} // verus!
