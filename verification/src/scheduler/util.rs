//! Time-window tests and the stable ordering of shifts by start time.

use vstd::prelude::*;

use crate::model::{Shift, VacationPeriod};
use crate::scheduler::types::AssignOptions;

verus! {

/// Half-open intervals `[a_start, a_end)` and `[b_start, b_end)` intersect;
/// touching endpoints do not count.
pub open spec fn spec_overlaps(a_start: int, a_end: int, b_start: int, b_end: int) -> bool {
    a_start < b_end && b_start < a_end
}

/// Overlap test on half-open UTC intervals. Touching endpoints
/// (`a_end == b_start`) are not overlapping.
pub fn overlaps(a_start: i64, a_end: i64, b_start: i64, b_end: i64) -> (r: bool)
    ensures
        r == spec_overlaps(a_start as int, a_end as int, b_start as int, b_end as int),
{
    a_start < b_end && b_start < a_end
}

/// Overlap is symmetric: whether two intervals intersect does not depend on
/// the order in which they are given.
pub proof fn lemma_overlaps_symmetric(a_start: int, a_end: int, b_start: int, b_end: int)
    ensures
        spec_overlaps(a_start, a_end, b_start, b_end) == spec_overlaps(
            b_start,
            b_end,
            a_start,
            a_end,
        ),
{
}

/// Touching intervals do not overlap: two half-open intervals that meet at a
/// shared endpoint are disjoint.
pub proof fn lemma_touching_intervals_disjoint(a_start: int, boundary: int, b_end: int)
    ensures
        !spec_overlaps(a_start, boundary, boundary, b_end),
{
}

/// The vacation `[v.start, v.end)`, expanded on both sides by `rest_hours`
/// hours, intersects the shift interval `[s_start, s_end)`.
pub open spec fn spec_vacation_blocks(
    v: VacationPeriod,
    s_start: int,
    s_end: int,
    rest_hours: int,
) -> bool {
    s_start < v.end + rest_hours * 3600 && v.start - rest_hours * 3600 < s_end
}

/// A vacation blocks a shift when the shift intersects the vacation expanded
/// on both sides by `min_rest_hours` (a person may not start or end a shift
/// too close to a vacation boundary).
pub fn vacation_blocks_shift(vac: &VacationPeriod, shift: &Shift, opts: AssignOptions) -> (r:
    bool)
    ensures
        r == spec_vacation_blocks(
            *vac,
            shift.start as int,
            shift.end as int,
            opts.min_rest_hours as int,
        ),
{
    let buffer: i64 = (opts.min_rest_hours as i64) * 3600;
    let vac_start: i128 = (vac.start as i128) - (buffer as i128);
    let vac_end: i128 = (vac.end as i128) + (buffer as i128);
    (shift.start as i128) < vac_end && vac_start < (shift.end as i128)
}

/// `sorted` with `x` inserted after every entry whose start is at or before
/// `x.start`: the insertion step of a stable sort by start time.
pub open spec fn spec_insert_by_start(sorted: Seq<Shift>, x: Shift) -> Seq<Shift>
    decreases sorted.len(),
{
    if sorted.len() == 0 {
        seq![x]
    } else if sorted.last().start <= x.start {
        sorted.push(x)
    } else {
        spec_insert_by_start(sorted.drop_last(), x).push(sorted.last())
    }
}

/// Stable sort of shifts by ascending start time: entries with equal starts
/// keep their relative order.
pub open spec fn spec_sort_by_start(shifts: Seq<Shift>) -> Seq<Shift>
    decreases shifts.len(),
{
    if shifts.len() == 0 {
        shifts
    } else {
        spec_insert_by_start(spec_sort_by_start(shifts.drop_last()), shifts.last())
    }
}

/// The entries stand in ascending order of start time.
pub open spec fn spec_sorted_by_start(s: Seq<Shift>) -> bool {
    forall|i: int, j: int|
        0 <= i < j < s.len() ==> (#[trigger] s[i]).start <= (#[trigger] s[j]).start
}

/// Inserting keeps exactly the old entries plus the new one.
proof fn lemma_insert_by_start_multiset(sorted: Seq<Shift>, x: Shift)
    ensures
        spec_insert_by_start(sorted, x).to_multiset() == sorted.to_multiset().insert(x),
    decreases sorted.len(),
{
    broadcast use vstd::multiset::group_multiset_axioms;

    if sorted.len() == 0 {
        Seq::<Shift>::empty().to_multiset_ensures();
        assert(sorted =~= Seq::<Shift>::empty());
        assert(seq![x] =~= Seq::<Shift>::empty().push(x));
        assert(Seq::<Shift>::empty().push(x).to_multiset() =~= Seq::<
            Shift,
        >::empty().to_multiset().insert(x));
    } else if sorted.last().start <= x.start {
        sorted.to_multiset_ensures();
        assert(sorted.push(x).to_multiset() =~= sorted.to_multiset().insert(x));
    } else {
        let head = sorted.drop_last();
        lemma_insert_by_start_multiset(head, x);
        let ins = spec_insert_by_start(head, x);
        ins.to_multiset_ensures();
        head.to_multiset_ensures();
        assert(ins.push(sorted.last()).to_multiset() =~= ins.to_multiset().insert(sorted.last()));
        let pushed = head.push(sorted.last());
        assert(sorted =~= pushed);
        assert(pushed.to_multiset() =~= head.to_multiset().insert(sorted.last()));
        assert(head.to_multiset().insert(x).insert(sorted.last()) =~= head.to_multiset().insert(
            sorted.last(),
        ).insert(x));
    }
}

/// Every entry of an insertion is the inserted shift or one of the old
/// entries.
proof fn lemma_insert_by_start_elements(sorted: Seq<Shift>, x: Shift, i: int)
    requires
        0 <= i < spec_insert_by_start(sorted, x).len(),
    ensures
        spec_insert_by_start(sorted, x)[i] == x || sorted.contains(
            spec_insert_by_start(sorted, x)[i],
        ),
    decreases sorted.len(),
{
    let ins = spec_insert_by_start(sorted, x);
    if sorted.len() == 0 {
    } else if sorted.last().start <= x.start {
        if i < sorted.len() {
            assert(ins[i] == sorted[i]);
            assert(sorted.contains(sorted[i]));
        }
    } else {
        let head = sorted.drop_last();
        let inner = spec_insert_by_start(head, x);
        if i == ins.len() - 1 {
            assert(ins[i] == sorted.last());
            assert(sorted.contains(sorted[sorted.len() - 1]));
        } else {
            lemma_insert_by_start_elements(head, x, i);
            assert(ins[i] == inner[i]);
            if inner[i] != x {
                let k = choose|k: int| 0 <= k < head.len() && head[k] == inner[i];
                assert(sorted[k] == head[k]);
                assert(sorted.contains(sorted[k]));
            }
        }
    }
}

/// Inserting into a sorted sequence keeps it sorted.
proof fn lemma_insert_by_start_sorted(sorted: Seq<Shift>, x: Shift)
    requires
        spec_sorted_by_start(sorted),
    ensures
        spec_sorted_by_start(spec_insert_by_start(sorted, x)),
    decreases sorted.len(),
{
    if sorted.len() == 0 {
    } else if sorted.last().start <= x.start {
        let out = sorted.push(x);
        assert forall|i: int, j: int| 0 <= i < j < out.len() implies (#[trigger] out[i]).start
            <= (#[trigger] out[j]).start by {
            if j == out.len() - 1 && i < j {
                assert(sorted[i].start <= sorted.last().start);
            }
        }
    } else {
        let head = sorted.drop_last();
        assert(spec_sorted_by_start(head));
        lemma_insert_by_start_sorted(head, x);
        let ins = spec_insert_by_start(head, x);
        let out = ins.push(sorted.last());
        assert forall|i: int, j: int| 0 <= i < j < out.len() implies (#[trigger] out[i]).start
            <= (#[trigger] out[j]).start by {
            if j == out.len() - 1 && i < j {
                lemma_insert_by_start_elements(head, x, i);
                if ins[i] == x {
                    assert(out[i].start <= sorted.last().start);
                } else {
                    let k = choose|k: int| 0 <= k < head.len() && head[k] == ins[i];
                    assert(head[k].start <= sorted.last().start);
                }
            }
        }
        assert(spec_insert_by_start(sorted, x) == out);
    }
}

/// The stable sort keeps exactly the entries it was given.
pub proof fn lemma_sort_by_start_multiset(shifts: Seq<Shift>)
    ensures
        spec_sort_by_start(shifts).to_multiset() == shifts.to_multiset(),
    decreases shifts.len(),
{
    if shifts.len() > 0 {
        let head = shifts.drop_last();
        lemma_sort_by_start_multiset(head);
        lemma_insert_by_start_multiset(spec_sort_by_start(head), shifts.last());
        head.to_multiset_ensures();
        let pushed = head.push(shifts.last());
        assert(shifts =~= pushed);
        assert(pushed.to_multiset() =~= head.to_multiset().insert(shifts.last()));
    }
}

/// The stable sort leaves the entries in ascending order of start time.
pub proof fn lemma_sort_by_start_sorted(shifts: Seq<Shift>)
    ensures
        spec_sorted_by_start(spec_sort_by_start(shifts)),
    decreases shifts.len(),
{
    if shifts.len() > 0 {
        lemma_sort_by_start_sorted(shifts.drop_last());
        lemma_insert_by_start_sorted(spec_sort_by_start(shifts.drop_last()), shifts.last());
    }
}

/// Inserting at the position found by scanning from the right (first slot
/// whose predecessor starts at or before `x.start`) realizes
/// `spec_insert_by_start`.
proof fn lemma_insert_by_start_at(sorted: Seq<Shift>, x: Shift, j: int)
    requires
        0 <= j <= sorted.len(),
        forall|k: int| j <= k < sorted.len() ==> (#[trigger] sorted[k]).start > x.start,
        j > 0 ==> sorted[j - 1].start <= x.start,
    ensures
        spec_insert_by_start(sorted, x) == sorted.subrange(0, j) + seq![x] + sorted.subrange(
            j,
            sorted.len() as int,
        ),
    decreases sorted.len(),
{
    let n = sorted.len() as int;
    if n == 0 {
        assert(spec_insert_by_start(sorted, x) =~= sorted.subrange(0, j) + seq![x]
            + sorted.subrange(j, n));
    } else if sorted.last().start <= x.start {
        assert(j == n);
        assert(spec_insert_by_start(sorted, x) =~= sorted.subrange(0, j) + seq![x]
            + sorted.subrange(j, n));
    } else {
        assert(j < n);
        let head = sorted.drop_last();
        assert(forall|k: int| j <= k < head.len() ==> (#[trigger] head[k]).start > x.start);
        lemma_insert_by_start_at(head, x, j);
        assert(spec_insert_by_start(sorted, x) == spec_insert_by_start(head, x).push(
            sorted.last(),
        ));
        assert(spec_insert_by_start(head, x).push(sorted.last()) =~= sorted.subrange(0, j)
            + seq![x] + sorted.subrange(j, n));
    }
}

/// Replaces `shifts` with the same entries stably sorted by start time.
pub fn sort_shifts_by_start(shifts: &mut Vec<Shift>)
    ensures
        final(shifts)@ == spec_sort_by_start(old(shifts)@),
{
    let n = shifts.len();
    let mut out: Vec<Shift> = Vec::new();
    let mut i: usize = 0;
    proof {
        assert(old(shifts)@.take(0int) =~= Seq::<Shift>::empty());
    }
    while i < n
        invariant
            i <= n,
            n == shifts@.len(),
            shifts@ == old(shifts)@,
            out@ == spec_sort_by_start(shifts@.take(i as int)),
        decreases n - i,
    {
        let x = shifts[i].clone();
        let mut j: usize = out.len();
        while j > 0 && out[j - 1].start > x.start
            invariant
                j <= out@.len(),
                forall|k: int| j <= k < out@.len() ==> (#[trigger] out@[k]).start > x.start,
            decreases j,
        {
            j -= 1;
        }
        let ghost before = out@;
        proof {
            lemma_insert_by_start_at(before, x, j as int);
        }
        out.insert(j, x);
        proof {
            assert(out@ =~= before.subrange(0, j as int) + seq![x] + before.subrange(
                j as int,
                before.len() as int,
            ));
            let prefix = shifts@.take(i as int + 1);
            assert(prefix.drop_last() =~= shifts@.take(i as int));
            assert(prefix.last() == shifts@[i as int]);
            assert(out@ == spec_insert_by_start(before, x));
            assert(out@ == spec_sort_by_start(prefix));
        }
        i += 1;
    }
    proof {
        assert(shifts@.take(n as int) =~= shifts@);
    }
    *shifts = out;
}

} // verus!
