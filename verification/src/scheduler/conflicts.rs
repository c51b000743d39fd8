//! Detection of overlap and rest violations across the assigned schedule.

use vstd::multiset::Multiset;
use vstd::prelude::*;

use crate::model::{Person, PersonId, Roster, Shift};
use crate::scheduler::types::{AssignOptions, Conflict, ConflictKind};
use crate::scheduler::util::{overlaps, sort_shifts_by_start, spec_overlaps, spec_sort_by_start};
use crate::timeline::{hours_between, whole_hours};

verus! {

/// The shifts of `shifts` assigned to `id`, keeping their current order.
pub open spec fn spec_shifts_of(shifts: Seq<Shift>, id: Seq<char>) -> Seq<Shift>
    decreases shifts.len(),
{
    if shifts.len() == 0 {
        Seq::empty()
    } else {
        let head = spec_shifts_of(shifts.drop_last(), id);
        if shifts.last().assignee() == Some(id) {
            head.push(shifts.last())
        } else {
            head
        }
    }
}

/// The conflicts reported for the pair `(ps[i], ps[j])`: an `Overlap` record
/// when the intervals intersect, and independently a `RestViolation` record
/// when the whole hours from `ps[i].end` to `ps[j].start` fall short of the
/// minimum rest; a pair can produce both.
pub open spec fn spec_pair_conflicts(
    ps: Seq<Shift>,
    person: PersonId,
    opts: AssignOptions,
    i: int,
    j: int,
) -> Seq<Conflict> {
    let a = ps[i];
    let b = ps[j];
    let ov: Seq<Conflict> = if spec_overlaps(
        a.start as int,
        a.end as int,
        b.start as int,
        b.end as int,
    ) {
        seq![Conflict { person: person, shift_a: a.id, shift_b: b.id, kind: ConflictKind::Overlap }]
    } else {
        Seq::empty()
    };
    let rest: Seq<Conflict> = if hours_between(b.start as int, a.end as int)
        < opts.min_rest_hours {
        seq![
            Conflict {
                person: person,
                shift_a: a.id,
                shift_b: b.id,
                kind: ConflictKind::RestViolation,
            },
        ]
    } else {
        Seq::empty()
    };
    ov + rest
}

/// Conflicts of the pairs `(i, j), (i, j + 1), ...` up to the end of `ps`.
pub open spec fn spec_row_conflicts(
    ps: Seq<Shift>,
    person: PersonId,
    opts: AssignOptions,
    i: int,
    j: int,
) -> Seq<Conflict>
    decreases ps.len() - j,
{
    if j < 0 || j >= ps.len() {
        Seq::empty()
    } else {
        spec_pair_conflicts(ps, person, opts, i, j) + spec_row_conflicts(
            ps,
            person,
            opts,
            i,
            j + 1,
        )
    }
}

/// Conflicts of every ordered pair `(i, j)` with `i < j` of `ps`, row by row.
pub open spec fn spec_rows_conflicts(
    ps: Seq<Shift>,
    person: PersonId,
    opts: AssignOptions,
    i: int,
) -> Seq<Conflict>
    decreases ps.len() - i,
{
    if i < 0 || i >= ps.len() {
        Seq::empty()
    } else {
        spec_row_conflicts(ps, person, opts, i, i + 1) + spec_rows_conflicts(
            ps,
            person,
            opts,
            i + 1,
        )
    }
}

/// One person's conflicts: their assigned shifts, stably sorted by start
/// time, scanned over every ordered pair.
pub open spec fn spec_person_conflicts(
    shifts: Seq<Shift>,
    p: Person,
    opts: AssignOptions,
) -> Seq<Conflict> {
    spec_rows_conflicts(spec_sort_by_start(spec_shifts_of(shifts, p.id@)), p.id, opts, 0)
}

/// Conflicts of the people from index `k` on, in roster order.
pub open spec fn spec_conflicts_from(
    shifts: Seq<Shift>,
    people: Seq<Person>,
    opts: AssignOptions,
    k: int,
) -> Seq<Conflict>
    decreases people.len() - k,
{
    if k < 0 || k >= people.len() {
        Seq::empty()
    } else {
        spec_person_conflicts(shifts, people[k], opts) + spec_conflicts_from(
            shifts,
            people,
            opts,
            k + 1,
        )
    }
}

/// Every conflict of the roster, person by person in roster order.
pub open spec fn spec_detect_conflicts(
    shifts: Seq<Shift>,
    people: Seq<Person>,
    opts: AssignOptions,
) -> Seq<Conflict> {
    spec_conflicts_from(shifts, people, opts, 0)
}

/// A conflict list holds an `Overlap` record naming `person`.
pub open spec fn spec_has_overlap_for(cs: Seq<Conflict>, person: PersonId) -> bool {
    exists|k: int|
        0 <= k < cs.len() && (#[trigger] cs[k]).kind is Overlap && cs[k].person == person
}

/// A row scan starting at or before an overlapping column reports the
/// overlap.
proof fn lemma_row_reports_overlap(
    ps: Seq<Shift>,
    person: PersonId,
    opts: AssignOptions,
    i: int,
    j0: int,
    j: int,
)
    requires
        0 <= i < j0 <= j < ps.len(),
        spec_overlaps(ps[i].start as int, ps[i].end as int, ps[j].start as int, ps[j].end as int),
    ensures
        spec_has_overlap_for(spec_row_conflicts(ps, person, opts, i, j0), person),
    decreases j - j0,
{
    let row = spec_row_conflicts(ps, person, opts, i, j0);
    let pair = spec_pair_conflicts(ps, person, opts, i, j0);
    let rest = spec_row_conflicts(ps, person, opts, i, j0 + 1);
    assert(row == pair + rest);
    if j == j0 {
        assert(pair[0].kind is Overlap && pair[0].person == person);
        assert(row[0] == pair[0]);
    } else {
        lemma_row_reports_overlap(ps, person, opts, i, j0 + 1, j);
        let k = choose|k: int|
            0 <= k < rest.len() && rest[k].kind is Overlap && rest[k].person == person;
        assert(row[pair.len() + k] == rest[k]);
    }
}

/// The pairwise scan reports every overlapping ordered pair.
proof fn lemma_rows_report_overlap(
    ps: Seq<Shift>,
    person: PersonId,
    opts: AssignOptions,
    i0: int,
    u: int,
    v: int,
)
    requires
        0 <= i0 <= u < v < ps.len(),
        spec_overlaps(ps[u].start as int, ps[u].end as int, ps[v].start as int, ps[v].end as int),
    ensures
        spec_has_overlap_for(spec_rows_conflicts(ps, person, opts, i0), person),
    decreases ps.len() - i0,
{
    let rows = spec_rows_conflicts(ps, person, opts, i0);
    let row = spec_row_conflicts(ps, person, opts, i0, i0 + 1);
    let rest = spec_rows_conflicts(ps, person, opts, i0 + 1);
    assert(rows == row + rest);
    if i0 == u {
        lemma_row_reports_overlap(ps, person, opts, u, u + 1, v);
        let k = choose|k: int|
            0 <= k < row.len() && row[k].kind is Overlap && row[k].person == person;
        assert(rows[k] == row[k]);
    } else {
        lemma_rows_report_overlap(ps, person, opts, i0 + 1, u, v);
        let k = choose|k: int|
            0 <= k < rest.len() && rest[k].kind is Overlap && rest[k].person == person;
        assert(rows[row.len() + k] == rest[k]);
    }
}

/// A shift assigned to `id` appears among that person's collected shifts.
proof fn lemma_shifts_of_member(shifts: Seq<Shift>, id: Seq<char>, i: int)
    requires
        0 <= i < shifts.len(),
        shifts[i].assignee() == Some(id),
    ensures
        exists|u: int|
            0 <= u < spec_shifts_of(shifts, id).len() && #[trigger] spec_shifts_of(shifts, id)[u]
                == shifts[i],
    decreases shifts.len(),
{
    let out = spec_shifts_of(shifts, id);
    let head = spec_shifts_of(shifts.drop_last(), id);
    if i == shifts.len() - 1 {
        assert(out[out.len() - 1] == shifts[i]);
    } else {
        lemma_shifts_of_member(shifts.drop_last(), id, i);
        let u = choose|u: int| 0 <= u < head.len() && head[u] == shifts.drop_last()[i];
        assert(out[u] == head[u]);
    }
}

/// Two distinct shift entries assigned to `id` appear, in order, among that
/// person's collected shifts.
proof fn lemma_shifts_of_pair(shifts: Seq<Shift>, id: Seq<char>, i: int, j: int)
    requires
        0 <= i < j < shifts.len(),
        shifts[i].assignee() == Some(id),
        shifts[j].assignee() == Some(id),
    ensures
        exists|u: int, v: int|
            0 <= u < v < spec_shifts_of(shifts, id).len() && #[trigger] spec_shifts_of(
                shifts,
                id,
            )[u] == shifts[i] && #[trigger] spec_shifts_of(shifts, id)[v] == shifts[j],
    decreases shifts.len(),
{
    let out = spec_shifts_of(shifts, id);
    let head = spec_shifts_of(shifts.drop_last(), id);
    if j == shifts.len() - 1 {
        lemma_shifts_of_member(shifts.drop_last(), id, i);
        let u = choose|u: int| 0 <= u < head.len() && head[u] == shifts.drop_last()[i];
        assert(out[u] == head[u]);
        assert(out[out.len() - 1] == shifts[j]);
        assert(0 <= u < out.len() - 1 && out[u] == shifts[i] && out[out.len() - 1] == shifts[j]);
    } else {
        lemma_shifts_of_pair(shifts.drop_last(), id, i, j);
        let (u, v) = choose|u: int, v: int|
            0 <= u < v < head.len() && head[u] == shifts.drop_last()[i] && head[v]
                == shifts.drop_last()[j];
        assert(out[u] == head[u] && out[v] == head[v]);
        assert(0 <= u < v < out.len() && out[u] == shifts[i] && out[v] == shifts[j]);
    }
}

/// Two entries of one value make its count at least two.
proof fn lemma_two_indices_count(s: Seq<Shift>, u: int, v: int)
    requires
        0 <= u < v < s.len(),
        s[u] == s[v],
    ensures
        s.to_multiset().count(s[u]) >= 2,
    decreases s.len(),
{
    s.to_multiset_ensures();
    let head = s.drop_last();
    head.to_multiset_ensures();
    assert(s =~= head.push(s[s.len() - 1]));
    assert(s.to_multiset() == head.push(s[s.len() - 1]).to_multiset());
    if v == s.len() - 1 {
        assert(head.contains(head[u]));
        assert(head.to_multiset().count(s[u]) > 0);
    } else {
        lemma_two_indices_count(head, u, v);
    }
}

/// A count of at least two yields two distinct entries of the value.
proof fn lemma_count_two_indices(s: Seq<Shift>, x: Shift)
    requires
        s.to_multiset().count(x) >= 2,
    ensures
        exists|u: int, v: int| 0 <= u < v < s.len() && #[trigger] s[u] == x && #[trigger] s[v]
            == x,
    decreases s.len(),
{
    s.to_multiset_ensures();
    if s.len() == 0 {
        assert(s.to_multiset() =~= Multiset::<Shift>::empty());
        assert(false);
    } else {
        let head = s.drop_last();
        head.to_multiset_ensures();
        assert(s =~= head.push(s[s.len() - 1]));
        assert(s.to_multiset() == head.push(s[s.len() - 1]).to_multiset());
        if s[s.len() - 1] == x {
            assert(head.to_multiset().count(x) >= 1);
            assert(head.contains(x));
            let u = choose|u: int| 0 <= u < head.len() && head[u] == x;
            assert(s[u] == x && s[s.len() - 1] == x && u < s.len() - 1);
        } else {
            assert(head.to_multiset().count(x) >= 2);
            lemma_count_two_indices(head, x);
            let (u, v) = choose|u: int, v: int|
                0 <= u < v < head.len() && head[u] == x && head[v] == x;
            assert(s[u] == x && s[v] == x);
        }
    }
}

/// The detector re-verifies the no-overlap invariant: whenever two distinct
/// shift entries assigned to a listed person intersect, the report holds an
/// `Overlap` record naming that person.
pub proof fn lemma_detect_reports_overlaps(
    shifts: Seq<Shift>,
    people: Seq<Person>,
    opts: AssignOptions,
    k: int,
    i: int,
    j: int,
)
    requires
        0 <= k < people.len(),
        0 <= i < j < shifts.len(),
        shifts[i].assignee() == Some(people[k].id@),
        shifts[j].assignee() == Some(people[k].id@),
        spec_overlaps(
            shifts[i].start as int,
            shifts[i].end as int,
            shifts[j].start as int,
            shifts[j].end as int,
        ),
    ensures
        spec_has_overlap_for(spec_detect_conflicts(shifts, people, opts), people[k].id),
{
    let p = people[k];
    let ps = spec_shifts_of(shifts, p.id@);
    let sorted = spec_sort_by_start(ps);
    let a = shifts[i];
    let b = shifts[j];
    lemma_shifts_of_pair(shifts, p.id@, i, j);
    let (u0, v0) = choose|u: int, v: int|
        0 <= u < v < ps.len() && ps[u] == shifts[i] && ps[v] == shifts[j];
    crate::scheduler::util::lemma_sort_by_start_multiset(ps);
    ps.to_multiset_ensures();
    sorted.to_multiset_ensures();
    if a == b {
        lemma_two_indices_count(ps, u0, v0);
        assert(sorted.to_multiset().count(a) >= 2);
        lemma_count_two_indices(sorted, a);
        let (u, v) = choose|u: int, v: int|
            0 <= u < v < sorted.len() && sorted[u] == a && sorted[v] == a;
        lemma_rows_report_overlap(sorted, p.id, opts, 0, u, v);
    } else {
        assert(ps.contains(a) && ps.contains(b));
        assert(ps.to_multiset().count(a) > 0 && ps.to_multiset().count(b) > 0);
        assert(sorted.to_multiset().count(a) > 0 && sorted.to_multiset().count(b) > 0);
        assert(sorted.contains(a) && sorted.contains(b));
        let u = choose|u: int| 0 <= u < sorted.len() && sorted[u] == a;
        let v = choose|v: int| 0 <= v < sorted.len() && sorted[v] == b;
        assert(u != v);
        if u < v {
            lemma_rows_report_overlap(sorted, p.id, opts, 0, u, v);
        } else {
            lemma_rows_report_overlap(sorted, p.id, opts, 0, v, u);
        }
    }
    assert(spec_has_overlap_for(spec_person_conflicts(shifts, p, opts), p.id));
    lemma_conflicts_from_contains(shifts, people, opts, 0, k);
}

/// A person's reported conflicts stand inside the whole scan's report.
proof fn lemma_conflicts_from_contains(
    shifts: Seq<Shift>,
    people: Seq<Person>,
    opts: AssignOptions,
    k0: int,
    k: int,
)
    requires
        0 <= k0 <= k < people.len(),
        spec_has_overlap_for(spec_person_conflicts(shifts, people[k], opts), people[k].id),
    ensures
        spec_has_overlap_for(spec_conflicts_from(shifts, people, opts, k0), people[k].id),
    decreases people.len() - k0,
{
    let all = spec_conflicts_from(shifts, people, opts, k0);
    let mine = spec_person_conflicts(shifts, people[k0], opts);
    let rest = spec_conflicts_from(shifts, people, opts, k0 + 1);
    assert(all == mine + rest);
    if k0 == k {
        let t = choose|t: int|
            0 <= t < mine.len() && mine[t].kind is Overlap && mine[t].person == people[k].id;
        assert(all[t] == mine[t]);
    } else {
        lemma_conflicts_from_contains(shifts, people, opts, k0 + 1, k);
        let t = choose|t: int|
            0 <= t < rest.len() && rest[t].kind is Overlap && rest[t].person == people[k].id;
        assert(all[mine.len() + t] == rest[t]);
    }
}

/// The shifts of `roster` assigned to `person`, in roster order, as clones.
fn collect_assigned(roster: &Roster, person: &PersonId) -> (r: Vec<Shift>)
    ensures
        r@ == spec_shifts_of(roster.shifts@, person@),
{
    let n = roster.shifts.len();
    let mut out: Vec<Shift> = Vec::new();
    let mut i: usize = 0;
    proof {
        assert(roster.shifts@.take(0int) =~= Seq::<Shift>::empty());
    }
    while i < n
        invariant
            i <= n,
            n == roster.shifts@.len(),
            out@ == spec_shifts_of(roster.shifts@.take(i as int), person@),
        decreases n - i,
    {
        proof {
            let prefix = roster.shifts@.take(i as int + 1);
            assert(prefix.drop_last() =~= roster.shifts@.take(i as int));
            assert(prefix.last() == roster.shifts@[i as int]);
        }
        let s = &roster.shifts[i];
        let take = match &s.assigned {
            Some(q) => q.eq(person),
            None => false,
        };
        if take {
            out.push(s.clone());
        }
        i += 1;
    }
    proof {
        assert(roster.shifts@.take(n as int) =~= roster.shifts@);
    }
    out
}

/// Scans the already-assigned schedule and reports all overlap and rest-gap
/// violations, person by person; read-only.
pub(crate) fn detect_conflicts(roster: &Roster, opts: AssignOptions) -> (r: Vec<Conflict>)
    ensures
        r@ == spec_detect_conflicts(roster.shifts@, roster.people@, opts),
{
    let mut out: Vec<Conflict> = Vec::new();
    let np = roster.people.len();
    let mut k: usize = 0;
    while k < np
        invariant
            k <= np,
            np == roster.people@.len(),
            spec_detect_conflicts(roster.shifts@, roster.people@, opts) == out@
                + spec_conflicts_from(roster.shifts@, roster.people@, opts, k as int),
        decreases np - k,
    {
        let p = &roster.people[k];
        let mut ps = collect_assigned(roster, &p.id);
        sort_shifts_by_start(&mut ps);
        let ghost sorted = ps@;
        let ghost base_person = out@;
        let m = ps.len();
        let mut i: usize = 0;
        while i < m
            invariant
                i <= m,
                m == ps@.len(),
                ps@ == sorted,
                p == &roster.people@[k as int],
                out@ + spec_rows_conflicts(sorted, p.id, opts, i as int) == base_person
                    + spec_rows_conflicts(sorted, p.id, opts, 0),
            decreases m - i,
        {
            let mut j: usize = i + 1;
            let ghost base_row = out@;
            while j < m
                invariant
                    i < j <= m,
                    m == ps@.len(),
                    ps@ == sorted,
                    p == &roster.people@[k as int],
                    out@ + spec_row_conflicts(sorted, p.id, opts, i as int, j as int) == base_row
                        + spec_row_conflicts(sorted, p.id, opts, i as int, i as int + 1),
                decreases m - j,
            {
                let ghost before_pair = out@;
                let a = &ps[i];
                let b = &ps[j];
                if overlaps(a.start, a.end, b.start, b.end) {
                    out.push(
                        Conflict {
                            person: p.id.clone(),
                            shift_a: a.id.clone(),
                            shift_b: b.id.clone(),
                            kind: ConflictKind::Overlap,
                        },
                    );
                }
                let rest_h = whole_hours(b.start, a.end);
                if rest_h < opts.min_rest_hours as i64 {
                    out.push(
                        Conflict {
                            person: p.id.clone(),
                            shift_a: a.id.clone(),
                            shift_b: b.id.clone(),
                            kind: ConflictKind::RestViolation,
                        },
                    );
                }
                proof {
                    assert(out@ =~= before_pair + spec_pair_conflicts(
                        sorted,
                        p.id,
                        opts,
                        i as int,
                        j as int,
                    ));
                }
                j += 1;
            }
            i += 1;
        }
        proof {
            assert(out@ + spec_rows_conflicts(sorted, p.id, opts, m as int) =~= out@);
            assert(spec_person_conflicts(roster.shifts@, roster.people@[k as int], opts)
                == spec_rows_conflicts(sorted, p.id, opts, 0));
        }
        k += 1;
    }
    proof {
        assert(out@ + spec_conflicts_from(roster.shifts@, roster.people@, opts, np as int)
            =~= out@);
    }
    out
}

} // verus!
