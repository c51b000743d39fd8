//! Rotation templates: a recurrence pattern of slots, validated and expanded
//! into raw, unassigned shift records. Times of day are seconds from
//! midnight; dates are days since the Unix epoch. Persisting templates to
//! disk is the caller's.

use vstd::prelude::*;

use crate::io::{is_blank, spec_is_blank, spec_opt_text};
use crate::model::{Person, Role, Roster, Shift};
use crate::scheduler::util::{sort_shifts_by_start, spec_sort_by_start};
use crate::timefmt::{date_render, date_ymd_string};

verus! {

/// One recurring slot of a template: a role, a daily time window (seconds
/// from midnight; a window wrapping past midnight ends the next day), and the
/// days it applies to — weekdays `1..=7` (Monday first) or rotation-cycle
/// days counted from `8`.
#[derive(Debug, Clone)]
pub struct Slot {
    pub role: String,
    pub start_time: u32,
    pub end_time: u32,
    pub days: Vec<u8>,
    pub priority: u8,
}

/// Scheduling hints carried by a template.
#[derive(Debug, Clone)]
pub struct Rules {
    pub min_rest_hours: Option<u16>,
    pub max_consecutive_days: Option<u8>,
    pub allow_weekend_swap: bool,
}

/// A complete rotation template.
#[derive(Debug, Clone)]
pub struct Template {
    pub id: String,
    pub name: String,
    pub description: Option<String>,
    pub rotation_cycle_days: u16,
    pub slots: Vec<Slot>,
    pub rules: Option<Rules>,
}

/// What one slot must satisfy: a non-blank role, at least one day, and a
/// time window whose ends differ.
pub open spec fn spec_slot_check(s: Slot) -> Result<(), Seq<char>> {
    if spec_is_blank(s.role@) {
        Err("slot role cannot be empty"@)
    } else if s.days@.len() == 0 {
        Err("slot must define at least one day"@)
    } else if s.start_time == s.end_time {
        Err("slot start_time and end_time cannot be equal"@)
    } else {
        Ok(())
    }
}

/// The first failing slot's message, scanning from `k`.
pub open spec fn spec_slots_check(slots: Seq<Slot>, k: int) -> Result<(), Seq<char>>
    decreases slots.len() - k,
{
    if k < 0 || k >= slots.len() {
        Ok(())
    } else {
        match spec_slot_check(slots[k]) {
            Err(m) => Err(m),
            Ok(()) => spec_slots_check(slots, k + 1),
        }
    }
}

/// A slot's daily window as seconds from its day's midnight, the end pushed
/// into the next day when the window wraps.
pub open spec fn spec_slot_window(s: Slot) -> (int, int) {
    (s.start_time as int, if s.end_time <= s.start_time {
        s.end_time + 86400
    } else {
        s.end_time as int
    })
}

/// Two slots share a day and their daily windows intersect.
pub open spec fn spec_slot_overlap(a: Slot, b: Slot) -> bool {
    (exists|i: int, j: int|
        0 <= i < a.days@.len() && 0 <= j < b.days@.len() && #[trigger] a.days@[i]
            == #[trigger] b.days@[j]) && {
        let aw = spec_slot_window(a);
        let bw = spec_slot_window(b);
        !(aw.1 <= bw.0 || bw.1 <= aw.0)
    }
}

/// The overlap message for a pair of same-role slots.
pub open spec fn spec_overlap_msg(a: Slot, b: Slot) -> Seq<char> {
    "template contains overlapping slots for role "@ + a.role@ + " and "@ + b.role@
}

/// The first same-role overlapping pair `(i, j)` with `i < j`, scanning row
/// `i` from column `j`.
pub open spec fn spec_overlap_row(slots: Seq<Slot>, i: int, j: int) -> Result<(), Seq<char>>
    decreases slots.len() - j,
{
    if j < 0 || j >= slots.len() || !(0 <= i < j) {
        Ok(())
    } else {
        if slots[i].role@ == slots[j].role@ && spec_slot_overlap(slots[i], slots[j]) {
            Err(spec_overlap_msg(slots[i], slots[j]))
        } else {
            spec_overlap_row(slots, i, j + 1)
        }
    }
}

/// The first same-role overlapping pair over all rows from `i`.
pub open spec fn spec_overlap_scan(slots: Seq<Slot>, i: int) -> Result<(), Seq<char>>
    decreases slots.len() - i,
{
    if i < 0 || i >= slots.len() {
        Ok(())
    } else {
        match spec_overlap_row(slots, i, i + 1) {
            Err(m) => Err(m),
            Ok(()) => spec_overlap_scan(slots, i + 1),
        }
    }
}

/// What a whole template must satisfy: non-blank id and name, a positive
/// cycle length, at least one slot, each slot well-formed, and no two slots
/// of one role overlapping in time on a shared day.
pub open spec fn spec_template_check(t: Template) -> Result<(), Seq<char>> {
    if spec_is_blank(t.id@) {
        Err("template id cannot be empty"@)
    } else if spec_is_blank(t.name@) {
        Err("template name cannot be empty"@)
    } else if t.rotation_cycle_days == 0 {
        Err("rotation_cycle_days must be > 0"@)
    } else if t.slots@.len() == 0 {
        Err("template must contain at least one slot"@)
    } else {
        match spec_slots_check(t.slots@, 0) {
            Err(m) => Err(m),
            Ok(()) => spec_overlap_scan(t.slots@, 0),
        }
    }
}

/// Decides `spec_slot_overlap` for two slots.
fn slot_overlap(a: &Slot, b: &Slot) -> (r: bool)
    ensures
        r == spec_slot_overlap(*a, *b),
{
    let na = a.days.len();
    let nb = b.days.len();
    let mut shared = false;
    let mut i: usize = 0;
    while i < na
        invariant
            i <= na,
            na == a.days@.len(),
            nb == b.days@.len(),
            shared == exists|x: int, y: int|
                0 <= x < i && 0 <= y < b.days@.len() && #[trigger] a.days@[x]
                    == #[trigger] b.days@[y],
        decreases na - i,
    {
        let mut j: usize = 0;
        while j < nb
            invariant
                j <= nb,
                i < na,
                na == a.days@.len(),
                nb == b.days@.len(),
                shared == ((exists|x: int, y: int|
                    0 <= x < i && 0 <= y < b.days@.len() && #[trigger] a.days@[x]
                        == #[trigger] b.days@[y]) || (exists|y: int|
                    0 <= y < j && a.days@[i as int] == #[trigger] b.days@[y])),
            decreases nb - j,
        {
            if a.days[i] == b.days[j] {
                shared = true;
            }
            j += 1;
        }
        i += 1;
    }
    if !shared {
        return false;
    }
    let a_start: i64 = a.start_time as i64;
    let a_end: i64 = if a.end_time <= a.start_time {
        a.end_time as i64 + 86400
    } else {
        a.end_time as i64
    };
    let b_start: i64 = b.start_time as i64;
    let b_end: i64 = if b.end_time <= b.start_time {
        b.end_time as i64 + 86400
    } else {
        b.end_time as i64
    };
    !(a_end <= b_start || b_end <= a_start)
}

impl Slot {
    /// Checks the slot as `spec_slot_check` states it.
    fn validate(&self) -> (r: Result<(), String>)
        ensures
            match r {
                Ok(()) => spec_slot_check(*self) is Ok,
                Err(e) => spec_slot_check(*self) matches Err(m) && e@ == m,
            },
    {
        if is_blank(self.role.as_str()) {
            return Err("slot role cannot be empty".to_owned());
        }
        if self.days.len() == 0 {
            return Err("slot must define at least one day".to_owned());
        }
        if self.start_time == self.end_time {
            return Err("slot start_time and end_time cannot be equal".to_owned());
        }
        Ok(())
    }
}

impl Template {
    /// Checks the whole template as `spec_template_check` states it: id,
    /// name, cycle length, each slot, and pairwise same-role overlaps.
    #[verifier::loop_isolation(false)]
    pub fn validate(&self) -> (r: Result<(), String>)
        ensures
            match r {
                Ok(()) => spec_template_check(*self) is Ok,
                Err(e) => spec_template_check(*self) matches Err(m) && e@ == m,
            },
    {
        if is_blank(self.id.as_str()) {
            return Err("template id cannot be empty".to_owned());
        }
        if is_blank(self.name.as_str()) {
            return Err("template name cannot be empty".to_owned());
        }
        if self.rotation_cycle_days == 0 {
            return Err("rotation_cycle_days must be > 0".to_owned());
        }
        let n = self.slots.len();
        if n == 0 {
            return Err("template must contain at least one slot".to_owned());
        }
        let mut k: usize = 0;
        while k < n
            invariant
                k <= n,
                n == self.slots@.len(),
                spec_slots_check(self.slots@, k as int) == spec_slots_check(self.slots@, 0),
            decreases n - k,
        {
            match self.slots[k].validate() {
                Ok(()) => {},
                Err(e) => {
                    return Err(e);
                },
            }
            k += 1;
        }
        let mut i: usize = 0;
        while i < n
            invariant
                i <= n,
                n == self.slots@.len(),
                spec_slots_check(self.slots@, 0) is Ok,
                spec_overlap_scan(self.slots@, i as int) == spec_overlap_scan(self.slots@, 0),
            decreases n - i,
        {
            let mut j: usize = i + 1;
            while j < n
                invariant
                    i < j <= n,
                    n == self.slots@.len(),
                    spec_slots_check(self.slots@, 0) is Ok,
                    spec_overlap_scan(self.slots@, i as int) == spec_overlap_scan(
                        self.slots@,
                        0,
                    ),
                    spec_overlap_row(self.slots@, i as int, j as int) == spec_overlap_row(
                        self.slots@,
                        i as int,
                        i as int + 1,
                    ),
                decreases n - j,
            {
                let a = &self.slots[i];
                let b = &self.slots[j];
                if a.role == b.role {
                    if slot_overlap(a, b) {
                        let msg = "template contains overlapping slots for role ".to_owned()
                            .concat(a.role.as_str()).concat(" and ").concat(b.role.as_str());
                        return Err(msg);
                    }
                }
                j += 1;
            }
            i += 1;
        }
        Ok(())
    }
}

/// ISO weekday number (Monday is 1) of the day `d` days after the Unix
/// epoch, which fell on a Thursday.
pub open spec fn spec_weekday(d: int) -> int {
    (d + 3) % 7 + 1
}

/// Weekday of a day number within the supported calendar span.
fn weekday_of(d: i64) -> (r: u8)
    requires
        -90_000_000 <= d <= 90_000_000,
    ensures
        r == spec_weekday(d as int),
        1 <= r <= 7,
{
    let shifted: u64 = (d + 350_000_003) as u64;
    proof {
        vstd::arithmetic::div_mod::lemma_mod_multiples_vanish(50_000_000, d as int + 3, 7);
    }
    (shifted % 7 + 1) as u8
}

/// Whether a slot applies on a given day: a day entry up to 7 names the ISO
/// weekday; a larger entry names a day of the rotation cycle, counted from
/// the cycle's start as day `cycle_day + 1` (reduced to a byte as the entry
/// is).
pub open spec fn spec_slot_matches_day(
    s: Slot,
    weekday: int,
    cycle_day: int,
    cycle_len: int,
) -> bool {
    exists|k: int|
        0 <= k < s.days@.len() && {
            let dv = #[trigger] s.days@[k];
            if dv <= 7 {
                dv == weekday
            } else {
                (cycle_day % cycle_len + 1) % 256 == dv
            }
        }
}

/// Decides `spec_slot_matches_day`.
fn slot_matches_day(s: &Slot, weekday: u8, cycle_day: i64, cycle_len: u16) -> (r: bool)
    requires
        0 <= cycle_day,
        cycle_len > 0,
    ensures
        r == spec_slot_matches_day(*s, weekday as int, cycle_day as int, cycle_len as int),
{
    let rel: u64 = ((cycle_day as u64) % (cycle_len as u64) + 1) % 256;
    let n = s.days.len();
    let mut k: usize = 0;
    while k < n
        invariant
            k <= n,
            n == s.days@.len(),
            rel == ((cycle_day as int) % (cycle_len as int) + 1) % 256,
            forall|x: int|
                0 <= x < k ==> {
                    let dv = #[trigger] s.days@[x];
                    !(if dv <= 7 {
                        dv == weekday as int
                    } else {
                        (cycle_day as int % (cycle_len as int) + 1) % 256 == dv
                    })
                },
        decreases n - k,
    {
        let dv = s.days[k];
        let hit = if dv <= 7 {
            dv == weekday
        } else {
            rel == dv as u64
        };
        if hit {
            return true;
        }
        k += 1;
    }
    false
}

/// The name a generated shift carries: the slot's role, a space, and the
/// `YYYY-MM-DD` text of its day.
pub open spec fn spec_gen_name(role: Seq<char>, d: int) -> Seq<char> {
    role + " "@ + spec_opt_text(date_render(d * 86400))
}

/// The instant a slot starts on day `d`, in UTC seconds.
pub open spec fn spec_slot_start_at(d: int, s: Slot) -> int {
    d * 86400 + s.start_time
}

/// The instant a slot ends on day `d`: the same day, or the next when the
/// window wraps past midnight.
pub open spec fn spec_slot_end_at(d: int, s: Slot) -> int {
    if s.end_time <= s.start_time {
        (d + 1) * 86400 + s.end_time
    } else {
        d * 86400 + s.end_time
    }
}

/// The records generated on day `d` from the slots of `t` starting at index
/// `j`: name, interval, and role text of each slot that applies on `d`.
pub open spec fn spec_day_slots(t: Template, start_day: int, d: int, j: int) -> Seq<
    (Seq<char>, int, int, Seq<char>),
>
    decreases t.slots@.len() - j,
{
    if j < 0 || j >= t.slots@.len() {
        Seq::empty()
    } else {
        let slot = t.slots@[j];
        let head: Seq<(Seq<char>, int, int, Seq<char>)> = if spec_slot_matches_day(
            slot,
            spec_weekday(d),
            (d - start_day) % (t.rotation_cycle_days as int),
            t.rotation_cycle_days as int,
        ) {
            seq![
                (
                    spec_gen_name(slot.role@, d),
                    spec_slot_start_at(d, slot),
                    spec_slot_end_at(d, slot),
                    slot.role@,
                ),
            ]
        } else {
            Seq::empty()
        };
        head + spec_day_slots(t, start_day, d, j + 1)
    }
}

/// The records generated for the days `d..=end_day`.
pub open spec fn spec_gen_days(t: Template, start_day: int, end_day: int, d: int) -> Seq<
    (Seq<char>, int, int, Seq<char>),
>
    decreases end_day + 1 - d,
{
    if d > end_day || d < start_day {
        Seq::empty()
    } else {
        spec_day_slots(t, start_day, d, 0) + spec_gen_days(t, start_day, end_day, d + 1)
    }
}

/// The role text a generated shift carries; empty for shapes the generator
/// never produces.
pub open spec fn spec_role_text(r: Option<Role>) -> Seq<char> {
    match r {
        Some(Role::Custom(t)) => t@,
        _ => Seq::empty(),
    }
}

/// Each shift reduced to its generated record: name, interval, role text.
pub open spec fn spec_projected(v: Seq<Shift>) -> Seq<(Seq<char>, int, int, Seq<char>)> {
    Seq::new(v.len(), |i: int| (v[i].name@, v[i].start as int, v[i].end as int, spec_role_text(v[i].role)))
}

/// The shape every generated shift has: unassigned, with a custom role tag.
pub open spec fn spec_gen_shift_shape(s: Shift) -> bool {
    s.assigned is None && (s.role matches Some(Role::Custom(_)))
}

/// Expands a template over the days `start_day..=end_day` (days since the
/// Unix epoch) into a roster of unassigned shifts, one per applying slot per
/// day, named `role YYYY-MM-DD`, sorted by start time. The `rules` hints are
/// carried by callers and play no part here. Rejects `end_day < start_day`.
#[verifier::loop_isolation(false)]
pub fn generate_roster(
    template: &Template,
    start_day: i64,
    end_day: i64,
    rules: Option<Rules>,
) -> (r: Result<Roster, String>)
    requires
        template.rotation_cycle_days > 0,
        -90_000_000 <= start_day <= 90_000_000,
        -90_000_000 <= end_day <= 90_000_000,
        forall|k: int|
            0 <= k < template.slots@.len() ==> (#[trigger] template.slots@[k]).start_time < 86400
                && template.slots@[k].end_time < 86400,
    ensures
        end_day < start_day ==> (r matches Err(e) && e@ == "end date must be after start date"@),
        end_day >= start_day ==> (r matches Ok(ro) && {
            &&& ro.people@ == Seq::<Person>::empty()
            &&& exists|pre: Seq<Shift>|
                {
                    &&& #[trigger] spec_projected(pre) == spec_gen_days(
                        *template,
                        start_day as int,
                        end_day as int,
                        start_day as int,
                    )
                    &&& (forall|x: int| 0 <= x < pre.len() ==> spec_gen_shift_shape(
                        #[trigger] pre[x],
                    ))
                    &&& ro.shifts@ == spec_sort_by_start(pre)
                }
        }),
{
    let _ = rules;
    if end_day < start_day {
        return Err("end date must be after start date".to_owned());
    }
    let mut shifts: Vec<Shift> = Vec::new();
    let mut current: i64 = start_day;
    proof {
        assert(spec_projected(shifts@) =~= Seq::<(Seq<char>, int, int, Seq<char>)>::empty());
    }
    while current <= end_day
        invariant
            start_day <= current <= end_day + 1,
            spec_projected(shifts@) + spec_gen_days(
                *template,
                start_day as int,
                end_day as int,
                current as int,
            ) =~= spec_gen_days(
                *template,
                start_day as int,
                end_day as int,
                start_day as int,
            ),
            forall|x: int| 0 <= x < shifts@.len() ==> spec_gen_shift_shape(#[trigger] shifts@[x]),
        decreases end_day + 1 - current,
    {
        let wd = weekday_of(current);
        let cycle_day: i64 = (((current - start_day) as u64) % (
        template.rotation_cycle_days as u64)) as i64;
        let ns = template.slots.len();
        let mut j: usize = 0;
        while j < ns
            invariant
                j <= ns,
                ns == template.slots@.len(),
                start_day <= current <= end_day,
                wd == spec_weekday(current as int),
                cycle_day == (current - start_day) as int % (template.rotation_cycle_days as int),
                0 <= cycle_day,
                spec_projected(shifts@) + (spec_day_slots(
                    *template,
                    start_day as int,
                    current as int,
                    j as int,
                ) + spec_gen_days(
                    *template,
                    start_day as int,
                    end_day as int,
                    current as int + 1,
                )) =~= spec_gen_days(
                    *template,
                    start_day as int,
                    end_day as int,
                    start_day as int,
                ),
                forall|x: int|
                    0 <= x < shifts@.len() ==> spec_gen_shift_shape(#[trigger] shifts@[x]),
            decreases ns - j,
        {
            let slot = &template.slots[j];
            if slot_matches_day(slot, wd, cycle_day, template.rotation_cycle_days) {
                let secs: i64 = current * 86400;
                let date_text = match date_ymd_string(secs) {
                    Some(t) => t,
                    None => {
                        return Err("date overflow".to_owned());
                    },
                };
                let name = slot.role.clone().concat(" ").concat(date_text.as_str());
                let start_at: i64 = secs + slot.start_time as i64;
                let end_at: i64 = if slot.end_time <= slot.start_time {
                    secs + 86400 + slot.end_time as i64
                } else {
                    secs + slot.end_time as i64
                };
                let ghost before = shifts@;
                match Shift::new(name, start_at, end_at, Some(Role::Custom(slot.role.clone()))) {
                    Ok(s) => {
                        shifts.push(s);
                        proof {
                            assert(spec_projected(shifts@) =~= spec_projected(before).push(
                                (
                                    s.name@,
                                    s.start as int,
                                    s.end as int,
                                    spec_role_text(s.role),
                                ),
                            ));
                        }
                    },
                    Err(_) => {
                        return Err("date overflow".to_owned());
                    },
                }
            }
            j += 1;
        }
        current += 1;
    }
    let ghost pre_sort = shifts@;
    proof {
        assert(spec_projected(pre_sort) =~= spec_gen_days(
            *template,
            start_day as int,
            end_day as int,
            start_day as int,
        ));
    }
    sort_shifts_by_start(&mut shifts);
    let people: Vec<Person> = Vec::new();
    proof {
        assert(people@ =~= Seq::<Person>::empty());
    }
    Ok(Roster { people, shifts })
}

/// Names the directory templates are kept in.
#[derive(Debug, Clone)]
pub struct TemplateStore {
    base_dir: String,
}

impl TemplateStore {
    /// The directory templates live under.
    pub closed spec fn spec_base_dir(&self) -> Seq<char> {
        self.base_dir@
    }

    /// Remembers the template directory; nothing is touched on disk.
    pub fn new(dir: &str) -> (r: Self)
        ensures
            r.spec_base_dir() == dir@,
    {
        TemplateStore { base_dir: dir.to_owned() }
    }

    pub fn base_dir(&self) -> (r: &str)
        ensures
            r@ == self.spec_base_dir(),
    {
        self.base_dir.as_str()
    }
}

} // verus!
