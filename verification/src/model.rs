//! Core entities: people, vacation periods, shifts, and the roster aggregate.
//!
//! Every instant is UTC, in whole seconds since the Unix epoch. Shift and
//! vacation intervals are half-open `[start, end)` with `end > start`.

use vstd::prelude::*;

use crate::timeline::minutes_between;

verus! {

/// Relies on `uuid::Uuid::new_v4` (a random identifier) rendered through
/// `Uuid::to_string`; nothing is assumed of the text that comes back.
#[verifier::external_body]
fn fresh_id_string() -> String {
    uuid::Uuid::new_v4().to_string()
}

/// Strong identifier for a `Person`.
#[derive(Debug, Eq, Hash)]
pub struct PersonId(String);

impl View for PersonId {
    type V = Seq<char>;

    closed spec fn view(&self) -> Seq<char> {
        self.0@
    }
}

impl PersonId {
    pub fn new(s: &str) -> (r: Self)
        ensures
            r@ == s@,
    {
        PersonId(s.to_owned())
    }

    /// A fresh identifier; no two calls are promised distinct results, so all
    /// reasoning goes by the identifier's text alone.
    pub fn random() -> Self {
        PersonId(fresh_id_string())
    }

    pub fn as_str(&self) -> (r: &str)
        ensures
            r@ == self@,
    {
        self.0.as_str()
    }
}

impl Clone for PersonId {
    fn clone(&self) -> (r: Self)
        ensures
            r == *self,
    {
        PersonId(self.0.clone())
    }
}

impl PartialEq for PersonId {
    fn eq(&self, other: &Self) -> (r: bool)
        ensures
            r == (self@ == other@),
    {
        self.0 == other.0
    }
}

impl vstd::std_specs::cmp::PartialEqSpecImpl for PersonId {
    open spec fn obeys_eq_spec() -> bool {
        true
    }

    open spec fn eq_spec(&self, other: &Self) -> bool {
        self@ == other@
    }
}

/// Strong identifier for a `Shift`.
#[derive(Debug, Eq, Hash)]
pub struct ShiftId(String);

impl View for ShiftId {
    type V = Seq<char>;

    closed spec fn view(&self) -> Seq<char> {
        self.0@
    }
}

impl ShiftId {
    pub fn new(s: &str) -> (r: Self)
        ensures
            r@ == s@,
    {
        ShiftId(s.to_owned())
    }

    /// A fresh identifier; see `PersonId::random`.
    pub fn random() -> Self {
        ShiftId(fresh_id_string())
    }

    pub fn as_str(&self) -> (r: &str)
        ensures
            r@ == self@,
    {
        self.0.as_str()
    }
}

impl Clone for ShiftId {
    fn clone(&self) -> (r: Self)
        ensures
            r == *self,
    {
        ShiftId(self.0.clone())
    }
}

impl PartialEq for ShiftId {
    fn eq(&self, other: &Self) -> (r: bool)
        ensures
            r == (self@ == other@),
    {
        self.0 == other.0
    }
}

impl vstd::std_specs::cmp::PartialEqSpecImpl for ShiftId {
    open spec fn obeys_eq_spec() -> bool {
        true
    }

    open spec fn eq_spec(&self, other: &Self) -> bool {
        self@ == other@
    }
}

/// A person's vacation period, a half-open UTC interval `[start, end)`.
#[derive(Debug, Clone, Copy)]
pub struct VacationPeriod {
    pub start: i64,
    pub end: i64,
}

impl VacationPeriod {
    pub open spec fn valid(self) -> bool {
        self.end > self.start
    }

    /// Builds a period, rejecting an empty or reversed interval.
    pub fn new(start: i64, end: i64) -> (r: Result<Self, String>)
        ensures
            end > start ==> r == Ok::<VacationPeriod, String>(VacationPeriod { start, end }),
            end <= start ==> (r matches Err(e) && e@ == "vacation end must be after start"@),
    {
        if end <= start {
            return Err("vacation end must be after start".to_owned());
        }
        Ok(VacationPeriod { start, end })
    }
}

/// A member of the on-call rotation.
#[derive(Debug, Clone)]
pub struct Person {
    pub id: PersonId,
    pub handle: String,
    pub display_name: String,
    pub on_vacation: bool,
    pub vacations: Vec<VacationPeriod>,
}

impl Person {
    pub fn new(handle: &str, display_name: &str) -> (r: Self)
        ensures
            r.handle@ == handle@,
            r.display_name@ == display_name@,
            !r.on_vacation,
            r.vacations@ == Seq::<VacationPeriod>::empty(),
    {
        let vacations: Vec<VacationPeriod> = Vec::new();
        proof {
            assert(vacations@ =~= Seq::<VacationPeriod>::empty());
        }
        Person {
            id: PersonId::random(),
            handle: handle.to_owned(),
            display_name: display_name.to_owned(),
            on_vacation: false,
            vacations,
        }
    }
}

/// Optional role tag on a shift.
#[derive(Debug)]
pub enum Role {
    Primary,
    Secondary,
    Custom(String),
}

impl Clone for Role {
    fn clone(&self) -> (r: Self)
        ensures
            r == *self,
    {
        match self {
            Role::Primary => Role::Primary,
            Role::Secondary => Role::Secondary,
            Role::Custom(s) => Role::Custom(s.clone()),
        }
    }
}

/// An on-call duty slot `[start, end)`, optionally assigned to one person.
#[derive(Debug)]
pub struct Shift {
    pub id: ShiftId,
    pub name: String,
    pub start: i64,
    pub end: i64,
    pub role: Option<Role>,
    pub assigned: Option<PersonId>,
}

impl Shift {
    pub open spec fn valid(self) -> bool {
        self.end > self.start
    }

    /// The identifier text of the assignee, if any; assignment is compared by
    /// this text throughout.
    pub open spec fn assignee(self) -> Option<Seq<char>> {
        match self.assigned {
            Some(p) => Some(p@),
            None => None,
        }
    }

    /// Creates an unassigned shift, rejecting `end <= start`.
    pub fn new(name: String, start: i64, end: i64, role: Option<Role>) -> (r: Result<
        Self,
        String,
    >)
        ensures
            end > start ==> (r matches Ok(s) && s.name == name && s.start == start && s.end == end
                && s.role == role && s.assigned is None),
            end <= start ==> (r matches Err(e) && e@ == "end must be strictly after start"@),
    {
        if end <= start {
            return Err("end must be strictly after start".to_owned());
        }
        Ok(
            Shift {
                id: ShiftId::random(),
                name,
                start,
                end,
                role,
                assigned: None,
            },
        )
    }

    /// Length of the shift in whole minutes, truncating toward zero.
    pub fn duration_minutes(&self) -> (r: i64)
        ensures
            r == minutes_between(self.end as int, self.start as int),
    {
        crate::timeline::whole_minutes(self.end, self.start)
    }
}

impl Clone for Shift {
    fn clone(&self) -> (r: Self)
        ensures
            r == *self,
    {
        Shift {
            id: self.id.clone(),
            name: self.name.clone(),
            start: self.start,
            end: self.end,
            role: match &self.role {
                Some(role) => Some(role.clone()),
                None => None,
            },
            assigned: match &self.assigned {
                Some(p) => Some(p.clone()),
                None => None,
            },
        }
    }
}

/// First person of `people` whose identifier text is `id`, if any.
pub open spec fn spec_find_person_by_id(people: Seq<Person>, id: Seq<char>) -> Option<Person>
    decreases people.len(),
{
    if people.len() == 0 {
        None
    } else if people[0].id@ == id {
        Some(people[0])
    } else {
        spec_find_person_by_id(people.drop_first(), id)
    }
}

/// First person of `people` whose handle is `handle`, if any.
pub open spec fn spec_find_person_by_handle(people: Seq<Person>, handle: Seq<char>) -> Option<
    Person,
>
    decreases people.len(),
{
    if people.len() == 0 {
        None
    } else if people[0].handle@ == handle {
        Some(people[0])
    } else {
        spec_find_person_by_handle(people.drop_first(), handle)
    }
}

/// Index of the first shift of `shifts` whose identifier text is `id`.
pub open spec fn spec_find_shift_index(shifts: Seq<Shift>, id: Seq<char>) -> Option<int>
    decreases shifts.len(),
{
    if shifts.len() == 0 {
        None
    } else if shifts[0].id@ == id {
        Some(0int)
    } else {
        match spec_find_shift_index(shifts.drop_first(), id) {
            Some(i) => Some(i + 1),
            None => None,
        }
    }
}

/// A found shift index is in range and names the sought shift.
pub proof fn lemma_find_shift_index_some(shifts: Seq<Shift>, id: Seq<char>)
    ensures
        match spec_find_shift_index(shifts, id) {
            Some(i) => 0 <= i < shifts.len() && shifts[i].id@ == id,
            None => true,
        },
    decreases shifts.len(),
{
    if shifts.len() > 0 && shifts[0].id@ != id {
        lemma_find_shift_index_some(shifts.drop_first(), id);
    }
}

/// Index of the first person of `people` whose identifier text is `id`.
pub open spec fn spec_find_person_index(people: Seq<Person>, id: Seq<char>) -> Option<int>
    decreases people.len(),
{
    if people.len() == 0 {
        None
    } else if people[0].id@ == id {
        Some(0int)
    } else {
        match spec_find_person_index(people.drop_first(), id) {
            Some(i) => Some(i + 1),
            None => None,
        }
    }
}

/// The aggregate the engine operates on: insertion-ordered people and shifts.
#[derive(Debug, Clone)]
pub struct Roster {
    pub people: Vec<Person>,
    pub shifts: Vec<Shift>,
}

impl Default for Roster {
    fn default() -> (r: Self)
        ensures
            r.people@ == Seq::<Person>::empty(),
            r.shifts@ == Seq::<Shift>::empty(),
    {
        let people: Vec<Person> = Vec::new();
        let shifts: Vec<Shift> = Vec::new();
        proof {
            assert(people@ =~= Seq::<Person>::empty());
            assert(shifts@ =~= Seq::<Shift>::empty());
        }
        Roster { people, shifts }
    }
}

impl Roster {
    /// All shifts describe non-empty intervals; what every operation of the
    /// engine preserves.
    pub open spec fn shifts_valid(self) -> bool {
        forall|i: int| 0 <= i < self.shifts@.len() ==> (#[trigger] self.shifts@[i]).valid()
    }

    pub fn find_person_by_handle(&self, handle: &str) -> (r: Option<&Person>)
        ensures
            match r {
                Some(p) => spec_find_person_by_handle(self.people@, handle@) == Some(*p),
                None => spec_find_person_by_handle(self.people@, handle@) is None,
            },
    {
        let sought = handle.to_owned();
        let n = self.people.len();
        let mut i: usize = 0;
        proof {
            assert(self.people@.skip(0int) =~= self.people@);
        }
        while i < n
            invariant
                i <= n,
                n == self.people@.len(),
                sought@ == handle@,
                spec_find_person_by_handle(self.people@.skip(i as int), handle@)
                    == spec_find_person_by_handle(self.people@, handle@),
            decreases n - i,
        {
            proof {
                assert(self.people@.skip(i as int).drop_first() =~= self.people@.skip(i as int + 1));
                assert(self.people@.skip(i as int)[0] == self.people@[i as int]);
            }
            if self.people[i].handle == sought {
                return Some(&self.people[i]);
            }
            i += 1;
        }
        proof {
            assert(self.people@.skip(n as int) =~= Seq::<Person>::empty());
        }
        None
    }

    pub fn find_person_by_id(&self, id: &PersonId) -> (r: Option<&Person>)
        ensures
            match r {
                Some(p) => spec_find_person_by_id(self.people@, id@) == Some(*p),
                None => spec_find_person_by_id(self.people@, id@) is None,
            },
    {
        let n = self.people.len();
        let mut i: usize = 0;
        proof {
            assert(self.people@.skip(0int) =~= self.people@);
        }
        while i < n
            invariant
                i <= n,
                n == self.people@.len(),
                spec_find_person_by_id(self.people@.skip(i as int), id@) == spec_find_person_by_id(
                    self.people@,
                    id@,
                ),
            decreases n - i,
        {
            proof {
                assert(self.people@.skip(i as int).drop_first() =~= self.people@.skip(i as int + 1));
                assert(self.people@.skip(i as int)[0] == self.people@[i as int]);
            }
            if self.people[i].id.eq(id) {
                return Some(&self.people[i]);
            }
            i += 1;
        }
        proof {
            assert(self.people@.skip(n as int) =~= Seq::<Person>::empty());
        }
        None
    }

    /// Index of the first person whose identifier text is `id@`, if any.
    fn find_person_index(&self, id: &PersonId) -> (r: Option<usize>)
        ensures
            match r {
                Some(i) => spec_find_person_index(self.people@, id@) == Some(i as int)
                    && i < self.people@.len() && self.people@[i as int].id@ == id@,
                None => spec_find_person_index(self.people@, id@) is None,
            },
    {
        let n = self.people.len();
        let mut i: usize = 0;
        proof {
            assert(self.people@.skip(0int) =~= self.people@);
        }
        while i < n
            invariant
                i <= n,
                n == self.people@.len(),
                match spec_find_person_index(self.people@.skip(i as int), id@) {
                    Some(j) => spec_find_person_index(self.people@, id@) == Some(j + i),
                    None => spec_find_person_index(self.people@, id@) is None,
                },
            decreases n - i,
        {
            proof {
                assert(self.people@.skip(i as int).drop_first() =~= self.people@.skip(i as int + 1));
                assert(self.people@.skip(i as int)[0] == self.people@[i as int]);
            }
            if self.people[i].id.eq(id) {
                return Some(i);
            }
            i += 1;
        }
        proof {
            assert(self.people@.skip(n as int) =~= Seq::<Person>::empty());
        }
        None
    }

    pub fn find_person_mut_by_id(&mut self, id: &PersonId) -> (r: Option<&mut Person>)
        ensures
            match r {
                Some(p) => {
                    &&& spec_find_person_index(old(self).people@, id@) matches Some(i)
                        && old(self).people@[i] == *p && final(self).people@ == old(
                        self,
                    ).people@.update(i, *final(p))
                    &&& final(self).shifts == old(self).shifts
                },
                None => {
                    &&& spec_find_person_index(old(self).people@, id@) is None
                    &&& *final(self) == *old(self)
                },
            },
    {
        match self.find_person_index(id) {
            Some(i) => Some(vstd::std_specs::vec::vec_index_mut(&mut self.people, i)),
            None => None,
        }
    }

    /// Index of the first shift whose identifier text is `id@`, if any.
    pub fn find_shift_index(&self, id: &ShiftId) -> (r: Option<usize>)
        ensures
            match r {
                Some(i) => spec_find_shift_index(self.shifts@, id@) == Some(i as int)
                    && i < self.shifts@.len() && self.shifts@[i as int].id@ == id@,
                None => spec_find_shift_index(self.shifts@, id@) is None,
            },
    {
        let n = self.shifts.len();
        let mut i: usize = 0;
        proof {
            assert(self.shifts@.skip(0int) =~= self.shifts@);
        }
        while i < n
            invariant
                i <= n,
                n == self.shifts@.len(),
                match spec_find_shift_index(self.shifts@.skip(i as int), id@) {
                    Some(j) => spec_find_shift_index(self.shifts@, id@) == Some(j + i),
                    None => spec_find_shift_index(self.shifts@, id@) is None,
                },
                forall|j: int| 0 <= j < i ==> (#[trigger] self.shifts@[j]).id@ != id@,
            decreases n - i,
        {
            proof {
                assert(self.shifts@.skip(i as int).drop_first() =~= self.shifts@.skip(i as int + 1));
                assert(self.shifts@.skip(i as int)[0] == self.shifts@[i as int]);
            }
            if self.shifts[i].id.eq(id) {
                return Some(i);
            }
            i += 1;
        }
        proof {
            assert(self.shifts@.skip(n as int) =~= Seq::<Shift>::empty());
        }
        None
    }

    pub fn find_shift_mut(&mut self, id: &ShiftId) -> (r: Option<&mut Shift>)
        ensures
            match r {
                Some(s) => {
                    &&& spec_find_shift_index(old(self).shifts@, id@) matches Some(i)
                        && old(self).shifts@[i] == *s && final(self).shifts@ == old(
                        self,
                    ).shifts@.update(i, *final(s))
                    &&& final(self).people == old(self).people
                },
                None => {
                    &&& spec_find_shift_index(old(self).shifts@, id@) is None
                    &&& *final(self) == *old(self)
                },
            },
    {
        match self.find_shift_index(id) {
            Some(i) => Some(vstd::std_specs::vec::vec_index_mut(&mut self.shifts, i)),
            None => None,
        }
    }
}

} // verus!
