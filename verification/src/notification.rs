//! Reminders for a person's next on-call shift.

use vstd::prelude::*;

use crate::model::{spec_find_person_by_handle, Person, Roster, Shift};
use crate::scheduler::util::{sort_shifts_by_start, spec_sort_by_start};
use crate::scheduler::SchedError;
use crate::timefmt::rfc3339_utc_string;

verus! {

/// A reminder prepared for one person's next shift.
#[derive(Debug, Clone)]
pub struct Reminder {
    pub person_handle: String,
    pub shift_id: String,
    pub notice_at: i64,
    pub content: String,
}

/// Renders the reminder message for a person and shift. Implementations
/// choose the wording; nothing is promised of the text.
pub trait ReminderRenderer {
    fn render(&self, person: &Person, shift: &Shift, notice_at: i64) -> String;
}

/// Relies on std's `format!` to compose the plain-text reminder; free-text
/// rendering is not modeled further.
#[verifier::external_body]
fn compose_text_reminder(
    name: &str,
    shift_name: &str,
    start: &str,
    end: &str,
    notice: &str,
) -> String {
    format!(
        "Bonjour {name},\n\nTu es d'astreinte pour le créneau \"{shift_name}\" du {start} au {end}.\nCe message est généré le {notice}.\n\nMerci de te préparer et de vérifier ton matériel.\n"
    )
}

/// A simple plain-text rendering, meant for a future mail or SMS.
#[derive(Debug, Default, Clone, Copy)]
pub struct TextReminder;

impl ReminderRenderer for TextReminder {
    fn render(&self, person: &Person, shift: &Shift, notice_at: i64) -> String {
        let start = match rfc3339_utc_string(shift.start) {
            Some(t) => t,
            None => String::new(),
        };
        let end = match rfc3339_utc_string(shift.end) {
            Some(t) => t,
            None => String::new(),
        };
        let notice = match rfc3339_utc_string(notice_at) {
            Some(t) => t,
            None => String::new(),
        };
        compose_text_reminder(
            person.display_name.as_str(),
            shift.name.as_str(),
            start.as_str(),
            end.as_str(),
            notice.as_str(),
        )
    }
}

/// The shifts of `shifts` assigned to `id` that start at or after `now`, in
/// their current order.
pub open spec fn spec_upcoming(shifts: Seq<Shift>, id: Seq<char>, now: int) -> Seq<Shift>
    decreases shifts.len(),
{
    if shifts.len() == 0 {
        Seq::empty()
    } else {
        let head = spec_upcoming(shifts.drop_last(), id, now);
        if shifts.last().assignee() == Some(id) && shifts.last().start >= now {
            head.push(shifts.last())
        } else {
            head
        }
    }
}

/// The shifts of `roster` assigned to the person with identifier text `id`
/// starting at or after `now`, as clones in roster order.
fn collect_upcoming(roster: &Roster, person: &Person, now: i64) -> (r: Vec<Shift>)
    ensures
        r@ == spec_upcoming(roster.shifts@, person.id@, now as int),
{
    let n = roster.shifts.len();
    let mut out: Vec<Shift> = Vec::new();
    let mut i: usize = 0;
    proof {
        assert(roster.shifts@.take(0int) =~= Seq::<Shift>::empty());
    }
    while i < n
        invariant
            i <= n,
            n == roster.shifts@.len(),
            out@ == spec_upcoming(roster.shifts@.take(i as int), person.id@, now as int),
        decreases n - i,
    {
        proof {
            let prefix = roster.shifts@.take(i as int + 1);
            assert(prefix.drop_last() =~= roster.shifts@.take(i as int));
            assert(prefix.last() == roster.shifts@[i as int]);
        }
        let s = &roster.shifts[i];
        let assigned_here = match &s.assigned {
            Some(q) => q.eq(&person.id),
            None => false,
        };
        if assigned_here && s.start >= now {
            out.push(s.clone());
        }
        i += 1;
    }
    proof {
        assert(roster.shifts@.take(n as int) =~= roster.shifts@);
    }
    out
}

/// Prepares a reminder for the next shift of the person with `handle`: among
/// their assigned shifts starting at or after `now`, the earliest by start
/// time (ties broken by roster order); the notice instant lies `days_before`
/// days before its start. Fails when `days_before` is negative, the handle is
/// unknown, the person has no upcoming shift, or the notice instant leaves
/// the timeline. The message text is chosen by the renderer.
pub fn prepare_reminder<R: ReminderRenderer>(
    roster: &Roster,
    handle: &str,
    days_before: i64,
    now: i64,
    renderer: &R,
) -> (r: Result<Reminder, SchedError>)
    ensures
        days_before < 0 ==> (r matches Err(e) && (e matches SchedError::NotifyInvalid(m) && m@
            == "days_before must be positive"@)),
        days_before >= 0 ==> match spec_find_person_by_handle(roster.people@, handle@) {
            None => r matches Err(e) && (e matches SchedError::UnknownPerson(h) && h@ == handle@),
            Some(p) => {
                let up = spec_sort_by_start(
                    spec_upcoming(roster.shifts@, p.id@, now as int),
                );
                if up.len() == 0 {
                    r matches Err(e) && (e matches SchedError::NotifyInvalid(m) && m@
                        == "no upcoming shift found"@)
                } else {
                    let off = days_before as int * 86400;
                    if off <= i64::MAX && up[0].start - off >= i64::MIN {
                        r matches Ok(rem) && rem.person_handle == p.handle && rem.shift_id@
                            == up[0].id@ && rem.notice_at == up[0].start - off
                    } else {
                        r matches Err(e) && (e matches SchedError::NotifyInvalid(m) && m@
                            == "notice time out of range"@)
                    }
                }
            },
        },
{
    if days_before < 0 {
        return Err(SchedError::NotifyInvalid("days_before must be positive"));
    }
    let person = match roster.find_person_by_handle(handle) {
        Some(p) => p,
        None => {
            return Err(SchedError::UnknownPerson(handle.to_owned()));
        },
    };
    let mut upcoming = collect_upcoming(roster, person, now);
    sort_shifts_by_start(&mut upcoming);
    if upcoming.len() == 0 {
        return Err(SchedError::NotifyInvalid("no upcoming shift found"));
    }
    let shift = &upcoming[0];
    let off: i128 = (days_before as i128) * 86400;
    if off > (i64::MAX as i128) {
        return Err(SchedError::NotifyInvalid("notice time out of range"));
    }
    let t: i128 = (shift.start as i128) - off;
    if t < (i64::MIN as i128) {
        return Err(SchedError::NotifyInvalid("notice time out of range"));
    }
    let notice_at = t as i64;
    let content = renderer.render(person, shift, notice_at);
    Ok(
        Reminder {
            person_handle: person.handle.clone(),
            shift_id: shift.id.as_str().to_owned(),
            notice_at,
            content,
        },
    )
}

} // verus!
