use astreinte::io::{
    export_shift_rows, parse_bool, parse_vacation_chunk, parse_vacations, person_from_record,
    shift_from_record, trim_str,
};
use astreinte::scheduler::overlaps;
use astreinte::{
    prepare_reminder, AssignOptions, ConflictKind, Person, SchedError, Scheduler, TextReminder,
    VacationPeriod,
};
use chrono::{TimeZone, Utc};

fn ts(y: i32, mo: u32, d: u32, h: u32, mi: u32, s: u32) -> i64 {
    Utc.with_ymd_and_hms(y, mo, d, h, mi, s).unwrap().timestamp()
}

#[test]
fn overlap_is_symmetric_on_samples() {
    let pairs = [
        (0i64, 10i64, 5i64, 15i64),
        (0, 10, 10, 20),
        (0, 10, -5, 1),
        (3, 4, 1, 9),
        (-20, -10, -15, -12),
    ];
    for (a, b, c, d) in pairs {
        assert_eq!(overlaps(a, b, c, d), overlaps(c, d, a, b));
    }
}

#[test]
fn touching_intervals_do_not_overlap() {
    assert!(!overlaps(0, 10, 10, 20));
    assert!(!overlaps(10, 20, 0, 10));
    assert!(overlaps(0, 11, 10, 20));
}

#[test]
fn rotation_is_deterministic() {
    let alice = Person::new("alice", "Alice");
    let bob = Person::new("bob", "Bob");
    let carol = Person::new("carol", "Carol");
    let people = vec![alice, bob, carol];
    let opts = AssignOptions::default();

    let run = |people: &[Person]| -> Vec<Option<String>> {
        let mut s = Scheduler::new();
        s.add_people(people.to_vec());
        for day in 1..=6u32 {
            s.create_shift(
                &format!("d{day}"),
                ts(2025, 10, day, 8, 0, 0),
                ts(2025, 10, day, 20, 0, 0),
            )
            .unwrap();
        }
        s.assign_rotative(people, opts).unwrap();
        s.roster()
            .shifts
            .iter()
            .map(|sh| sh.assigned.as_ref().map(|p| p.as_str().to_string()))
            .collect()
    };

    let first = run(&people);
    let second = run(&people);
    assert_eq!(first, second);
    assert!(first.iter().all(|a| a.is_some()));
}

#[test]
fn rest_gap_is_enforced_or_left_unassigned() {
    // One candidate; second shift starts only 4 hours after the first ends.
    let mut s = Scheduler::new();
    let alice = Person::new("alice", "Alice");
    s.add_people(vec![alice.clone()]);
    s.create_shift("early", ts(2025, 10, 1, 8, 0, 0), ts(2025, 10, 1, 20, 0, 0))
        .unwrap();
    s.create_shift("late", ts(2025, 10, 2, 0, 0, 0), ts(2025, 10, 2, 8, 0, 0))
        .unwrap();
    s.assign_rotative(&[alice.clone()], AssignOptions::default()).unwrap();
    let roster = s.roster();
    assert_eq!(
        roster.shifts[0].assigned.as_ref().map(|p| p.as_str()),
        Some(alice.id.as_str())
    );
    // Never assigned in violation: the close shift stays unassigned.
    assert!(roster.shifts[1].assigned.is_none());
}

#[test]
fn swap_rolls_back_on_overlap() {
    let mut s = Scheduler::new();
    let alice = Person::new("alice", "Alice");
    let bob = Person::new("bob", "Bob");
    s.add_people(vec![alice.clone(), bob.clone()]);

    let id1 = s
        .create_shift("a-slot", ts(2025, 10, 1, 8, 0, 0), ts(2025, 10, 1, 12, 0, 0))
        .unwrap();
    let id2 = s
        .create_shift("b-slot", ts(2025, 10, 1, 10, 0, 0), ts(2025, 10, 1, 14, 0, 0))
        .unwrap();
    s.roster_mut().find_shift_mut(&id1).unwrap().assigned = Some(alice.id.clone());
    s.roster_mut().find_shift_mut(&id2).unwrap().assigned = Some(bob.id.clone());

    let before: Vec<(String, i64, i64, Option<String>)> = s
        .roster()
        .shifts
        .iter()
        .map(|sh| {
            (
                sh.id.as_str().to_string(),
                sh.start,
                sh.end,
                sh.assigned.as_ref().map(|p| p.as_str().to_string()),
            )
        })
        .collect();

    // Handing b-slot to Alice would overlap her a-slot: rolled back.
    let r = s.swap(&id2, &bob.id, &alice.id, AssignOptions::default());
    assert!(matches!(r, Err(SchedError::SwapInvalid(_))));

    let after: Vec<(String, i64, i64, Option<String>)> = s
        .roster()
        .shifts
        .iter()
        .map(|sh| {
            (
                sh.id.as_str().to_string(),
                sh.start,
                sh.end,
                sh.assigned.as_ref().map(|p| p.as_str().to_string()),
            )
        })
        .collect();
    assert_eq!(before, after);
}

#[test]
fn swap_moves_the_shift_when_clear() {
    let mut s = Scheduler::new();
    let alice = Person::new("alice", "Alice");
    let bob = Person::new("bob", "Bob");
    s.add_people(vec![alice.clone(), bob.clone()]);
    let id = s
        .create_shift("solo", ts(2025, 10, 1, 8, 0, 0), ts(2025, 10, 1, 20, 0, 0))
        .unwrap();
    s.roster_mut().find_shift_mut(&id).unwrap().assigned = Some(alice.id.clone());
    s.swap(&id, &alice.id, &bob.id, AssignOptions::default()).unwrap();
    let held = s.roster().shifts[0].assigned.clone().unwrap();
    assert_eq!(held.as_str(), bob.id.as_str());
}

#[test]
fn swap_reports_unknown_shift_and_unheld_shift() {
    let mut s = Scheduler::new();
    let alice = Person::new("alice", "Alice");
    let bob = Person::new("bob", "Bob");
    s.add_people(vec![alice.clone(), bob.clone()]);
    let ghost_id = astreinte::ShiftId::new("nope");
    let r = s.swap(&ghost_id, &alice.id, &bob.id, AssignOptions::default());
    assert!(matches!(r, Err(SchedError::UnknownShift(_))));

    let id = s
        .create_shift("free", ts(2025, 10, 1, 8, 0, 0), ts(2025, 10, 1, 20, 0, 0))
        .unwrap();
    let r = s.swap(&id, &alice.id, &bob.id, AssignOptions::default());
    assert!(matches!(r, Err(SchedError::SwapInvalid(_))));
}

#[test]
fn cover_reports_bad_points_and_unknown_people() {
    let mut s = Scheduler::new();
    let alice = Person::new("alice", "Alice");
    let bob = Person::new("bob", "Bob");
    s.add_people(vec![alice.clone(), bob.clone()]);
    let id = s
        .create_shift("long", ts(2025, 10, 1, 8, 0, 0), ts(2025, 10, 3, 8, 0, 0))
        .unwrap();
    s.roster_mut().find_shift_mut(&id).unwrap().assigned = Some(alice.id.clone());

    let stranger = astreinte::PersonId::new("stranger");
    let r = s.cover_shift(&id, ts(2025, 10, 2, 8, 0, 0), &stranger, AssignOptions::default());
    assert!(matches!(r, Err(SchedError::UnknownPerson(_))));

    let r = s.cover_shift(&id, ts(2025, 10, 1, 8, 0, 0), &bob.id, AssignOptions::default());
    assert!(matches!(r, Err(SchedError::CoverInvalid(_))));
    let r = s.cover_shift(&id, ts(2025, 10, 3, 8, 0, 0), &bob.id, AssignOptions::default());
    assert!(matches!(r, Err(SchedError::CoverInvalid(_))));

    let ghost_id = astreinte::ShiftId::new("nope");
    let r = s.cover_shift(&ghost_id, ts(2025, 10, 2, 8, 0, 0), &bob.id, AssignOptions::default());
    assert!(matches!(r, Err(SchedError::UnknownShift(_))));
}

#[test]
fn two_shifts_rotate_alice_then_bob() {
    // Two 08:00-20:00 shifts a day apart, min_rest_hours=11,
    // max_consecutive_shifts=3: round-robin gives shift 1 to the first
    // candidate and shift 2 to the second.
    let mut s = Scheduler::new();
    let alice = Person::new("alice", "Alice");
    let bob = Person::new("bob", "Bob");
    s.add_people(vec![alice.clone(), bob.clone()]);
    s.create_shift("s1", ts(2025, 10, 1, 8, 0, 0), ts(2025, 10, 1, 20, 0, 0))
        .unwrap();
    s.create_shift("s2", ts(2025, 10, 2, 8, 0, 0), ts(2025, 10, 2, 20, 0, 0))
        .unwrap();
    let opts = AssignOptions {
        min_rest_hours: 11,
        max_consecutive_shifts: 3,
    };
    s.assign_rotative(&[alice.clone(), bob.clone()], opts).unwrap();
    let names: Vec<_> = s
        .roster()
        .shifts
        .iter()
        .map(|sh| sh.assigned.as_ref().unwrap().as_str().to_string())
        .collect();
    assert_eq!(names, vec![alice.id.as_str().to_string(), bob.id.as_str().to_string()]);
}

#[test]
fn overlapping_pair_yields_an_overlap_conflict() {
    let mut s = Scheduler::new();
    let alice = Person::new("alice", "Alice");
    s.add_people(vec![alice.clone()]);
    let id1 = s
        .create_shift("m", ts(2025, 10, 1, 8, 0, 0), ts(2025, 10, 1, 12, 0, 0))
        .unwrap();
    let id2 = s
        .create_shift("n", ts(2025, 10, 1, 10, 0, 0), ts(2025, 10, 1, 14, 0, 0))
        .unwrap();
    s.roster_mut().find_shift_mut(&id1).unwrap().assigned = Some(alice.id.clone());
    s.roster_mut().find_shift_mut(&id2).unwrap().assigned = Some(alice.id.clone());
    let conflicts = s.detect_conflicts(AssignOptions::default());
    assert!(conflicts
        .iter()
        .any(|c| c.kind == ConflictKind::Overlap && c.person == alice.id));
}

#[test]
fn create_shift_rejects_reversed_interval() {
    let mut s = Scheduler::new();
    let r = s.create_shift("bad", ts(2025, 10, 2, 8, 0, 0), ts(2025, 10, 1, 8, 0, 0));
    assert!(matches!(r, Err(SchedError::InvalidTimeRange)));
    assert!(s.roster().shifts.is_empty());
}

#[test]
fn vacation_period_rejects_reversed_interval() {
    let err = VacationPeriod::new(10, 10).unwrap_err();
    assert_eq!(err, "vacation end must be after start");
    let ok = VacationPeriod::new(10, 11).unwrap();
    assert_eq!((ok.start, ok.end), (10, 11));
}

#[test]
fn parse_bool_reads_the_recognized_words() {
    assert_eq!(parse_bool("true").unwrap(), true);
    assert_eq!(parse_bool("Yes").unwrap(), true);
    assert_eq!(parse_bool("OUI").unwrap(), true);
    assert_eq!(parse_bool("1").unwrap(), true);
    assert_eq!(parse_bool("y").unwrap(), true);
    assert_eq!(parse_bool("false").unwrap(), false);
    assert_eq!(parse_bool("No").unwrap(), false);
    assert_eq!(parse_bool("NON").unwrap(), false);
    assert_eq!(parse_bool("0").unwrap(), false);
    assert_eq!(parse_bool("n").unwrap(), false);
    assert_eq!(parse_bool("maybe").unwrap_err(), "expected boolean");
}

#[test]
fn trim_matches_std() {
    for s in ["  hello  ", "\t a b \n", "", "   ", "déjà vu "] {
        assert_eq!(trim_str(s), s.trim());
    }
}

#[test]
fn vacation_chunks_parse_to_utc_intervals() {
    // A bare-date range: the end date is inclusive, so one day is added.
    let v = parse_vacation_chunk("2025-10-02/2025-10-04").unwrap();
    assert_eq!(v.start, ts(2025, 10, 2, 0, 0, 0));
    assert_eq!(v.end, ts(2025, 10, 5, 0, 0, 0));

    // RFC3339 endpoints are taken as they stand.
    let v = parse_vacation_chunk("2025-10-01T08:00:00Z..2025-10-02T09:30:00Z").unwrap();
    assert_eq!(v.start, ts(2025, 10, 1, 8, 0, 0));
    assert_eq!(v.end, ts(2025, 10, 2, 9, 30, 0));

    // A single day spans that day.
    let v = parse_vacation_chunk("2025-12-31").unwrap();
    assert_eq!(v.start, ts(2025, 12, 31, 0, 0, 0));
    assert_eq!(v.end, ts(2026, 1, 1, 0, 0, 0));

    let e = parse_vacation_chunk("not-a-date").unwrap_err();
    assert_eq!(e, "invalid date/datetime: not-a-date");

    let e = parse_vacation_chunk("2025-10-04/2025-10-02").unwrap_err();
    assert_eq!(e, "vacation end must be after start");
}

#[test]
fn vacation_lists_split_on_semicolons() {
    let vs = parse_vacations("2025-10-02 ; ;2025-12-24/2025-12-26").unwrap();
    assert_eq!(vs.len(), 2);
    assert_eq!(vs[0].start, ts(2025, 10, 2, 0, 0, 0));
    assert_eq!(vs[1].end, ts(2025, 12, 27, 0, 0, 0));
    assert!(parse_vacations("x").is_err());
}

#[test]
fn people_records_build_people() {
    let fields: Vec<String> = vec![
        " alice ".into(),
        "Alice A".into(),
        "yes".into(),
        "2025-10-02".into(),
    ];
    let p = person_from_record(&fields).unwrap();
    assert_eq!(p.handle, "alice");
    assert_eq!(p.display_name, "Alice A");
    assert!(p.on_vacation);
    assert_eq!(p.vacations.len(), 1);
    assert_eq!(p.vacations[0].start, ts(2025, 10, 2, 0, 0, 0));

    let short: Vec<String> = vec!["alice".into()];
    assert_eq!(person_from_record(&short).unwrap_err(), "missing display_name");
    let blank: Vec<String> = vec!["  ".into(), "Alice".into()];
    assert_eq!(person_from_record(&blank).unwrap_err(), "invalid people row (empty)");
    let badflag: Vec<String> = vec!["alice".into(), "Alice".into(), "perhaps".into()];
    assert_eq!(
        person_from_record(&badflag).unwrap_err(),
        "invalid on_vacation value for handle alice"
    );
}

#[test]
fn shift_records_build_shifts() {
    let fields: Vec<String> = vec![
        "night".into(),
        "2025-10-01T20:00:00Z".into(),
        " 2025-10-02T08:00:00Z ".into(),
    ];
    let s = shift_from_record(&fields).unwrap();
    assert_eq!(s.name, "night");
    assert_eq!(s.start, ts(2025, 10, 1, 20, 0, 0));
    assert_eq!(s.end, ts(2025, 10, 2, 8, 0, 0));
    assert!(s.assigned.is_none());

    let bad: Vec<String> = vec!["x".into(), "nope".into(), "2025-10-02T08:00:00Z".into()];
    assert_eq!(shift_from_record(&bad).unwrap_err(), "start RFC3339");
    let reversed: Vec<String> = vec![
        "x".into(),
        "2025-10-02T08:00:00Z".into(),
        "2025-10-01T08:00:00Z".into(),
    ];
    assert_eq!(
        shift_from_record(&reversed).unwrap_err(),
        "end must be strictly after start"
    );
}

#[test]
fn export_rows_render_rfc3339_and_handles() {
    let mut s = Scheduler::new();
    let alice = Person::new("alice", "Alice");
    s.add_people(vec![alice.clone()]);
    let id = s
        .create_shift("night", ts(2025, 10, 1, 20, 0, 0), ts(2025, 10, 2, 8, 0, 0))
        .unwrap();
    s.roster_mut().find_shift_mut(&id).unwrap().assigned = Some(alice.id.clone());
    let rows = export_shift_rows(s.roster());
    assert_eq!(rows.len(), 1);
    assert_eq!(rows[0].id, id.as_str());
    assert_eq!(rows[0].name, "night");
    assert_eq!(rows[0].start, "2025-10-01T20:00:00+00:00");
    assert_eq!(rows[0].end, "2025-10-02T08:00:00+00:00");
    assert_eq!(rows[0].assigned_handle, "alice");
}

#[test]
fn reminder_targets_the_next_upcoming_shift() {
    let mut s = Scheduler::new();
    let alice = Person::new("alice", "Alice");
    s.add_people(vec![alice.clone()]);
    let past = s
        .create_shift("past", ts(2025, 9, 1, 8, 0, 0), ts(2025, 9, 1, 20, 0, 0))
        .unwrap();
    let soon = s
        .create_shift("soon", ts(2025, 10, 5, 8, 0, 0), ts(2025, 10, 5, 20, 0, 0))
        .unwrap();
    let later = s
        .create_shift("later", ts(2025, 11, 5, 8, 0, 0), ts(2025, 11, 5, 20, 0, 0))
        .unwrap();
    for id in [&past, &soon, &later] {
        s.roster_mut().find_shift_mut(id).unwrap().assigned = Some(alice.id.clone());
    }
    let now = ts(2025, 10, 1, 0, 0, 0);
    let renderer = TextReminder;
    let rem = prepare_reminder(s.roster(), "alice", 2, now, &renderer).unwrap();
    assert_eq!(rem.person_handle, "alice");
    assert_eq!(rem.shift_id, soon.as_str());
    assert_eq!(rem.notice_at, ts(2025, 10, 3, 8, 0, 0));
    assert!(rem.content.contains("Alice"));
    assert!(rem.content.contains("soon"));

    let r = prepare_reminder(s.roster(), "alice", -1, now, &renderer);
    assert!(matches!(r, Err(SchedError::NotifyInvalid(_))));
    let r = prepare_reminder(s.roster(), "nobody", 2, now, &renderer);
    assert!(matches!(r, Err(SchedError::UnknownPerson(_))));
    let r = prepare_reminder(s.roster(), "alice", 2, ts(2026, 1, 1, 0, 0, 0), &renderer);
    assert!(matches!(r, Err(SchedError::NotifyInvalid(_))));
}

#[test]
fn fresh_identifiers_are_nonempty_text() {
    let a = Person::new("a", "A");
    let b = Person::new("b", "B");
    assert!(!a.id.as_str().is_empty());
    assert!(!b.id.as_str().is_empty());
    assert_ne!(a.id.as_str(), b.id.as_str());
}

#[test]
fn duration_counts_whole_minutes() {
    let mut s = Scheduler::new();
    s.create_shift("m", ts(2025, 10, 1, 8, 0, 0), ts(2025, 10, 1, 20, 30, 59))
        .unwrap();
    assert_eq!(s.roster().shifts[0].duration_minutes(), 12 * 60 + 30);
}

#[test]
fn eligibility_rejects_short_rest_directly() {
    let mut s = Scheduler::new();
    let alice = Person::new("alice", "Alice");
    s.add_people(vec![alice.clone()]);
    let id = s
        .create_shift("first", ts(2025, 10, 1, 8, 0, 0), ts(2025, 10, 1, 20, 0, 0))
        .unwrap();
    s.roster_mut().find_shift_mut(&id).unwrap().assigned = Some(alice.id.clone());

    // A candidate 4 hours after the end: under the 11-hour minimum.
    let candidate = astreinte::Shift::new(
        "candidate".to_string(),
        ts(2025, 10, 2, 0, 0, 0),
        ts(2025, 10, 2, 8, 0, 0),
        None,
    )
    .unwrap();
    assert!(!s.person_ok_for_shift(&alice.id, &candidate, AssignOptions::default(), None));

    // A candidate the next morning, 12 hours later: fine.
    let candidate = astreinte::Shift::new(
        "candidate2".to_string(),
        ts(2025, 10, 2, 8, 0, 0),
        ts(2025, 10, 2, 20, 0, 0),
        None,
    )
    .unwrap();
    assert!(s.person_ok_for_shift(&alice.id, &candidate, AssignOptions::default(), None));
}

#[test]
fn consecutive_ceiling_blocks_a_fourth_back_to_back_shift() {
    let mut s = Scheduler::new();
    let alice = Person::new("alice", "Alice");
    s.add_people(vec![alice.clone()]);
    // Three consecutive 8-hour shifts, back to back.
    for k in 0..3u32 {
        let id = s
            .create_shift(
                &format!("b{k}"),
                ts(2025, 10, 1, 0, 0, 0) + (k as i64) * 8 * 3600,
                ts(2025, 10, 1, 0, 0, 0) + ((k + 1) as i64) * 8 * 3600,
            )
            .unwrap();
        s.roster_mut().find_shift_mut(&id).unwrap().assigned = Some(alice.id.clone());
    }
    // Only the shift ending at the candidate's start is within the
    // thirty-minute tolerance, so one duty run is counted.
    let candidate = astreinte::Shift::new(
        "fourth".to_string(),
        ts(2025, 10, 2, 0, 0, 0),
        ts(2025, 10, 2, 8, 0, 0),
        None,
    )
    .unwrap();
    let opts = AssignOptions {
        min_rest_hours: 0,
        max_consecutive_shifts: 1,
    };
    assert!(!s.person_ok_for_shift(&alice.id, &candidate, opts, None));
    let opts = AssignOptions {
        min_rest_hours: 0,
        max_consecutive_shifts: 2,
    };
    assert!(s.person_ok_for_shift(&alice.id, &candidate, opts, None));
}
