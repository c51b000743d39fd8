use astreinte::{generate_roster, Rules, Slot, Template};
use chrono::NaiveDate;

fn day_number(y: i32, m: u32, d: u32) -> i64 {
    let epoch = NaiveDate::from_ymd_opt(1970, 1, 1).unwrap();
    NaiveDate::from_ymd_opt(y, m, d)
        .unwrap()
        .signed_duration_since(epoch)
        .num_days()
}

fn sample_template() -> Template {
    Template {
        id: "weekend-2p".into(),
        name: "Week-end 2 personnes".into(),
        description: Some("Rotation week-end".into()),
        rotation_cycle_days: 14,
        slots: vec![
            Slot {
                role: "oncall".into(),
                start_time: 18 * 3600,
                end_time: 9 * 3600,
                days: vec![6, 7],
                priority: 0,
            },
            Slot {
                role: "backup".into(),
                start_time: 18 * 3600,
                end_time: 9 * 3600,
                days: vec![6, 7],
                priority: 1,
            },
        ],
        rules: Some(Rules {
            min_rest_hours: Some(12),
            max_consecutive_days: Some(3),
            allow_weekend_swap: true,
        }),
    }
}

#[test]
fn generate_roster_from_template() {
    let template = sample_template();
    let start = day_number(2025, 10, 24); // Friday
    let end = day_number(2025, 10, 28); // Tuesday

    let roster = generate_roster(&template, start, end, template.rules.clone()).unwrap();
    assert!(!roster.shifts.is_empty());

    // Expect two shifts per applicable day (oncall + backup on weekend days)
    let weekend_shifts: Vec<_> = roster
        .shifts
        .iter()
        .filter(|s| s.name.contains("oncall") || s.name.contains("backup"))
        .collect();
    assert_eq!(weekend_shifts.len(), 4);

    // Ensure no overlapping shifts share the same timestamp ordering issue
    for window in roster.shifts.windows(2) {
        if let [a, b] = window {
            assert!(a.start <= b.start);
        }
    }
}

#[test]
fn template_validation_reports_each_rule() {
    let mut t = sample_template();
    assert!(t.validate().is_ok());

    t.id = "  ".into();
    assert_eq!(t.validate().unwrap_err(), "template id cannot be empty");
    t = sample_template();

    t.name = "".into();
    assert_eq!(t.validate().unwrap_err(), "template name cannot be empty");
    t = sample_template();

    t.rotation_cycle_days = 0;
    assert_eq!(t.validate().unwrap_err(), "rotation_cycle_days must be > 0");
    t = sample_template();

    t.slots.clear();
    assert_eq!(t.validate().unwrap_err(), "template must contain at least one slot");
    t = sample_template();

    t.slots[0].role = " ".into();
    assert_eq!(t.validate().unwrap_err(), "slot role cannot be empty");
    t = sample_template();

    t.slots[0].days.clear();
    assert_eq!(t.validate().unwrap_err(), "slot must define at least one day");
    t = sample_template();

    t.slots[0].end_time = t.slots[0].start_time;
    assert_eq!(
        t.validate().unwrap_err(),
        "slot start_time and end_time cannot be equal"
    );
    t = sample_template();

    // two same-role slots overlapping on a shared day
    t.slots[1].role = "oncall".into();
    assert_eq!(
        t.validate().unwrap_err(),
        "template contains overlapping slots for role oncall and oncall"
    );
}

#[test]
fn generated_names_carry_the_date() {
    let template = sample_template();
    let start = day_number(2025, 10, 24);
    let end = day_number(2025, 10, 26);
    let roster = generate_roster(&template, start, end, None).unwrap();
    // 2025-10-25 is a Saturday (weekday 6): both slots apply.
    assert!(roster.shifts.iter().any(|s| s.name == "oncall 2025-10-25"));
    assert!(roster.shifts.iter().any(|s| s.name == "backup 2025-10-26"));
    // An 18:00-09:00 window wraps into the next day.
    let sat = roster
        .shifts
        .iter()
        .find(|s| s.name == "oncall 2025-10-25")
        .unwrap();
    assert_eq!(sat.start, day_number(2025, 10, 25) * 86400 + 18 * 3600);
    assert_eq!(sat.end, day_number(2025, 10, 26) * 86400 + 9 * 3600);
    assert!(sat.assigned.is_none());
}

#[test]
fn generate_rejects_reversed_range() {
    let template = sample_template();
    let start = day_number(2025, 10, 24);
    let end = day_number(2025, 10, 20);
    let err = generate_roster(&template, start, end, None).unwrap_err();
    assert_eq!(err, "end date must be after start date");
}
