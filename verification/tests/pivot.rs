use nodes::clock::{Timestamp, FIRST_UNIX_SECOND, LAST_UNIX_SECOND};
use nodes::pivot::{LogEntry, PivotDb};

fn at(secs: i64) -> Timestamp {
    Timestamp::from_unix(secs, 0).unwrap()
}

fn entry(secs: i64, ended: &[&str], started: &[&str]) -> LogEntry {
    LogEntry {
        timestamp: at(secs),
        ended_tasks: ended.iter().map(|s| s.to_string()).collect(),
        started_tasks: started.iter().map(|s| s.to_string()).collect(),
    }
}

const APRIL_11: i64 = 1_775_865_600;

#[test]
fn accepts_exactly_the_instants_chrono_can_hold() {
    assert!(Timestamp::from_unix(FIRST_UNIX_SECOND, 0).is_some());
    assert!(Timestamp::from_unix(FIRST_UNIX_SECOND - 1, 999_999_999).is_none());
    assert!(Timestamp::from_unix(LAST_UNIX_SECOND, 999_999_999).is_some());
    assert!(Timestamp::from_unix(LAST_UNIX_SECOND + 1, 0).is_none());
    assert!(Timestamp::from_unix(59, 1_500_000_000).is_some());
    assert!(Timestamp::from_unix(58, 1_500_000_000).is_none());
    assert!(Timestamp::from_unix(59, 2_000_000_000).is_none());
    let t = Timestamp::from_unix(-1, 5).unwrap();
    assert_eq!((t.secs(), t.nanos()), (-1, 5));
}

#[test]
fn writes_days_and_clock_times() {
    assert_eq!(at(APRIL_11).day_text(), "20260411");
    assert_eq!(at(APRIL_11 + 7 * 3600 + 5 * 60).clock_text(), "0705");
    assert_eq!(at(-1).day_text(), "19691231");
    assert_eq!(at(-1).clock_text(), "2359");
    assert_eq!(at(0).clock_text(), "0000");
}

#[test]
fn converts_to_legacy_text_in_time_order() {
    let db = PivotDb::from_loaded(
        "db.json".to_string(),
        Some(vec![
            entry(APRIL_11 + 86_400 + 23 * 3600 + 59 * 60, &["rust"], &[]),
            entry(APRIL_11 + 7 * 3600 + 5 * 60, &["\u{5403}\u{65e9}\u{9910}"], &["rust", "mmd_tidyup"]),
            entry(APRIL_11 + 7 * 3600 + 5 * 60, &[], &["rust"]),
        ]),
    );
    let expected = [
        "20260411\n",
        "\u{5403}\u{65e9}\u{9910}                         -0705-rust&mmd_tidyup\n",
        "                            -0705-rust\n",
        "\n",
        "20260412\n",
        "rust                        -2359-\n",
    ]
    .concat();
    assert_eq!(db.convert_to_legacy(), expected);
}

#[test]
fn empty_log_has_empty_legacy_text() {
    let db = PivotDb::from_loaded("db.json".to_string(), None);
    assert!(db.entries.is_empty());
    assert_eq!(db.file_path, "db.json");
    assert_eq!(db.convert_to_legacy(), "");
}

#[test]
fn long_task_lists_are_not_cut() {
    let long = "a".repeat(30);
    let db = PivotDb::from_loaded("db.json".to_string(), Some(vec![entry(0, &[&long], &["b"])]));
    assert_eq!(db.convert_to_legacy(), format!("19700101\n{long} -0000-b\n"));
}

#[test]
fn logs_a_transition_at_the_end() {
    let mut db = PivotDb::from_loaded("db.json".to_string(), Some(vec![entry(0, &["x"], &["y"])]));
    db.log_transition_at(at(APRIL_11), vec![], vec!["rust".to_string()]);
    db.log_transition_at(at(APRIL_11 + 60), vec!["rust".to_string()], vec![]);
    assert_eq!(db.entries.len(), 3);
    assert_eq!(db.entries[1].started_tasks, vec!["rust".to_string()]);
    assert!(db.entries[2].ended_tasks == vec!["rust".to_string()] && db.entries[2].started_tasks.is_empty());
    assert_eq!(db.entries[2].timestamp.secs(), APRIL_11 + 60);
    assert_eq!(db.file_path, "db.json");
}

#[test]
fn legacy_text_ignores_log_order_for_distinct_instants() {
    let a = entry(APRIL_11 + 60, &["a"], &["b"]);
    let b = entry(APRIL_11 + 120, &["b"], &["c"]);
    let c = entry(APRIL_11 - 60, &["z"], &["a"]);
    let one = PivotDb::from_loaded("x".to_string(), Some(vec![a.clone(), b.clone(), c.clone()]));
    let two = PivotDb::from_loaded("x".to_string(), Some(vec![b, c, a]));
    assert_eq!(one.convert_to_legacy(), two.convert_to_legacy());
    assert!(one.convert_to_legacy().starts_with("20260410\n"));
}

/// The proleptic Gregorian date of a day after 1970-01-01, by eras of 400
/// years starting on the first of March.
fn civil_from_days(days: i64) -> (i64, i64, i64) {
    let z = days + 719_468;
    let era = z.div_euclid(146_097);
    let doe = z - era * 146_097;
    let yoe = (doe - doe / 1460 + doe / 36_524 - doe / 146_096) / 365;
    let doy = doe - (365 * yoe + yoe / 4 - yoe / 100);
    let mp = (5 * doy + 2) / 153;
    let day = doy - (153 * mp + 2) / 5 + 1;
    let month = if mp < 10 { mp + 3 } else { mp - 9 };
    (yoe + era * 400 + if month <= 2 { 1 } else { 0 }, month, day)
}

fn expected_day_text(secs: i64) -> String {
    let (year, month, day) = civil_from_days(secs.div_euclid(86_400));
    let year_text = if (0..=9999).contains(&year) {
        format!("{year:04}")
    } else if year < 0 {
        format!("-{:04}", -year)
    } else {
        format!("+{year:04}")
    };
    format!("{year_text}{month:02}{day:02}")
}

#[test]
fn day_text_is_the_civil_date() {
    let mut secs: Vec<i64> = vec![
        FIRST_UNIX_SECOND,
        LAST_UNIX_SECOND,
        0,
        -1,
        -62_167_219_200,
        -62_167_219_201,
        253_402_300_799,
        253_402_300_800,
        951_782_400,
        4_107_542_400,
    ];
    let mut x: i64 = FIRST_UNIX_SECOND;
    while x < LAST_UNIX_SECOND - 7_919_999_999 {
        secs.push(x);
        x += 7_919_999_999;
    }
    for s in secs {
        assert_eq!(at(s).day_text(), expected_day_text(s), "second {s}");
    }
}

#[test]
fn logs_a_transition_at_a_given_instant() {
    let mut db = PivotDb::from_loaded("db.json".to_string(), None);
    db.log_transition_at(at(APRIL_11), vec!["a".to_string()], vec![]);
    assert_eq!(db.entries.len(), 1);
    assert_eq!(db.entries[0].timestamp, at(APRIL_11));
    assert_eq!(db.entries[0].ended_tasks, vec!["a".to_string()]);
}
