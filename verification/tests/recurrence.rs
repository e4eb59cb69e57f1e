use chrono::TimeZone;

use sched::recur::{Every, OptRepeated, Repeated, Stop};
use sched::time::{DateTime, Duration};

fn datetime(y: i32, m: u32, d: u32, h: u32, mi: u32, s: u32) -> DateTime {
    DateTime::from_secs(chrono::Utc.with_ymd_and_hms(y, m, d, h, mi, s).unwrap().timestamp())
}

fn days(n: i64) -> Duration {
    Duration::from_secs(n * 86400)
}

fn collect(mut r: Repeated) -> Vec<DateTime> {
    let mut out = Vec::new();
    while let Some(t) = r.next() {
        out.push(t);
    }
    out
}

#[test]
fn test_every_advance() {
    let now = datetime(2020, 12, 25, 12, 13, 14);
    assert_eq!(
        Every::Time(days(3)).advance(now),
        Some(datetime(2020, 12, 28, 12, 13, 14))
    );
    assert_eq!(
        Every::Time(days(7)).advance(now),
        Some(datetime(2021, 1, 1, 12, 13, 14))
    );
    assert_eq!(
        Every::Time(days(7)).advance(now),
        Some(datetime(2021, 1, 1, 12, 13, 14))
    );
    assert_eq!(Every::Month(1).advance(now), Some(datetime(2021, 1, 25, 12, 13, 14)));
    assert_eq!(Every::Month(12).advance(now), Some(datetime(2021, 12, 25, 12, 13, 14)));
    assert_eq!(Every::Month(18).advance(now), Some(datetime(2022, 6, 25, 12, 13, 14)));
}

#[test]
fn test_repeat() {
    let repeat = Repeated::new(
        vec![
            datetime(2020, 12, 21, 10, 0, 0),
            datetime(2020, 12, 23, 11, 0, 0),
            datetime(2020, 12, 25, 12, 0, 0),
        ],
        Every::Time(days(7)),
        Stop::Count(7),
    );
    assert_eq!(
        collect(repeat),
        vec![
            datetime(2020, 12, 21, 10, 0, 0),
            datetime(2020, 12, 23, 11, 0, 0),
            datetime(2020, 12, 25, 12, 0, 0),
            datetime(2020, 12, 28, 10, 0, 0),
            datetime(2020, 12, 30, 11, 0, 0),
            datetime(2021, 1, 1, 12, 0, 0),
            datetime(2021, 1, 4, 10, 0, 0),
        ]
    );
    let repeat = Repeated::new(
        vec![
            datetime(2020, 12, 21, 10, 0, 0),
            datetime(2020, 12, 23, 11, 0, 0),
            datetime(2020, 12, 25, 12, 0, 0),
        ],
        Every::Time(days(7)),
        Stop::After(datetime(2021, 1, 4, 11, 0, 0)),
    );
    assert_eq!(
        collect(repeat),
        vec![
            datetime(2020, 12, 21, 10, 0, 0),
            datetime(2020, 12, 23, 11, 0, 0),
            datetime(2020, 12, 25, 12, 0, 0),
            datetime(2020, 12, 28, 10, 0, 0),
            datetime(2020, 12, 30, 11, 0, 0),
            datetime(2021, 1, 1, 12, 0, 0),
            datetime(2021, 1, 4, 10, 0, 0),
        ]
    );
}

#[test]
fn month_step_into_short_month_stops() {
    // Advancing January 31 by one month lands on a day February lacks.
    let start = datetime(2021, 1, 31, 9, 0, 0);
    assert_eq!(Every::Month(1).advance(start), None);
    let mut repeat = Repeated::new(vec![start], Every::Month(1), Stop::Nonstop);
    assert_eq!(repeat.next(), Some(start));
    assert_eq!(repeat.next(), None);
    assert_eq!(repeat.stop, Stop::Stopped);
}

#[test]
fn new_sorts_phases() {
    let repeat = Repeated::new(
        vec![
            datetime(2020, 12, 25, 12, 0, 0),
            datetime(2020, 12, 21, 10, 0, 0),
        ],
        Every::Time(days(7)),
        Stop::Count(3),
    );
    assert_eq!(
        collect(repeat),
        vec![
            datetime(2020, 12, 21, 10, 0, 0),
            datetime(2020, 12, 25, 12, 0, 0),
            datetime(2020, 12, 28, 10, 0, 0),
        ]
    );
}

#[test]
fn negative_count_keeps_producing() {
    // only a count of exactly zero stops; a negative one decrements past
    // zero and keeps producing, as the reference behaves
    let mut repeat = Repeated::new(
        vec![datetime(2020, 12, 21, 10, 0, 0)],
        Every::Time(days(1)),
        Stop::Count(-1),
    );
    assert_eq!(repeat.next(), Some(datetime(2020, 12, 21, 10, 0, 0)));
    assert_eq!(repeat.next(), Some(datetime(2020, 12, 22, 10, 0, 0)));
    assert_eq!(repeat.stop, Stop::Count(-3));
}

#[test]
fn count_zero_yields_nothing() {
    let mut repeat = Repeated::new(
        vec![datetime(2020, 12, 21, 10, 0, 0)],
        Every::Time(days(1)),
        Stop::Count(0),
    );
    assert_eq!(repeat.next(), None);
    assert_eq!(repeat.next(), None);
}

#[test]
fn cloned_schedule_resumes_identically() {
    let mut a = Repeated::new(
        vec![datetime(2020, 12, 21, 10, 0, 0), datetime(2020, 12, 23, 11, 0, 0)],
        Every::Time(days(7)),
        Stop::Count(6),
    );
    a.next();
    a.next();
    let b = a.duplicate();
    assert_eq!(collect(a), collect(b));
}

#[test]
fn single_is_single() {
    let d = OptRepeated::Single(datetime(2021, 2, 1, 8, 0, 0));
    match d.duplicate() {
        OptRepeated::Single(t) => assert_eq!(t, datetime(2021, 2, 1, 8, 0, 0)),
        OptRepeated::Repeat(_) => panic!("wrong shape"),
    }
}
