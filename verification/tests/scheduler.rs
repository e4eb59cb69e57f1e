use chrono::TimeZone;

use sched::api::{ObjPayload, State, SubTask, Task};
use sched::recur::{Every, OptRepeated, Repeated, Stop};
use sched::store::Store;
use sched::time::{DateTime, Duration};

fn datetime(y: i32, m: u32, d: u32, h: u32, mi: u32, s: u32) -> DateTime {
    DateTime::from_secs(chrono::Utc.with_ymd_and_hms(y, m, d, h, mi, s).unwrap().timestamp())
}

fn weekly(start: Vec<DateTime>, stop: Stop) -> OptRepeated {
    OptRepeated::Repeat(Repeated::new(start, Every::Time(Duration::from_secs(7 * 86400)), stop))
}

#[test]
fn create_task_generates_look_ahead() {
    let mut s = Store::new();
    let base = datetime(2020, 12, 21, 10, 0, 0);
    let tid = s
        .create_task("chores".to_owned(), None, None, weekly(vec![base], Stop::Nonstop), 1)
        .unwrap();
    let task = s.get_obj::<Task>(tid).unwrap().inner;
    assert_eq!(task.cache.len(), 5);
    for (j, cid) in task.cache.iter().enumerate() {
        let sub = s.get_obj::<SubTask>(*cid).unwrap().inner;
        assert_eq!(sub.task_id, tid);
        assert!(sub.finished.is_none());
        assert_eq!(sub.deadline.secs, base.secs + (j as i64) * 7 * 86400);
    }
}

#[test]
fn create_task_single_generates_one() {
    let mut s = Store::new();
    let when = datetime(2021, 3, 1, 9, 0, 0);
    let tid = s
        .create_task("once".to_owned(), None, None, OptRepeated::Single(when), 2)
        .unwrap();
    let task = s.get_obj::<Task>(tid).unwrap().inner;
    assert_eq!(task.cache.len(), 1);
    let sub = s.get_obj::<SubTask>(task.cache[0]).unwrap().inner;
    assert_eq!(sub.deadline, when);
}

#[test]
fn finish_marks_and_regenerates() {
    let mut s = Store::new();
    let base = datetime(2020, 12, 21, 10, 0, 0);
    let tid = s
        .create_task("chores".to_owned(), None, None, weekly(vec![base], Stop::Nonstop), 1)
        .unwrap();
    let first = s.get_obj::<Task>(tid).unwrap().inner.cache[0];
    let done_at = datetime(2020, 12, 21, 12, 0, 0);
    s.task_finish(first, done_at).unwrap();
    let sub = s.get_obj::<SubTask>(first).unwrap().inner;
    assert_eq!(sub.finished, Some(done_at));
    let task = s.get_obj::<Task>(tid).unwrap().inner;
    assert_eq!(task.cache.len(), 6);
    match &s.logs.last().unwrap().payload {
        sched::api::LogPayload::TaskFinish(x) => assert_eq!(x.id, first),
        _ => panic!("expected TaskFinish"),
    }
}

#[test]
fn cache_stays_bounded() {
    let mut s = Store::new();
    let base = datetime(2020, 12, 21, 10, 0, 0);
    let tid = s
        .create_task("chores".to_owned(), None, None, weekly(vec![base], Stop::Nonstop), 1)
        .unwrap();
    for _ in 0..30 {
        let task = s.get_obj::<Task>(tid).unwrap().inner;
        let bound = task.cache_size + task.gen_ahead + 1;
        assert!(task.cache.len() <= bound);
        let oldest = task.cache[0];
        s.task_finish(oldest, datetime(2021, 1, 1, 0, 0, 0)).unwrap();
    }
    let task = s.get_obj::<Task>(tid).unwrap().inner;
    assert!(task.cache.len() <= task.cache_size + task.gen_ahead + 1);
}

#[test]
fn find_current_deadline_grace() {
    let mut s = Store::new();
    let now = datetime(2021, 6, 1, 12, 0, 0);
    // one subtask three minutes past its deadline: still inside the grace
    let tid = s
        .create_task(
            "soon".to_owned(),
            None,
            None,
            OptRepeated::Single(DateTime::from_secs(now.secs - 3 * 60)),
            1,
        )
        .unwrap();
    let picked = s.find_current_at(tid, now).unwrap();
    let cache0 = s.get_obj::<Task>(tid).unwrap().inner.cache[0];
    assert_eq!(picked, Some(cache0));
    // one subtask ten minutes past its deadline: outside the grace
    let tid2 = s
        .create_task(
            "late".to_owned(),
            None,
            None,
            OptRepeated::Single(DateTime::from_secs(now.secs - 10 * 60)),
            1,
        )
        .unwrap();
    assert_eq!(s.find_current_at(tid2, now).unwrap(), None);
}

#[test]
fn find_current_balanced_midpoint() {
    let mut s = Store::new();
    let base = datetime(2021, 6, 7, 10, 0, 0);
    let tid = s
        .create_task("bal".to_owned(), None, None, weekly(vec![base], Stop::Nonstop), 1)
        .unwrap();
    // flip the flavor to Balanced in place
    let mut task = s.get_obj::<Task>(tid).unwrap().inner;
    task.flavor = sched::api::TaskFlavor::Balanced;
    s.set_obj::<Task>(tid, task).unwrap();
    let task = s.get_obj::<Task>(tid).unwrap().inner;
    let first = task.cache[0];
    let second = task.cache[1];
    // before the midpoint between the first two deadlines the first is current
    let before_mid = DateTime::from_secs(base.secs + 3 * 86400);
    assert_eq!(s.find_current_at(tid, before_mid).unwrap(), Some(first));
    // after the midpoint the second takes over
    let after_mid = DateTime::from_secs(base.secs + 4 * 86400);
    assert_eq!(s.find_current_at(tid, after_mid).unwrap(), Some(second));
}

#[test]
fn finished_occurrences_are_skipped() {
    let mut s = Store::new();
    let base = datetime(2021, 6, 7, 10, 0, 0);
    let tid = s
        .create_task("skip".to_owned(), None, None, weekly(vec![base], Stop::Count(5)), 1)
        .unwrap();
    let first = s.get_obj::<Task>(tid).unwrap().inner.cache[0];
    s.task_finish(first, base).unwrap();
    let picked = s.find_current_at(tid, base).unwrap();
    assert_ne!(picked, Some(first));
    assert!(picked.is_some());
}

#[test]
fn event_record_is_stored() {
    let mut s = Store::new();
    let when = datetime(2021, 5, 1, 8, 0, 0);
    let id = s
        .create_event(
            "standup".to_owned(),
            OptRepeated::Single(when),
            Duration::from_secs(900),
            Some("daily sync".to_owned()),
            None,
        )
        .unwrap();
    let ev = s.get_obj::<sched::api::Event>(id).unwrap();
    assert_eq!(ev.desc.as_deref(), Some("daily sync"));
    assert_eq!(ev.inner.duration, Duration::from_secs(900));
    match ev.inner.start {
        OptRepeated::Single(t) => assert_eq!(t, when),
        _ => panic!("expected a one-off start"),
    }
}

#[test]
fn codec_record_round_trip() {
    let rec = sched::api::ObjRecord {
        name: "n".to_owned(),
        desc: Some("d".to_owned()),
        attrs: None,
        payload: ObjPayload::State(State { last_notified: Some(DateTime::from_secs(5)) }),
    };
    let bytes = sched::codec::encode_obj_record(&rec);
    let (back, used) = sched::codec::decode_obj_record(bytes.as_slice()).unwrap();
    assert_eq!(used, bytes.len());
    assert_eq!(back, rec);
    // a tag check sees the mismatch without decoding the fields
    let r = sched::codec::decode_obj_expecting(bytes.as_slice(), "task");
    match r {
        Err(sched::api::Error::TypeMismatch { expected, actual }) => {
            assert_eq!(expected, "task");
            assert_eq!(actual, "sys.state");
        },
        other => panic!("expected TypeMismatch, got {:?}", other),
    }
}
