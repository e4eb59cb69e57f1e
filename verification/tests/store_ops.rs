use sched::api::{Diff, Error, LogPayload, ObjId, State, Task};
use sched::attr::{AttrValue, Attrs};
use sched::recur::{Every, OptRepeated, Repeated, Stop};
use sched::store::{rebuilt_from_export, Store};
use sched::time::DateTime;

fn dt(secs: i64) -> DateTime {
    DateTime::from_secs(secs)
}

#[test]
fn ids_are_monotonic() {
    let mut s = Store::new();
    let a = s.create_obj::<State>(State::new(), "a".to_owned(), None, None).unwrap();
    let b = s.create_obj::<State>(State::new(), "b".to_owned(), None, None).unwrap();
    let c = s.create_obj::<State>(State::new(), "c".to_owned(), None, None).unwrap();
    assert!(a.0 < b.0 && b.0 < c.0);
    // every create also appended one log, with increasing ids
    let l1 = s.get_log::<sched::api::CreateObj>(sched::api::LogId(1)).unwrap();
    let l2 = s.get_log::<sched::api::CreateObj>(sched::api::LogId(2)).unwrap();
    assert!(l1.id.0 < l2.id.0);
    assert_eq!(l1.inner.id, a);
    assert_eq!(l2.inner.id, b);
}

#[test]
fn desc_diffs_are_exact() {
    let mut s = Store::new();
    let id = s.create_obj::<State>(State::new(), "x".to_owned(), None, None).unwrap();
    // absent -> absent: a no-op that appends no log
    let logs_before = s.logs.len();
    s.obj_set_desc(id, None).unwrap();
    assert_eq!(s.logs.len(), logs_before);
    // absent -> present: New
    s.obj_set_desc(id, Some("first".to_owned())).unwrap();
    match &s.logs.last().unwrap().payload {
        LogPayload::ObjSetDesc(x) => match &x.diff {
            Diff::New(n) => assert_eq!(n, "first"),
            _ => panic!("expected New"),
        },
        _ => panic!("expected ObjSetDesc"),
    }
    // present -> present: Diff(old, new)
    s.obj_set_desc(id, Some("second".to_owned())).unwrap();
    match &s.logs.last().unwrap().payload {
        LogPayload::ObjSetDesc(x) => match &x.diff {
            Diff::Diff(o, n) => {
                assert_eq!(o, "first");
                assert_eq!(n, "second");
            },
            _ => panic!("expected Diff"),
        },
        _ => panic!("expected ObjSetDesc"),
    }
    // present -> absent: Del(old)
    s.obj_set_desc(id, None).unwrap();
    match &s.logs.last().unwrap().payload {
        LogPayload::ObjSetDesc(x) => match &x.diff {
            Diff::Del(o) => assert_eq!(o, "second"),
            _ => panic!("expected Del"),
        },
        _ => panic!("expected ObjSetDesc"),
    }
}

#[test]
fn attr_set_and_del() {
    let mut s = Store::new();
    let id = s.create_obj::<State>(State::new(), "x".to_owned(), None, None).unwrap();
    s.obj_set_attr(id, "color".to_owned(), AttrValue::Str("red".to_owned())).unwrap();
    s.obj_set_attr(id, "color".to_owned(), AttrValue::Str("blue".to_owned())).unwrap();
    match &s.logs.last().unwrap().payload {
        LogPayload::ObjSetAttr(x) => match &x.diff {
            Diff::Diff(o, n) => {
                assert_eq!(o, &AttrValue::Str("red".to_owned()));
                assert_eq!(n, &AttrValue::Str("blue".to_owned()));
            },
            _ => panic!("expected Diff"),
        },
        _ => panic!("expected ObjSetAttr"),
    }
    s.obj_del_attr(id, "color".to_owned()).unwrap();
    match &s.logs.last().unwrap().payload {
        LogPayload::ObjSetAttr(x) => match &x.diff {
            Diff::Del(o) => assert_eq!(o, &AttrValue::Str("blue".to_owned())),
            _ => panic!("expected Del"),
        },
        _ => panic!("expected ObjSetAttr"),
    }
}

#[test]
fn dotted_key_is_rejected() {
    let mut s = Store::new();
    let id = s.create_obj::<State>(State::new(), "x".to_owned(), None, None).unwrap();
    let r = s.obj_set_attr(id, "a.b".to_owned(), AttrValue::Bool(true));
    assert!(matches!(r, Err(Error::InvalidKey(_))));
}

#[test]
fn del_nonexistent_attr_fails_without_log() {
    let mut s = Store::new();
    let id = s.create_obj::<State>(State::new(), "x".to_owned(), None, None).unwrap();
    let logs_before = s.logs.len();
    let r = s.obj_del_attr(id, "never".to_owned());
    match r {
        Err(Error::DelNonExistent(e_id, k)) => {
            assert_eq!(e_id, id);
            assert_eq!(k, "never");
        },
        other => panic!("expected DelNonExistent, got {:?}", other),
    }
    assert_eq!(s.logs.len(), logs_before);
}

#[test]
fn type_tag_mismatch_on_get() {
    let mut s = Store::new();
    let id = s
        .create_event(
            "meeting".to_owned(),
            OptRepeated::Single(dt(1000)),
            sched::time::Duration::from_secs(3600),
            None,
            None,
        )
        .unwrap();
    let r = s.get_obj::<Task>(id);
    match r {
        Err(Error::TypeMismatch { expected, actual }) => {
            assert_eq!(expected, "task");
            assert_eq!(actual, "event");
        },
        other => panic!("expected TypeMismatch, got {:?}", other),
    }
    let r2 = s.get_obj::<State>(ObjId(999));
    assert!(matches!(r2, Err(Error::InvalidObjID(_))));
}

#[test]
fn export_import_round_trip() {
    let mut s = Store::new();
    let id = s.create_obj::<State>(State::new(), "x".to_owned(), None, None).unwrap();
    let mut attrs = Attrs::new();
    attrs.insert("k".to_owned(), AttrValue::Num(7));
    attrs.insert(
        "nested".to_owned(),
        AttrValue::Arr(vec![AttrValue::Bool(true), AttrValue::Dict(vec![(
            "inner".to_owned(),
            AttrValue::Str("v".to_owned()),
        )])]),
    );
    s.obj_set_desc(id, Some("described".to_owned())).unwrap();
    s.obj_set_attr(id, "k".to_owned(), AttrValue::Num(7)).unwrap();
    s.create_task(
        "t".to_owned(),
        None,
        Some(attrs),
        OptRepeated::Repeat(Repeated::new(
            vec![dt(100), dt(200)],
            Every::Time(sched::time::Duration::from_secs(1000)),
            Stop::Count(4),
        )),
        3,
    )
    .unwrap();
    let rebuilt = rebuilt_from_export(&s);
    // the log records come back unchanged
    assert_eq!(rebuilt.logs, s.logs);
    // the object records come back at their original ids, so every stored
    // cross-reference (a task's cache, an occurrence's parent) stays valid
    assert_eq!(rebuilt.objs, s.objs);
}

#[test]
fn import_keeps_task_references() {
    let mut s = Store::new();
    s.create_task(
        "t".to_owned(),
        None,
        None,
        OptRepeated::Repeat(Repeated::new(
            vec![dt(100)],
            Every::Time(sched::time::Duration::from_secs(1000)),
            Stop::Nonstop,
        )),
        1,
    )
    .unwrap();
    let rebuilt = rebuilt_from_export(&s);
    // walk every cached occurrence id in the rebuilt store: it must still
    // resolve to an occurrence of that task
    let mut found_task = false;
    for (id, slot) in rebuilt.objs.iter().enumerate() {
        if let Some(rec) = slot {
            if let sched::api::ObjPayload::Task(task) = &rec.payload {
                found_task = true;
                for cid in &task.cache {
                    let sub = rebuilt.get_obj::<sched::api::SubTask>(*cid).unwrap().inner;
                    assert_eq!(sub.task_id.0 as usize, id);
                }
            }
        }
    }
    assert!(found_task);
    // the singleton survives the round trip at id 0
    assert!(rebuilt.get_state().is_ok());
}

#[test]
fn seeding_repairs_the_singleton() {
    // an import of an export whose first record is not the singleton
    // leaves slot 0 without a state record; seeding restores it
    let mut donor = Store::new();
    donor.objs[0] = None;
    let data = donor.export();
    let mut s = Store::new();
    s.import(&data).unwrap();
    assert!(s.get_state().is_err());
    s.seed_state();
    assert!(s.get_state().is_ok());
    // seeding an intact store changes nothing
    let before = s.objs.len();
    s.seed_state();
    assert_eq!(s.objs.len(), before);
}

#[test]
fn append_reports_matching_handlers() {
    let mut s = Store::new();
    s.handlers.add_native("^task\\.").unwrap();
    s.handlers.add_native("finish").unwrap();
    let (_, matched) = s
        .append_log(sched::api::TaskFinish { id: ObjId(1) })
        .unwrap();
    assert_eq!(matched, vec![0, 1]);
    let (_, matched2) = s
        .append_log(sched::api::CreateObj { id: ObjId(1), typ: "task".to_owned() })
        .unwrap();
    assert!(matched2.is_empty());
}

#[test]
fn import_rejects_garbage() {
    let mut s = Store::new();
    let r = s.import(&[1, 2, 3]);
    assert!(matches!(r, Err(Error::Serde(_))));
}

#[test]
fn handlers_match_in_order() {
    let mut s = Store::new();
    assert!(matches!(
        s.handlers.add_native("[invalid"),
        Err(Error::Regex(_))
    ));
    s.handlers.add_native("^obj\\.").unwrap();
    s.handlers.add_native("create").unwrap();
    s.handlers.add_native("^task\\.").unwrap();
    let hit = s.handlers.matching("obj.create");
    assert_eq!(hit, vec![0, 1]);
    let hit2 = s.handlers.matching("task.finish");
    assert_eq!(hit2, vec![2]);
}

#[test]
fn string_keys_have_decimal_ids() {
    assert_eq!(sched::keys::log_id(17), "logs:17");
    assert_eq!(sched::keys::obj_id(0), "objs:0");
}

#[test]
fn state_round_trip() {
    let mut s = Store::new();
    let st = s.get_state().unwrap();
    assert!(st.last_notified.is_none());
    s.set_state(State { last_notified: Some(dt(42)) }).unwrap();
    assert_eq!(s.get_state().unwrap().last_notified, Some(dt(42)));
}

#[test]
fn log_scans_filter_order_and_limit() {
    let mut s = Store::new();
    let a = s.create_obj::<State>(State::new(), "a".to_owned(), None, None).unwrap();
    s.obj_set_desc(a, Some("d".to_owned())).unwrap();
    s.create_obj::<State>(State::new(), "b".to_owned(), None, None).unwrap();
    // logs: 1 create, 2 set-desc, 3 create
    let creates = s.find_log(|l: &sched::api::ScriptLog| l.typ == "obj.create", None);
    let ids: Vec<u32> = creates.iter().map(|l| l.id.0).collect();
    assert_eq!(ids, vec![3, 1]);
    let oldest = s.find_log_old(|l: &sched::api::ScriptLog| l.typ == "obj.create", Some(1));
    assert_eq!(oldest.len(), 1);
    assert_eq!(oldest[0].id.0, 1);
    let below = s.find_log_from(
        sched::api::LogId(3),
        |l: &sched::api::ScriptLog| l.typ == "obj.create",
        None,
    );
    let ids2: Vec<u32> = below.iter().map(|l| l.id.0).collect();
    assert_eq!(ids2, vec![1]);
    let upward = s.find_log_old_from(sched::api::LogId(2), |_: &sched::api::ScriptLog| true, None);
    let ids3: Vec<u32> = upward.iter().map(|l| l.id.0).collect();
    assert_eq!(ids3, vec![2, 3]);
}

#[test]
fn object_scans_by_kind() {
    let mut s = Store::new();
    s.create_obj::<State>(State::new(), "a".to_owned(), None, None).unwrap();
    s.create_event(
        "e".to_owned(),
        OptRepeated::Single(dt(10)),
        sched::time::Duration::from_secs(60),
        None,
        None,
    )
    .unwrap();
    let events = s.script_find_obj(|o: &sched::api::ScriptObj| o.typ == "event", None);
    assert_eq!(events.len(), 1);
    assert_eq!(events[0].name, "e");
    let all_new_first = s.script_find_obj(|_: &sched::api::ScriptObj| true, None);
    let ids: Vec<u32> = all_new_first.iter().map(|o| o.id.0).collect();
    assert_eq!(ids, vec![2, 1, 0]);
    let first_two_old = s.script_find_obj_old(|_: &sched::api::ScriptObj| true, Some(2));
    let ids2: Vec<u32> = first_two_old.iter().map(|o| o.id.0).collect();
    assert_eq!(ids2, vec![0, 1]);
}
