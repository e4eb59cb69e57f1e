//! The task scheduler: look-ahead generation of task occurrences, the
//! bounded FIFO occurrence cache, and the current-occurrence selector.
//!
//! A task owns a recurrence (`OptRepeated`) and a cache of the ids of its
//! generated `SubTask` occurrences, oldest first.  Creation pre-generates
//! up to `gen_ahead` occurrences; finishing one generates the next and
//! evicts the oldest id once the cache exceeds `cache_size + gen_ahead +
//! 1` (the bound is checked after insertion, so the cache may transiently
//! hold one extra entry before the eviction).  Finishing the same
//! occurrence twice advances the recurrence again, as a caller-visible
//! policy inherited from the store's history semantics.

use vstd::prelude::*;

use crate::api::{
    ids_view, Error, Event, LogPayloadV, ObjId, ObjPayload, ObjPayloadV, ObjRecV, SubTask,
    SubTaskV, Task, TaskFinish, TaskFlavor, TaskV,
};
use crate::attr::{attrs_wf, Attrs};
use crate::codec::opt_attrs_view;
use crate::recur::{rep_gen, rep_next_v, rep_v_wf, OptRepeated};
use crate::store::Store;
use crate::time::{now, DateTime};

verus! {

/// The ids a creation hands to the generated occurrences: consecutive,
/// starting right after the task's own id.
pub open spec fn consecutive_ids(first: int, k: nat) -> Seq<u32> {
    Seq::new(k, |j: int| (first + j) as u32)
}

/// The occurrence payload stored at a slot, if the slot holds one.
pub open spec fn subtask_at(objs: Seq<Option<ObjRecV>>, i: int) -> Option<SubTaskV> {
    if 0 <= i < objs.len() {
        match objs[i] {
            Some(r) => match r.payload {
                ObjPayloadV::SubTask(s) => Some(s),
                _ => None,
            },
            None => None,
        }
    } else {
        None
    }
}

/// The task payload stored at a slot, if the slot holds one.
pub open spec fn task_at(objs: Seq<Option<ObjRecV>>, i: int) -> Option<TaskV> {
    if 0 <= i < objs.len() {
        match objs[i] {
            Some(r) => match r.payload {
                ObjPayloadV::Task(t) => Some(t),
                _ => None,
            },
            None => None,
        }
    } else {
        None
    }
}

/// A slot that holds no record.
pub open spec fn slot_missing(objs: Seq<Option<ObjRecV>>, i: int) -> bool {
    i < 0 || i >= objs.len() || objs[i] is None
}

/// When finishing the occurrence at `id` is owed success: the slot holds
/// an occurrence record and its parent's slot holds a task record.
pub open spec fn finishable(objs: Seq<Option<ObjRecV>>, id: u32) -> bool {
    match subtask_at(objs, id as int) {
        Some(sub) => task_at(objs, sub.task_id as int) is Some,
        None => false,
    }
}

/// When the selector is owed a result: the slot holds a task record and
/// every cached id resolves to an occurrence record.
pub open spec fn selectable(objs: Seq<Option<ObjRecV>>, id: u32) -> bool {
    match task_at(objs, id as int) {
        Some(tk) => forall|j: int|
            0 <= j < tk.cache.len() ==> subtask_at(objs, #[trigger] tk.cache[j] as int) is Some,
        None => false,
    }
}

/// The occurrence record a generation step stores for a task.
pub open spec fn sub_rec(parent: u32, deadline: i64) -> ObjRecV {
    ObjRecV {
        name: "subtask"@,
        desc: None,
        attrs: None,
        payload: ObjPayloadV::SubTask(
            SubTaskV {
                task_id: parent,
                deadline,
                notifications: Seq::empty(),
                finished: None,
            },
        ),
    }
}

impl Store {
    /// Generate one occurrence object for the task `parent`.
    fn new_sub_task(&mut self, parent: ObjId, deadline: DateTime, at: DateTime) -> (r: ObjId)
        requires
            old(self).wf(),
            old(self).objs@.len() + 1 <= u32::MAX,
            old(self).logs@.len() + 1 <= u32::MAX,
        ensures
            final(self).wf(),
            r.0 == old(self).objs_v().len(),
            final(self).objs_v() == old(self).objs_v().push(Some(sub_rec(parent.0, deadline.secs))),
            final(self).logs_v().len() == old(self).logs_v().len() + 1,
            forall|i: int|
                0 <= i < old(self).logs_v().len() ==> final(self).logs_v()[i] == old(
                    self,
                ).logs_v()[i],
            final(self).logs_v().last().payload == (LogPayloadV::CreateObj {
                id: r.0,
                typ: "task.sub"@,
            }),
            final(self).logs_v().last().attrs is None,
            final(self).handlers == old(self).handlers,
    {
        let sub = SubTask::new(parent, deadline, Vec::new());
        proof {
            assert(sub@ =~= sub_rec(parent.0, deadline.secs).payload->SubTask_0) by {
                assert(crate::api::durs_view(Seq::<crate::time::Duration>::empty()) =~= Seq::<
                    i64,
                >::empty());
            }
        }
        let id = self.create_record_at(
            ObjPayload::SubTask(sub),
            "subtask".to_owned(),
            None,
            None,
            at,
        );
        proof {
            assert(final(self).objs_v() =~= old(self).objs_v().push(
                Some(sub_rec(parent.0, deadline.secs)),
            ));
        }
        id
    }

    /// Create a task object: for a one-off deadline exactly one occurrence
    /// is generated; for a recurrence up to `gen_ahead` occurrences are
    /// generated by stepping the schedule, which is stored back in its
    /// stepped state.  The occurrence ids fill the cache oldest first, and
    /// each generated object gets its own creation log before the task's.
    pub fn create_task(
        &mut self,
        name: String,
        desc: Option<String>,
        attrs: Option<Attrs>,
        deadline: OptRepeated,
        priority: u32,
    ) -> (r: Result<ObjId, Error>)
        requires
            old(self).wf(),
            old(self).objs@.len() + 7 <= u32::MAX,
            old(self).logs@.len() + 7 <= u32::MAX,
            match opt_attrs_view(&attrs) {
                Some(a) => attrs_wf(a),
                None => true,
            },
            deadline matches OptRepeated::Repeat(rep) ==> rep_v_wf(rep@),
        ensures
            final(self).wf(),
            final(self).handlers == old(self).handlers,
            r matches Ok(id) && id.0 == old(self).objs_v().len(),
            ({
                let id = old(self).objs_v().len() as int;
                let (ts, vfin) = match deadline@ {
                    crate::api::OptRepeatedV::Single(t) => (seq![t], deadline@),
                    crate::api::OptRepeatedV::Repeat(rv) => {
                        let (ts, vf) = rep_gen(rv, 5);
                        (ts, crate::api::OptRepeatedV::Repeat(vf))
                    },
                };
                let k = ts.len() as int;
                &&& final(self).objs_v().len() == id + 1 + k
                &&& (forall|i: int|
                    0 <= i < id ==> final(self).objs_v()[i] == old(self).objs_v()[i])
                &&& (forall|j: int|
                    0 <= j < k ==> final(self).objs_v()[id + 1 + j] == Some(
                        sub_rec(id as u32, ts[j]),
                    ))
                &&& ({
                    &&& final(self).objs_v()[id] matches Some(rec)
                    &&& rec.name == name@
                    &&& rec.desc == crate::codec::opt_string_view(&desc)
                    &&& rec.attrs == opt_attrs_view(&attrs)
                    &&& rec.payload == ObjPayloadV::Task(
                        TaskV {
                            deadline: vfin,
                            priority,
                            flavor: TaskFlavor::Deadline,
                            gen_ahead: 5,
                            cache_size: 10,
                            notifications: Seq::empty(),
                            cache: consecutive_ids(id + 1, k as nat),
                        },
                    )
                })
                &&& final(self).logs_v().len() == old(self).logs_v().len() + k + 1
                &&& (forall|i: int|
                    0 <= i < old(self).logs_v().len() ==> final(self).logs_v()[i] == old(
                        self,
                    ).logs_v()[i])
                &&& (forall|j: int|
                    0 <= j < k ==> (#[trigger] final(self).logs_v()[old(self).logs_v().len()
                        + j]).payload == (LogPayloadV::CreateObj {
                        id: (id + 1 + j) as u32,
                        typ: "task.sub"@,
                    }))
                &&& final(self).logs_v().last().payload == (LogPayloadV::CreateObj {
                    id: id as u32,
                    typ: "task"@,
                })
            }),
    {
        let at = now();
        let id = ObjId(self.objs.len() as u32);
        self.objs.push(None);
        proof {
            assert(self.objs_v() =~= old(self).objs_v().push(None));
        }
        let ghost base_objs = self.objs_v();
        let ghost base_logs = self.logs_v();
        proof {
            assert(crate::api::durs_view(Seq::<crate::time::Duration>::empty()) =~= Seq::<
                i64,
            >::empty());
        }
        match deadline {
            OptRepeated::Single(t) => {
                let sid = self.new_sub_task(id, t, at);
                let mut cache: Vec<ObjId> = Vec::new();
                cache.push(sid);
                let task = Task::new(OptRepeated::Single(t), priority, cache);
                proof {
                    assert(ids_view(task.cache@) =~= consecutive_ids(id.0 + 1, 1));
                    assert(task@.cache =~= consecutive_ids(id.0 + 1, 1));
                }
                let ghost tv = task@;
                let rec = crate::api::ObjRecord {
                    name,
                    desc,
                    attrs,
                    payload: ObjPayload::Task(task),
                };
                let ghost rv = rec@;
                proof {
                    assert(self.objs_v().len() == self.objs@.len());
                    assert(self.objs_v().len() == base_objs.len() + 1);
                    assert(id.0 + 2 == self.objs_v().len());
                }
                self.objs.set(id.0 as usize, Some(rec));
                proof {
                    assert(self.objs_v() =~= base_objs.push(Some(sub_rec(id.0, t.secs))).update(
                        id.0 as int,
                        Some(rv),
                    ));
                }
                self.append_record_at(
                    crate::api::LogPayload::CreateObj(
                        crate::api::CreateObj { id, typ: "task".to_owned() },
                    ),
                    None,
                    at,
                );
                proof {
                    assert(seq![t.secs][0] == t.secs);
                    assert forall|i: int| 0 <= i < id.0 implies self.objs_v()[i] == old(
                        self,
                    ).objs_v()[i] by {
                        assert(base_objs[i] == old(self).objs_v().push(None)[i]);
                    }
                }
                Ok(id)
            },
            OptRepeated::Repeat(rep) => {
                let mut rep = rep;
                let ghost v0 = rep@;
                let ghost gen = rep_gen(v0, 5);
                let mut cache: Vec<ObjId> = Vec::new();
                let mut j: usize = 0;
                let mut stopped = false;
                while j < 5 && !stopped
                    invariant
                        self.wf(),
                        rep.wf(),
                        0 <= j <= 5,
                        id.0 + 1 == base_objs.len(),
                        base_objs[id.0 as int] is None,
                        forall|i: int| 0 <= i < id.0 ==> base_objs[i] == old(self).objs_v()[i],
                        cache@.len() == j,
                        ids_view(cache@) == consecutive_ids(id.0 + 1, j as nat),
                        self.objs_v().len() == base_objs.len() + j,
                        forall|i: int|
                            0 <= i < base_objs.len() ==> self.objs_v()[i] == base_objs[i],
                        forall|x: int|
                            0 <= x < j ==> self.objs_v()[id.0 + 1 + x] == Some(
                                sub_rec(id.0, gen.0[x]),
                            ),
                        self.logs_v().len() == base_logs.len() + j,
                        forall|i: int| 0 <= i < base_logs.len() ==> self.logs_v()[i] == base_logs[i],
                        forall|x: int|
                            0 <= x < j ==> (#[trigger] self.logs_v()[base_logs.len() + x]).payload
                                == (LogPayloadV::CreateObj {
                                id: (id.0 + 1 + x) as u32,
                                typ: "task.sub"@,
                            }),
                        !stopped ==> j <= gen.0.len() && rep_gen(rep@, (5 - j) as nat) == (
                        gen.0.skip(j as int),
                        gen.1,
                        ),
                        stopped ==> j == gen.0.len() && rep@ == gen.1,
                        self.objs@.len() + (5 - j) + 1 <= u32::MAX,
                        self.logs@.len() + (5 - j) + 1 <= u32::MAX,
                        self.handlers == old(self).handlers,
                    decreases 5 - j, (if stopped { 0int } else { 1int }),
                {
                    let ghost pre_rep = rep@;
                    match rep.next() {
                        None => {
                            proof {
                                assert(rep_gen(pre_rep, (5 - j) as nat).0 =~= Seq::<i64>::empty());
                                assert(gen.0.skip(j as int) =~= Seq::<i64>::empty());
                                assert(gen.0 =~= gen.0.take(j as int));
                            }
                            stopped = true;
                        },
                        Some(t) => {
                            proof {
                                assert(rep_gen(pre_rep, (5 - j) as nat).0 == seq![t.secs]
                                    + rep_gen(rep@, (5 - (j + 1)) as nat).0);
                                assert(gen.0.skip(j as int)[0] == t.secs);
                                assert(gen.0[j as int] == t.secs);
                                assert(gen.0.skip(j as int).drop_first() =~= gen.0.skip(j + 1));
                                assert(rep_gen(rep@, (5 - (j + 1)) as nat).0 =~= gen.0.skip(j + 1));
                            }
                            let sid = self.new_sub_task(id, t, at);
                            proof {
                                assert(sid.0 == id.0 + 1 + j);
                            }
                            let ghost prec = cache@;
                            cache.push(sid);
                            proof {
                                assert(cache@ == prec.push(sid));
                                assert forall|x: int| 0 <= x < j + 1 implies ids_view(cache@)[x]
                                    == consecutive_ids(id.0 + 1, (j + 1) as nat)[x] by {
                                    if x < j {
                                        assert(cache@[x] == prec[x]);
                                        assert(ids_view(prec)[x] == consecutive_ids(
                                            id.0 + 1,
                                            j as nat,
                                        )[x]);
                                    } else {
                                        assert(cache@[x] == sid);
                                    }
                                }
                                assert(ids_view(cache@) =~= consecutive_ids(
                                    id.0 + 1,
                                    (j + 1) as nat,
                                ));
                            }
                            j = j + 1;
                        },
                    }
                }
                proof {
                    if !stopped {
                        assert(j == 5);
                        assert(rep_gen(rep@, 0) == (Seq::<i64>::empty(), rep@));
                        assert(gen.0.skip(5) =~= Seq::<i64>::empty());
                        assert(gen.0 =~= gen.0.take(5));
                    }
                    assert(cache@.len() == gen.0.len());
                    assert(rep@ == gen.1);
                }
                let ghost kfin = cache@.len() as int;
                let task = Task::new(OptRepeated::Repeat(rep), priority, cache);
                proof {
                    assert(task@.cache =~= consecutive_ids(id.0 + 1, kfin as nat));
                }
                let ghost tv = task@;
                let rec = crate::api::ObjRecord {
                    name,
                    desc,
                    attrs,
                    payload: ObjPayload::Task(task),
                };
                let ghost rv = rec@;
                let ghost pre_set = self.objs_v();
                proof {
                    assert(id.0 < self.objs@.len());
                }
                self.objs.set(id.0 as usize, Some(rec));
                proof {
                    assert(self.objs_v() =~= pre_set.update(id.0 as int, Some(rv)));
                }
                self.append_record_at(
                    crate::api::LogPayload::CreateObj(
                        crate::api::CreateObj { id, typ: "task".to_owned() },
                    ),
                    None,
                    at,
                );
                proof {
                    assert forall|i: int| 0 <= i < id.0 implies self.objs_v()[i] == old(
                        self,
                    ).objs_v()[i] by {
                        assert(self.objs_v()[i] == pre_set[i]);
                        assert(pre_set[i] == base_objs[i]);
                        assert(base_objs[i] == old(self).objs_v().push(None)[i]);
                    }
                }
                Ok(id)
            },
        }
    }
}


impl Store {
    /// Create an event object with a start schedule and a duration.
    pub fn create_event(
        &mut self,
        name: String,
        start: OptRepeated,
        duration: crate::time::Duration,
        desc: Option<String>,
        attrs: Option<Attrs>,
    ) -> (r: Result<ObjId, Error>)
        requires
            old(self).wf(),
            old(self).objs@.len() + 1 <= u32::MAX,
            old(self).logs@.len() + 1 <= u32::MAX,
            match opt_attrs_view(&attrs) {
                Some(a) => attrs_wf(a),
                None => true,
            },
        ensures
            final(self).wf(),
            final(self).handlers == old(self).handlers,
            r matches Ok(id) && id.0 == old(self).objs_v().len(),
            final(self).objs_v().len() == old(self).objs_v().len() + 1,
            forall|i: int|
                0 <= i < old(self).objs_v().len() ==> final(self).objs_v()[i] == old(
                    self,
                ).objs_v()[i],
            ({
                let rec = final(self).objs_v().last();
                &&& rec matches Some(rec)
                &&& rec.name == name@
                &&& rec.desc == crate::codec::opt_string_view(&desc)
                &&& rec.attrs == opt_attrs_view(&attrs)
                &&& rec.payload == ObjPayloadV::Event(
                    crate::api::EventV { start: start@, duration: duration.secs },
                )
            }),
            final(self).logs_v().len() == old(self).logs_v().len() + 1,
            forall|i: int|
                0 <= i < old(self).logs_v().len() ==> final(self).logs_v()[i] == old(
                    self,
                ).logs_v()[i],
            final(self).logs_v().last().payload == (LogPayloadV::CreateObj {
                id: old(self).objs_v().len() as u32,
                typ: "event"@,
            }),
    {
        self.create_obj::<Event>(Event { start, duration }, name, desc, attrs)
    }

    /// Finish one occurrence.  Its parent task is loaded; for a recurring
    /// task the schedule is stepped once and stored back, a fresh
    /// occurrence is generated if the step produced an instant, and the
    /// oldest cache entry is evicted if the cache then exceeds
    /// `cache_size + gen_ahead + 1`.  The occurrence is marked finished
    /// and one `TaskFinish` log is appended.  Finishing twice steps the
    /// schedule again (a deliberate, caller-visible policy).
    pub fn task_finish(&mut self, id: ObjId, finished: DateTime) -> (r: Result<(), Error>)
        requires
            old(self).wf(),
            old(self).objs@.len() + 1 <= u32::MAX,
            old(self).logs@.len() + 2 <= u32::MAX,
        ensures
            final(self).wf(),
            final(self).handlers == old(self).handlers,
            r is Ok <==> finishable(old(self).objs_v(), id.0),
            r is Err ==> final(self).objs == old(self).objs && final(self).logs == old(self).logs,
            r matches Err(e) ==> match e {
                Error::InvalidObjID(z) => (z == id && slot_missing(old(self).objs_v(), id.0 as int))
                    || (subtask_at(old(self).objs_v(), id.0 as int) matches Some(sub) && z == ObjId(
                    sub.task_id,
                ) && slot_missing(old(self).objs_v(), sub.task_id as int)),
                Error::TypeMismatch { expected, actual } => (expected@ == "task.sub"@
                    && !slot_missing(old(self).objs_v(), id.0 as int) && (old(self).objs_v()[
                    id.0 as int
                ] matches Some(rec) && actual@ == crate::api::obj_payload_tag(rec.payload)
                    && !(rec.payload is SubTask))) || (expected@ == "task"@ && (subtask_at(
                    old(self).objs_v(),
                    id.0 as int,
                ) matches Some(sub) && !slot_missing(old(self).objs_v(), sub.task_id as int) && (old(
                    self,
                ).objs_v()[sub.task_id as int] matches Some(rec) && actual@
                    == crate::api::obj_payload_tag(rec.payload) && !(rec.payload is Task)))),
                _ => false,
            },
            r is Ok ==> ({
                &&& subtask_at(old(self).objs_v(), id.0 as int) matches Some(sub)
                &&& task_at(old(self).objs_v(), sub.task_id as int) matches Some(tk)
                &&& id.0 < old(self).objs_v().len()
                &&& sub.task_id < old(self).objs_v().len()
                &&& final(self).objs_v().len() == old(self).objs_v().len() + (match tk.deadline {
                    crate::api::OptRepeatedV::Repeat(rv) => if rep_v_wf(rv) && rep_next_v(rv).1
                        is Some {
                        1int
                    } else {
                        0
                    },
                    _ => 0,
                })
                &&& (forall|i: int|
                    0 <= i < old(self).objs_v().len() && i != id.0 as int && i != sub.task_id as int
                        ==> final(self).objs_v()[i] == old(self).objs_v()[i])
                &&& (forall|i: int|
                    0 <= i < old(self).logs_v().len() ==> final(self).logs_v()[i] == old(
                        self,
                    ).logs_v()[i])
                &&& ({
                    &&& final(self).objs_v()[id.0 as int] matches Some(subr)
                    &&& old(self).objs_v()[id.0 as int] matches Some(oldsubr)
                    &&& subr.name == oldsubr.name
                    &&& subr.desc == oldsubr.desc
                    &&& subr.attrs == oldsubr.attrs
                })
                &&& (id.0 != sub.task_id ==> ({
                    &&& final(self).objs_v()[sub.task_id as int] matches Some(taskr)
                    &&& old(self).objs_v()[sub.task_id as int] matches Some(oldtaskr)
                    &&& taskr.name == oldtaskr.name
                    &&& taskr.desc == oldtaskr.desc
                    &&& taskr.attrs == oldtaskr.attrs
                }))
                &&& final(self).logs_v().len() == old(self).logs_v().len() + (match tk.deadline {
                    crate::api::OptRepeatedV::Repeat(rv) => if rep_v_wf(rv) && rep_next_v(rv).1
                        is Some {
                        2int
                    } else {
                        1
                    },
                    _ => 1,
                })
                &&& final(self).logs_v().last().payload == (LogPayloadV::TaskFinish { id: id.0 })
                &&& ({
                    &&& final(self).objs_v()[id.0 as int] matches Some(subr)
                    &&& subr.payload == ObjPayloadV::SubTask(
                        SubTaskV { finished: Some(finished.secs), ..sub },
                    )
                })
                &&& (match tk.deadline {
                    crate::api::OptRepeatedV::Repeat(rv) => if !rep_v_wf(rv) {
                        final(self).objs_v()[sub.task_id as int] == old(self).objs_v()[sub.task_id as int]
                    } else {
                        let (rv2, out) = rep_next_v(rv);
                        let cache2 = match out {
                            Some(_) => {
                                let cache1 = tk.cache.push(old(self).objs_v().len() as u32);
                                if cache1.len() > tk.cache_size + tk.gen_ahead + 1 {
                                    cache1.drop_first()
                                } else {
                                    cache1
                                }
                            },
                            None => tk.cache,
                        };
                        &&& (out is Some ==> final(self).objs_v()[old(self).objs_v().len() as int]
                            == Some(sub_rec(sub.task_id, out->0)))
                        &&& (out is Some ==> (#[trigger] final(self).logs_v()[old(
                            self,
                        ).logs_v().len() as int]).payload == (LogPayloadV::CreateObj {
                            id: old(self).objs_v().len() as u32,
                            typ: "task.sub"@,
                        }))
                        &&& ({
                            &&& final(self).objs_v()[sub.task_id as int] matches Some(taskr)
                            &&& taskr.payload == ObjPayloadV::Task(
                                TaskV {
                                    deadline: crate::api::OptRepeatedV::Repeat(rv2),
                                    cache: cache2,
                                    ..tk
                                },
                            )
                        })
                        &&& (tk.cache.len() <= tk.cache_size + tk.gen_ahead + 1 ==> cache2.len()
                            <= tk.cache_size + tk.gen_ahead + 1)
                    },
                    _ => sub.task_id != id.0 ==> final(self).objs_v()[sub.task_id as int] == old(
                        self,
                    ).objs_v()[sub.task_id as int],
                })
            }),
    {
        let sub_obj = match self.get_obj::<SubTask>(id) {
            Ok(o) => o,
            Err(e) => {
                return Err(e);
            },
        };
        let sub = sub_obj.inner;
        let tid = sub.task_id;
        let task_obj = match self.get_obj::<Task>(tid) {
            Ok(o) => o,
            Err(e) => {
                return Err(e);
            },
        };
        let mut task = task_obj.inner;
        let ghost subv = sub@;
        let ghost tkv = task@;
        proof {
            assert(subtask_at(old(self).objs_v(), id.0 as int) == Some(subv));
            assert(task_at(old(self).objs_v(), tid.0 as int) == Some(tkv));
        }
        if id.0 == tid.0 {
            // a record cannot be both an occurrence and a task
            proof {
                assert(false);
            }
            return Err(Error::InvalidObjID(id));
        }
        match task.deadline {
            OptRepeated::Repeat(rep) => {
                let mut rep = rep;
                let at = now();
                let wf_ok = rep.start.len() > 0 && rep.index < rep.start.len();
                proof {
                    assert(wf_ok == rep_v_wf(rep@));
                    assert(rep@ == tkv.deadline->Repeat_0);
                }
                if wf_ok {
                    let stepped = rep.next();
                    match stepped {
                        Some(t) => {
                            let nid = self.new_sub_task(tid, t, at);
                            let ghost c0 = task.cache@;
                            task.cache.push(nid);
                            proof {
                                assert(ids_view(task.cache@) =~= ids_view(c0).push(nid.0));
                            }
                            let ghost c1 = task.cache@;
                            let cl = task.cache.len();
                            let over = match task.cache_size.checked_add(task.gen_ahead) {
                                Some(b) => match b.checked_add(1) {
                                    Some(bound) => cl > bound,
                                    None => false,
                                },
                                None => false,
                            };
                            proof {
                                assert(over == (c1.len() > task.cache_size + task.gen_ahead + 1));
                            }
                            if over {
                                task.cache.remove(0);
                                proof {
                                    assert(ids_view(task.cache@) =~= ids_view(c1).drop_first());
                                }
                            }
                        },
                        None => {},
                    }
                }
                task.deadline = OptRepeated::Repeat(rep);
                let ghost tv2 = task@;
                match self.set_obj::<Task>(tid, task) {
                    Ok(_) => {},
                    Err(_) => {
                        proof {
                            assert(false);
                        }
                        return Err(Error::InvalidObjID(tid));
                    },
                }
                proof {
                    assert(self.objs_v()[tid.0 as int] matches Some(nr) && nr.payload
                        == ObjPayloadV::Task(tv2));
                }
                let sub2 = SubTask {
                    task_id: sub.task_id,
                    deadline: sub.deadline,
                    notifications: sub.notifications,
                    finished: Some(finished),
                };
                proof {
                    assert(sub2@ =~= (SubTaskV { finished: Some(finished.secs), ..subv }));
                }
                match self.set_obj::<SubTask>(id, sub2) {
                    Ok(_) => {},
                    Err(_) => {
                        proof {
                            assert(false);
                        }
                        return Err(Error::InvalidObjID(id));
                    },
                }
                let at2 = now();
                self.append_record_at(
                    crate::api::LogPayload::TaskFinish(TaskFinish { id }),
                    None,
                    at2,
                );
                proof {
                    if wf_ok {
                        let (rv2, out) = rep_next_v(tkv.deadline->Repeat_0);
                        assert(tv2.deadline == crate::api::OptRepeatedV::Repeat(rv2));
                        if out is Some {
                            let nid32 = old(self).objs_v().len() as u32;
                            let cache1 = tkv.cache.push(nid32);
                            assert(ids_view(task_obj.inner.cache@) == tkv.cache);
                            let cache2 = if cache1.len() > tkv.cache_size + tkv.gen_ahead + 1 {
                                cache1.drop_first()
                            } else {
                                cache1
                            };
                            assert(tv2.cache =~= cache2);
                            assert(tv2 =~= (TaskV {
                                deadline: crate::api::OptRepeatedV::Repeat(rv2),
                                cache: cache2,
                                ..tkv
                            }));
                        } else {
                            assert(tv2.cache =~= tkv.cache);
                            assert(tv2 =~= (TaskV {
                                deadline: crate::api::OptRepeatedV::Repeat(rv2),
                                cache: tkv.cache,
                                ..tkv
                            }));
                        }
                    } else {
                        assert(tv2 =~= tkv);
                    }
                }
                Ok(())
            },
            OptRepeated::Single(t) => {
                let sub2 = SubTask {
                    task_id: sub.task_id,
                    deadline: sub.deadline,
                    notifications: sub.notifications,
                    finished: Some(finished),
                };
                proof {
                    assert(sub2@ =~= (SubTaskV { finished: Some(finished.secs), ..subv }));
                }
                match self.set_obj::<SubTask>(id, sub2) {
                    Ok(_) => {},
                    Err(_) => {
                        proof {
                            assert(false);
                        }
                        return Err(Error::InvalidObjID(id));
                    },
                }
                let at2 = now();
                self.append_record_at(
                    crate::api::LogPayload::TaskFinish(TaskFinish { id }),
                    None,
                    at2,
                );
                Ok(())
            },
        }
    }
}


/// Truncating halving (toward zero), as the reference duration arithmetic
/// rounds.
pub open spec fn half_tz(d: int) -> int {
    if d >= 0 {
        d / 2
    } else {
        -((-d) / 2)
    }
}

/// Whether the occurrence with deadline `d0` still counts as current at
/// `at`, given the deadline `next` of the following unfinished occurrence
/// (if any): under `Deadline` it is current until five minutes past `d0`;
/// under `Balanced` until the midpoint between `d0` and `next`, and a last
/// occurrence is always current.
pub open spec fn occurrence_current(
    flavor: TaskFlavor,
    d0: int,
    next: Option<int>,
    at: int,
) -> bool {
    match flavor {
        TaskFlavor::Deadline => at < d0 + 300,
        TaskFlavor::Balanced => match next {
            None => true,
            Some(d1) => at < d0 + half_tz(d1 - d0),
        },
    }
}

/// The first unfinished occurrence that is still current, scanning oldest
/// first over the (id, deadline) pairs.
pub open spec fn select_current(ds: Seq<(u32, i64)>, flavor: TaskFlavor, at: int) -> Option<u32>
    decreases ds.len(),
{
    if ds.len() == 0 {
        None
    } else {
        let next: Option<int> = if ds.len() == 1 {
            None
        } else {
            Some(ds[1].1 as int)
        };
        if occurrence_current(flavor, ds[0].1 as int, next, at) {
            Some(ds[0].0)
        } else {
            select_current(ds.drop_first(), flavor, at)
        }
    }
}

/// The (id, deadline) pairs of the unfinished occurrences among the
/// cached ids, in cache order; meaningful when every cached id resolves
/// to an occurrence record.
pub open spec fn unfinished_pairs(objs: Seq<Option<ObjRecV>>, cache: Seq<u32>) -> Seq<(u32, i64)>
    decreases cache.len(),
{
    if cache.len() == 0 {
        Seq::empty()
    } else {
        let rest = unfinished_pairs(objs, cache.drop_first());
        match subtask_at(objs, cache[0] as int) {
            Some(st) => if st.finished is None {
                seq![(cache[0], st.deadline)] + rest
            } else {
                rest
            },
            None => rest,
        }
    }
}

proof fn lemma_unfinished_pairs_snoc(objs: Seq<Option<ObjRecV>>, cache: Seq<u32>, c: u32)
    ensures
        unfinished_pairs(objs, cache.push(c)) =~= unfinished_pairs(objs, cache) + (match subtask_at(
            objs,
            c as int,
        ) {
            Some(st) => if st.finished is None {
                seq![(c, st.deadline)]
            } else {
                Seq::empty()
            },
            None => Seq::empty(),
        }),
    decreases cache.len(),
{
    let t = cache.push(c);
    if cache.len() == 0 {
        assert(t[0] == c);
        assert(t.drop_first() =~= Seq::<u32>::empty());
        assert(unfinished_pairs(objs, t.drop_first()) =~= Seq::<(u32, i64)>::empty());
    } else {
        assert(t[0] == cache[0]);
        assert(t.drop_first() =~= cache.drop_first().push(c));
        lemma_unfinished_pairs_snoc(objs, cache.drop_first(), c);
    }
}

impl Store {
    /// The cached occurrence of the task at `id` that is active at the
    /// instant `at`: the oldest unfinished one still inside its window
    /// under the task's flavor, or `None` when every unfinished occurrence
    /// is past its window (or none is left).
    pub fn find_current_at(&self, id: ObjId, at: DateTime) -> (r: Result<Option<ObjId>, Error>)
        ensures
            r is Ok <==> selectable(self.objs_v(), id.0),
            match r {
                Ok(res) => ({
                    &&& task_at(self.objs_v(), id.0 as int) matches Some(tk)
                    &&& (forall|j: int|
                        0 <= j < tk.cache.len() ==> subtask_at(
                            self.objs_v(),
                            #[trigger] tk.cache[j] as int,
                        ) is Some)
                    &&& (match res {
                        Some(rid) => Some(rid.0) == select_current(
                            unfinished_pairs(self.objs_v(), tk.cache),
                            tk.flavor,
                            at.secs as int,
                        ),
                        None => select_current(
                            unfinished_pairs(self.objs_v(), tk.cache),
                            tk.flavor,
                            at.secs as int,
                        ) is None,
                    })
                }),
                Err(e) => match e {
                    Error::InvalidObjID(z) => (z == id && slot_missing(
                        self.objs_v(),
                        id.0 as int,
                    )) || (task_at(self.objs_v(), id.0 as int) matches Some(tk) && exists|j: int|
                        0 <= j < tk.cache.len() && z == ObjId(#[trigger] tk.cache[j])
                            && slot_missing(self.objs_v(), tk.cache[j] as int)),
                    Error::TypeMismatch { expected, actual } => (expected@ == "task"@
                        && !slot_missing(self.objs_v(), id.0 as int) && (self.objs_v()[
                        id.0 as int
                    ] matches Some(rec) && actual@ == crate::api::obj_payload_tag(rec.payload)
                        && !(rec.payload is Task))) || (expected@ == "task.sub"@ && (task_at(
                        self.objs_v(),
                        id.0 as int,
                    ) matches Some(tk) && exists|j: int|
                        0 <= j < tk.cache.len() && !slot_missing(
                            self.objs_v(),
                            #[trigger] tk.cache[j] as int,
                        ) && (self.objs_v()[tk.cache[j] as int] matches Some(rec) && actual@
                            == crate::api::obj_payload_tag(rec.payload) && !(rec.payload
                            is SubTask)))),
                    _ => false,
                },
            },
    {
        let task_obj = match self.get_obj::<Task>(id) {
            Ok(o) => o,
            Err(e) => {
                return Err(e);
            },
        };
        let task = task_obj.inner;
        let ghost tkv = task@;
        proof {
            assert(task_at(self.objs_v(), id.0 as int) == Some(tkv));
        }
        let n = task.cache.len();
        let mut pairs: Vec<(ObjId, i64)> = Vec::new();
        let mut i: usize = 0;
        while i < n
            invariant
                0 <= i <= n,
                n == task.cache@.len(),
                tkv == task@,
                tkv.cache == ids_view(task.cache@),
                task_at(self.objs_v(), id.0 as int) == Some(tkv),
                forall|j: int|
                    0 <= j < i ==> subtask_at(self.objs_v(), #[trigger] tkv.cache[j] as int)
                        is Some,
                Seq::new(pairs@.len(), |x: int| (pairs@[x].0.0, pairs@[x].1)) =~= unfinished_pairs(
                    self.objs_v(),
                    tkv.cache.take(i as int),
                ),
            decreases n - i,
        {
            let cid = task.cache[i];
            let sub = match self.get_obj::<SubTask>(cid) {
                Ok(o) => o.inner,
                Err(e) => {
                    proof {
                        assert(tkv.cache[i as int] == cid.0);
                        assert(subtask_at(self.objs_v(), cid.0 as int) is None);
                        assert(!selectable(self.objs_v(), id.0));
                        match &e {
                            Error::InvalidObjID(z) => {
                                assert(0 <= i < tkv.cache.len() && *z == ObjId(
                                    tkv.cache[i as int],
                                ) && slot_missing(self.objs_v(), tkv.cache[i as int] as int));
                            },
                            Error::TypeMismatch { expected, actual } => {
                                assert(0 <= i < tkv.cache.len() && !slot_missing(
                                    self.objs_v(),
                                    tkv.cache[i as int] as int,
                                ) && (self.objs_v()[tkv.cache[i as int] as int] matches Some(rec)
                                    && actual@ == crate::api::obj_payload_tag(rec.payload) && !(
                                rec.payload is SubTask)));
                            },
                            _ => {},
                        }
                    }
                    return Err(e);
                },
            };
            proof {
                assert(subtask_at(self.objs_v(), cid.0 as int) == Some(sub@));
                assert(tkv.cache[i as int] == cid.0);
                assert(tkv.cache.take(i + 1) =~= tkv.cache.take(i as int).push(cid.0));
                lemma_unfinished_pairs_snoc(self.objs_v(), tkv.cache.take(i as int), cid.0);
            }
            if sub.finished.is_none() {
                pairs.push((cid, sub.deadline.secs));
            }
            proof {
                assert(Seq::new(pairs@.len(), |x: int| (pairs@[x].0.0, pairs@[x].1))
                    =~= unfinished_pairs(self.objs_v(), tkv.cache.take(i + 1)));
            }
            i = i + 1;
        }
        let ghost ds = unfinished_pairs(self.objs_v(), tkv.cache);
        proof {
            assert(tkv.cache.take(n as int) =~= tkv.cache);
            assert(unfinished_pairs(self.objs_v(), tkv.cache.take(n as int)) == ds);
            assert(Seq::new(pairs@.len(), |x: int| (pairs@[x].0.0, pairs@[x].1)) =~= ds);
            assert(ds.skip(0) =~= ds);
        }
        let m = pairs.len();
        let mut k: usize = 0;
        while k < m
            invariant
                0 <= k <= m,
                m == pairs@.len(),
                tkv == task@,
                task_at(self.objs_v(), id.0 as int) == Some(tkv),
                forall|j: int|
                    0 <= j < tkv.cache.len() ==> subtask_at(
                        self.objs_v(),
                        #[trigger] tkv.cache[j] as int,
                    ) is Some,
                ds == unfinished_pairs(self.objs_v(), tkv.cache),
                ds =~= Seq::new(pairs@.len(), |x: int| (pairs@[x].0.0, pairs@[x].1)),
                select_current(ds, tkv.flavor, at.secs as int) == select_current(
                    ds.skip(k as int),
                    tkv.flavor,
                    at.secs as int,
                ),
            decreases m - k,
        {
            let d0 = pairs[k].1;
            proof {
                assert(ds.skip(k as int)[0] == (pairs@[k as int].0.0, pairs@[k as int].1));
                assert(tkv.flavor == task.flavor);
            }
            let current = match task.flavor {
                TaskFlavor::Deadline => {
                    let c = match d0.checked_add(300) {
                        Some(lim) => at.secs < lim,
                        None => true,
                    };
                    proof {
                        assert(c == (at.secs < d0 + 300));
                    }
                    c
                },
                TaskFlavor::Balanced => {
                    if k + 1 == m {
                        true
                    } else {
                        let d1 = pairs[k + 1].1;
                        let mid: i64 = if d1 >= d0 {
                            let u1 = #[verifier::truncate] (d1 as u64);
                            let u0 = #[verifier::truncate] (d0 as u64);
                            let ud = u1.wrapping_sub(u0);
                            proof {
                                assert(ud == d1 - d0) by (bit_vector)
                                    requires
                                        d1 >= d0,
                                        u1 == d1 as u64,
                                        u0 == d0 as u64,
                                        ud == u1.wrapping_sub(u0),
                                ;
                            }
                            let half = #[verifier::truncate] ((ud / 2) as i64);
                            proof {
                                assert(half == half_tz(d1 - d0));
                            }
                            d0 + half
                        } else {
                            let u1 = #[verifier::truncate] (d1 as u64);
                            let u0 = #[verifier::truncate] (d0 as u64);
                            let ud = u0.wrapping_sub(u1);
                            proof {
                                assert(ud == d0 - d1) by (bit_vector)
                                    requires
                                        d1 < d0,
                                        u1 == d1 as u64,
                                        u0 == d0 as u64,
                                        ud == u0.wrapping_sub(u1),
                                ;
                            }
                            let half = #[verifier::truncate] ((ud / 2) as i64);
                            proof {
                                assert((half as int) == -half_tz(d1 - d0));
                            }
                            d0 - half
                        };
                        proof {
                            assert(mid == d0 + half_tz(d1 - d0));
                        }
                        let c = at.secs < mid;
                        proof {
                            assert(c == (at.secs < d0 + half_tz(d1 - d0)));
                        }
                        c
                    }
                },
            };
            proof {
                let rest = ds.skip(k as int);
                assert(rest[0] == (pairs@[k as int].0.0, pairs@[k as int].1));
                if k + 1 < m {
                    assert(rest[1] == (pairs@[k + 1].0.0, pairs@[k + 1].1));
                }
                assert(rest.len() == m - k);
                let nxt: Option<int> = if rest.len() == 1 {
                    None
                } else {
                    Some(rest[1].1 as int)
                };
                match tkv.flavor {
                    TaskFlavor::Deadline => {
                        assert(occurrence_current(tkv.flavor, rest[0].1 as int, nxt, at.secs as int)
                            == (at.secs < rest[0].1 + 300));
                        assert(current == (at.secs < pairs@[k as int].1 + 300));
                    },
                    TaskFlavor::Balanced => {
                        if rest.len() == 1 {
                            assert(occurrence_current(
                                tkv.flavor,
                                rest[0].1 as int,
                                nxt,
                                at.secs as int,
                            ));
                            assert(current);
                        } else {
                            assert(occurrence_current(
                                tkv.flavor,
                                rest[0].1 as int,
                                nxt,
                                at.secs as int,
                            ) == (at.secs < pairs@[k as int].1 + half_tz(
                                pairs@[k + 1].1 - pairs@[k as int].1,
                            )));
                            assert(current == (at.secs < pairs@[k as int].1 + half_tz(
                                pairs@[k + 1].1 - pairs@[k as int].1,
                            )));
                        }
                    },
                }
                assert(current == occurrence_current(
                    tkv.flavor,
                    rest[0].1 as int,
                    nxt,
                    at.secs as int,
                ));
                if !current {
                    assert(rest.drop_first() =~= ds.skip(k + 1));
                }
            }
            if current {
                return Ok(Some(pairs[k].0));
            }
            k = k + 1;
        }
        proof {
            assert(ds.skip(m as int) =~= Seq::<(u32, i64)>::empty());
        }
        Ok(None)
    }

    /// `find_current_at` at the current wall-clock instant: success and
    /// the errors are owed exactly as there; only the instant the
    /// selection used is the clock's and not a parameter.
    pub fn find_current(&self, id: ObjId) -> (r: Result<Option<ObjId>, Error>)
        ensures
            r is Ok <==> selectable(self.objs_v(), id.0),
            r matches Err(e) ==> match e {
                Error::InvalidObjID(z) => (z == id && slot_missing(self.objs_v(), id.0 as int)) || (
                task_at(self.objs_v(), id.0 as int) matches Some(tk) && exists|j: int|
                    0 <= j < tk.cache.len() && z == ObjId(#[trigger] tk.cache[j]) && slot_missing(
                        self.objs_v(),
                        tk.cache[j] as int,
                    )),
                Error::TypeMismatch { expected, actual } => (expected@ == "task"@ && !slot_missing(
                    self.objs_v(),
                    id.0 as int,
                ) && (self.objs_v()[id.0 as int] matches Some(rec) && actual@
                    == crate::api::obj_payload_tag(rec.payload) && !(rec.payload is Task))) || (
                expected@ == "task.sub"@ && (task_at(self.objs_v(), id.0 as int) matches Some(tk)
                    && exists|j: int|
                    0 <= j < tk.cache.len() && !slot_missing(
                        self.objs_v(),
                        #[trigger] tk.cache[j] as int,
                    ) && (self.objs_v()[tk.cache[j] as int] matches Some(rec) && actual@
                        == crate::api::obj_payload_tag(rec.payload) && !(rec.payload
                        is SubTask)))),
                _ => false,
            },
            r matches Ok(res) ==> (task_at(self.objs_v(), id.0 as int) matches Some(tk)
                && exists|at: int|
                match res {
                    Some(rid) => Some(rid.0) == #[trigger] select_current(
                        unfinished_pairs(self.objs_v(), tk.cache),
                        tk.flavor,
                        at,
                    ),
                    None => select_current(
                        unfinished_pairs(self.objs_v(), tk.cache),
                        tk.flavor,
                        at,
                    ) is None,
                }),
    {
        let at = now();
        let r = self.find_current_at(id, at);
        proof {
            if r is Ok {
                assert(task_at(self.objs_v(), id.0 as int) matches Some(tk) && (match r->Ok_0 {
                    Some(rid) => Some(rid.0) == select_current(
                        unfinished_pairs(self.objs_v(), tk.cache),
                        tk.flavor,
                        at.secs as int,
                    ),
                    None => select_current(
                        unfinished_pairs(self.objs_v(), tk.cache),
                        tk.flavor,
                        at.secs as int,
                    ) is None,
                }));
            }
        }
        r
    }
}

} // verus!