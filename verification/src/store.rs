//! The record store: ordered log and object namespaces with atomic id
//! allocation, an audit trail for every object mutation, and bulk
//! export/import through the byte codec.
//!
//! Log ids count up from 1; object ids count up from 0, with id 0 reserved
//! for the singleton system-state object that `new` seeds.  Records are
//! never deleted; objects are only overwritten through the mutation
//! operations, each of which appends exactly one audit log.

use vstd::prelude::*;

use crate::api::{
    copy_opt_attrs, copy_opt_string, obj_payload_tag, log_payload_tag, ApiLog, ApiObj, CreateObj,
    Diff, DiffV, Error, Log, LogId, LogPayload, LogPayloadV, LogRecV, LogRecord, Obj, ObjId,
    ObjPayload, ObjPayloadV, ObjRecV, ObjRecord, ObjSetAttr, ObjSetDesc, ScriptLog, ScriptObj, State,
};
use crate::attr::{
    attrs_has_key, attrs_index_of, attrs_lookup, attrs_wf, AttrValue, AttrValueV, Attrs, AttrsV,
};
use crate::codec::{log_recs_view, opt_attrs_view, opt_string_view};
use crate::handler::LogHandlers;
use crate::time::{now, DateTime};

verus! {

/// The whole store: logs (id = position + 1), objects (id = position),
/// and the registered handler patterns.
pub struct Store {
    pub logs: Vec<LogRecord>,
    pub objs: Vec<Option<ObjRecord>>,
    pub handlers: LogHandlers,
}

/// The attribute maps of a record have unique keys.
pub open spec fn rec_attrs_wf(r: ObjRecV) -> bool {
    match r.attrs {
        Some(a) => attrs_wf(a),
        None => true,
    }
}

impl Store {
    /// The log records, in id order (the record of `LogId(k)` is at
    /// position `k - 1`).
    pub open spec fn logs_v(&self) -> Seq<LogRecV> {
        log_recs_view(self.logs@)
    }

    /// The object slots, in id order (the record of `ObjId(k)`, if any,
    /// is at position `k`).  The length is the next id to be allocated.
    pub open spec fn objs_v(&self) -> Seq<Option<ObjRecV>> {
        Seq::new(
            self.objs@.len(),
            |i: int|
                match self.objs@[i] {
                    Some(r) => Some(r@),
                    None => None,
                },
        )
    }

    /// Structural soundness: every stored attribute map has unique keys.
    pub open spec fn wf(&self) -> bool {
        forall|i: int|
            0 <= i < self.objs_v().len() ==> match #[trigger] self.objs_v()[i] {
                Some(r) => rec_attrs_wf(r),
                None => true,
            }
    }

    /// An open store with empty namespaces, the next log id at 1 and the
    /// next object id at 1, and the singleton state object seeded at id 0.
    pub fn new() -> (r: Store)
        ensures
            r.wf(),
            r.logs_v() == Seq::<LogRecV>::empty(),
            r.objs_v().len() == 1,
            r.objs_v()[0] matches Some(rec) && rec.payload == ObjPayloadV::State(
                crate::api::StateV { last_notified: None },
            ) && rec.name == "state"@ && rec.desc is None && rec.attrs is None,
            r.handlers@ == Seq::<Seq<char>>::empty(),
    {
        let state = ObjRecord {
            name: "state".to_owned(),
            desc: None,
            attrs: None,
            payload: ObjPayload::State(State::new()),
        };
        let mut objs: Vec<Option<ObjRecord>> = Vec::new();
        objs.push(Some(state));
        let r = Store { logs: Vec::new(), objs, handlers: LogHandlers::new() };
        proof {
            assert(r.logs_v() =~= Seq::<LogRecV>::empty());
            assert(r.objs_v()[0] matches Some(rec) && rec.payload == ObjPayloadV::State(
                crate::api::StateV { last_notified: None },
            ));
        }
        r
    }

    /// Make sure slot 0 holds the singleton state object, as a fresh open
    /// does: an empty slot table gains it, an empty or non-state record at
    /// 0 is replaced by a fresh one, and a store already holding it is
    /// untouched.  No log is appended: seeding belongs to opening, not to
    /// the audited mutations.
    pub fn seed_state(&mut self)
        requires
            old(self).wf(),
        ensures
            final(self).wf(),
            final(self).handlers == old(self).handlers,
            final(self).logs == old(self).logs,
            0 < final(self).objs_v().len(),
            final(self).objs_v()[0] matches Some(rec) && rec.payload is State,
            (0 < old(self).objs_v().len() && (old(self).objs_v()[0] matches Some(rec)
                && rec.payload is State)) ==> final(self).objs == old(self).objs,
            !(0 < old(self).objs_v().len() && (old(self).objs_v()[0] matches Some(rec)
                && rec.payload is State)) ==> ({
                &&& final(self).objs_v().len() == (if old(self).objs_v().len() == 0 {
                    1int
                } else {
                    old(self).objs_v().len() as int
                })
                &&& (forall|i: int|
                    1 <= i < old(self).objs_v().len() ==> final(self).objs_v()[i] == old(
                        self,
                    ).objs_v()[i])
                &&& final(self).objs_v()[0] == Some(
                    ObjRecV {
                        name: "state"@,
                        desc: None,
                        attrs: None,
                        payload: ObjPayloadV::State(crate::api::StateV { last_notified: None }),
                    },
                )
            }),
    {
        if self.objs.len() > 0 {
            let keep = match &self.objs[0] {
                Some(rec) => match &rec.payload {
                    ObjPayload::State(_) => true,
                    _ => false,
                },
                None => false,
            };
            if keep {
                return ;
            }
        }
        let rec = ObjRecord {
            name: "state".to_owned(),
            desc: None,
            attrs: None,
            payload: ObjPayload::State(State::new()),
        };
        let ghost rv = rec@;
        if self.objs.len() == 0 {
            self.objs.push(Some(rec));
            proof {
                assert(self.objs_v() =~= old(self).objs_v().push(Some(rv)));
            }
        } else {
            self.objs.set(0, Some(rec));
            proof {
                assert(self.objs_v() =~= old(self).objs_v().update(0, Some(rv)));
            }
        }
    }

    /// Append one log record stamped with the given instant; the returned
    /// id is one past the count of records the store held.  The record is
    /// stored before the handlers are consulted; the second result is then
    /// exactly the registered handlers whose pattern matches the appended
    /// record's type tag, in registration order.  Running the callbacks
    /// behind those indices is the caller's business (they are arbitrary
    /// host code), so a failing one can never roll back the already
    /// committed append or block the handlers after it.
    pub fn append_record_at(
        &mut self,
        payload: LogPayload,
        attrs: Option<Attrs>,
        at: DateTime,
    ) -> (r: (LogId, Vec<usize>))
        requires
            old(self).logs@.len() + 1 <= u32::MAX,
        ensures
            r.0.0 == old(self).logs_v().len() + 1,
            final(self).logs_v() == old(self).logs_v().push(
                LogRecV {
                    time: at.secs,
                    attrs: opt_attrs_view(&attrs),
                    payload: payload@,
                },
            ),
            final(self).objs == old(self).objs,
            final(self).handlers == old(self).handlers,
            forall|j: int|
                0 <= j < r.1@.len() ==> r.1@[j] < old(self).handlers@.len()
                    && crate::handler::regex_match(
                    old(self).handlers@[r.1@[j] as int],
                    log_payload_tag(payload@),
                ),
            forall|i: int|
                0 <= i < old(self).handlers@.len() && crate::handler::regex_match(
                    old(self).handlers@[i],
                    log_payload_tag(payload@),
                ) ==> r.1@.contains(i as usize),
            forall|a: int, b: int| 0 <= a < b < r.1@.len() ==> r.1@[a] < r.1@[b],
    {
        let id = LogId((self.logs.len() + 1) as u32);
        let tag = payload.tag_string();
        let ghost pv = payload@;
        let ghost av = opt_attrs_view(&attrs);
        self.logs.push(LogRecord { time: at, attrs, payload });
        proof {
            assert(final(self).logs_v() =~= old(self).logs_v().push(
                LogRecV { time: at.secs, attrs: av, payload: pv },
            ));
        }
        let matched = self.handlers.matching(tag.as_str());
        (id, matched)
    }

    /// Append a typed log with no attributes, stamped with the current
    /// wall-clock instant.  The record is stored first; the indices handed
    /// back with the id are exactly the registered handlers whose pattern
    /// matches the log's type tag, in registration order, for the caller
    /// to invoke (a failing callback cannot undo the append or skip the
    /// handlers after it, since the callbacks run outside).
    pub fn append_log<L: ApiLog + View>(&mut self, log: L) -> (r: Result<(LogId, Vec<usize>), Error>)
        requires
            old(self).logs@.len() + 1 <= u32::MAX,
        ensures
            r matches Ok(p) && p.0.0 == old(self).logs_v().len() + 1,
            final(self).logs_v().len() == old(self).logs_v().len() + 1,
            forall|i: int|
                0 <= i < old(self).logs_v().len() ==> final(self).logs_v()[i] == old(self).logs_v()[i],
            ({
                let rec = final(self).logs_v().last();
                L::of_payload_spec(rec.payload) == Some(log@) && log_payload_tag(rec.payload)
                    == L::log_type_spec() && rec.attrs is None
            }),
            r matches Ok(p) ==> (forall|j: int|
                0 <= j < p.1@.len() ==> p.1@[j] < old(self).handlers@.len()
                    && crate::handler::regex_match(
                    old(self).handlers@[p.1@[j] as int],
                    L::log_type_spec(),
                )) && (forall|i: int|
                0 <= i < old(self).handlers@.len() && crate::handler::regex_match(
                    old(self).handlers@[i],
                    L::log_type_spec(),
                ) ==> p.1@.contains(i as usize)) && (forall|a: int, b: int|
                0 <= a < b < p.1@.len() ==> p.1@[a] < p.1@[b]),
            final(self).objs == old(self).objs,
            final(self).handlers == old(self).handlers,
    {
        let at = now();
        let (id, matched) = self.append_record_at(log.into_payload(), None, at);
        Ok((id, matched))
    }

    /// Append a typed log carrying attributes, stamped with the current
    /// wall-clock instant.
    pub fn append_log_attr<L: ApiLog + View>(&mut self, log: L, attrs: Attrs) -> (r: Result<
        (LogId, Vec<usize>),
        Error,
    >)
        requires
            old(self).logs@.len() + 1 <= u32::MAX,
        ensures
            r matches Ok(p) && p.0.0 == old(self).logs_v().len() + 1,
            final(self).logs_v().len() == old(self).logs_v().len() + 1,
            forall|i: int|
                0 <= i < old(self).logs_v().len() ==> final(self).logs_v()[i] == old(self).logs_v()[i],
            ({
                let rec = final(self).logs_v().last();
                L::of_payload_spec(rec.payload) == Some(log@) && log_payload_tag(rec.payload)
                    == L::log_type_spec() && rec.attrs == Some(attrs@)
            }),
            final(self).objs == old(self).objs,
            final(self).handlers == old(self).handlers,
    {
        let at = now();
        let ghost av = attrs@;
        let (id, matched) = self.append_record_at(log.into_payload(), Some(attrs), at);
        Ok((id, matched))
    }

    /// Fetch a typed log record.  `InvalidLogID` if no record has the id;
    /// `TypeMismatch` (with both tags) if the stored tag is not `L`'s.
    pub fn get_log<L: ApiLog + View>(&self, id: LogId) -> (r: Result<Log<L>, Error>)
        ensures
            match r {
                Ok(log) => 1 <= id.0 <= self.logs_v().len() && ({
                    let rec = self.logs_v()[id.0 - 1];
                    log.id == id && log.time.secs == rec.time && opt_attrs_view(&log.attrs)
                        == rec.attrs && L::of_payload_spec(rec.payload) == Some(log.inner@)
                }),
                Err(e) => match e {
                    Error::InvalidLogID(e_id) => e_id == id && !(1 <= id.0 <= self.logs_v().len()),
                    Error::TypeMismatch { expected, actual } => 1 <= id.0 <= self.logs_v().len()
                        && expected@ == L::log_type_spec() && actual@ == log_payload_tag(
                        self.logs_v()[id.0 - 1].payload,
                    ) && L::of_payload_spec(self.logs_v()[id.0 - 1].payload) is None,
                    _ => false,
                },
            },
    {
        if id.0 < 1 || id.0 as usize > self.logs.len() {
            return Err(Error::InvalidLogID(id));
        }
        let rec = self.logs[(id.0 - 1) as usize].duplicate();
        let actual = rec.payload.tag_string();
        match L::of_payload(rec.payload) {
            Some(inner) => Ok(Log { id, time: rec.time, attrs: rec.attrs, inner }),
            None => Err(
                Error::TypeMismatch { expected: L::log_type() .to_owned(), actual },
            ),
        }
    }

    /// Create an object record at the next id and append the matching
    /// `CreateObj` audit log.
    pub fn create_record_at(
        &mut self,
        payload: ObjPayload,
        name: String,
        desc: Option<String>,
        attrs: Option<Attrs>,
        at: DateTime,
    ) -> (r: ObjId)
        requires
            old(self).wf(),
            old(self).objs@.len() + 1 <= u32::MAX,
            old(self).logs@.len() + 1 <= u32::MAX,
            match opt_attrs_view(&attrs) {
                Some(a) => attrs_wf(a),
                None => true,
            },
        ensures
            final(self).wf(),
            r.0 == old(self).objs_v().len(),
            final(self).objs_v() == old(self).objs_v().push(
                Some(
                    ObjRecV {
                        name: name@,
                        desc: opt_string_view(&desc),
                        attrs: opt_attrs_view(&attrs),
                        payload: payload@,
                    },
                ),
            ),
            final(self).logs_v() == old(self).logs_v().push(
                LogRecV {
                    time: at.secs,
                    attrs: None,
                    payload: LogPayloadV::CreateObj {
                        id: r.0,
                        typ: obj_payload_tag(payload@),
                    },
                },
            ),
            final(self).handlers == old(self).handlers,
    {
        let id = ObjId(self.objs.len() as u32);
        let typ = payload.tag_string();
        let ghost pv = payload@;
        let ghost rv = ObjRecV {
            name: name@,
            desc: opt_string_view(&desc),
            attrs: opt_attrs_view(&attrs),
            payload: pv,
        };
        self.objs.push(Some(ObjRecord { name, desc, attrs, payload }));
        proof {
            assert(self.objs_v() =~= old(self).objs_v().push(Some(rv)));
        }
        self.append_record_at(
            LogPayload::CreateObj(CreateObj { id, typ }),
            None,
            at,
        );
        id
    }

    /// Create a typed object: allocate the next id, persist, log
    /// `CreateObj`, return the id.
    pub fn create_obj<O: ApiObj + View>(
        &mut self,
        obj: O,
        name: String,
        desc: Option<String>,
        attrs: Option<Attrs>,
    ) -> (r: Result<ObjId, Error>)
        requires
            old(self).wf(),
            old(self).objs@.len() + 1 <= u32::MAX,
            old(self).logs@.len() + 1 <= u32::MAX,
            match opt_attrs_view(&attrs) {
                Some(a) => attrs_wf(a),
                None => true,
            },
        ensures
            final(self).wf(),
            r matches Ok(id) && id.0 == old(self).objs_v().len(),
            final(self).objs_v().len() == old(self).objs_v().len() + 1,
            forall|i: int|
                0 <= i < old(self).objs_v().len() ==> final(self).objs_v()[i] == old(self).objs_v()[i],
            ({
                let rec = final(self).objs_v().last();
                rec matches Some(rec) && rec.name == name@ && rec.desc == opt_string_view(&desc)
                    && rec.attrs == opt_attrs_view(&attrs) && O::of_payload_spec(rec.payload)
                    == Some(obj@) && obj_payload_tag(rec.payload) == O::obj_type_spec()
            }),
            final(self).logs_v().len() == old(self).logs_v().len() + 1,
            forall|i: int|
                0 <= i < old(self).logs_v().len() ==> final(self).logs_v()[i] == old(self).logs_v()[i],
            final(self).logs_v().last() == (LogRecV {
                time: final(self).logs_v().last().time,
                attrs: None,
                payload: LogPayloadV::CreateObj {
                    id: old(self).objs_v().len() as u32,
                    typ: O::obj_type_spec(),
                },
            }),
            final(self).handlers == old(self).handlers,
    {
        let at = now();
        let id = self.create_record_at(obj.into_payload(), name, desc, attrs, at);
        Ok(id)
    }

    /// Fetch a typed object.  `InvalidObjID` if no record has the id;
    /// `TypeMismatch` (with both tags) if the stored tag is not `O`'s.
    pub fn get_obj<O: ApiObj + View>(&self, id: ObjId) -> (r: Result<Obj<O>, Error>)
        ensures
            match r {
                Ok(obj) => id.0 < self.objs_v().len() && ({
                    &&& self.objs_v()[id.0 as int] matches Some(rec)
                    &&& obj.id == id
                    &&& obj.name@ == rec.name
                    &&& opt_string_view(&obj.desc) == rec.desc
                    &&& opt_attrs_view(&obj.attrs) == rec.attrs
                    &&& O::of_payload_spec(rec.payload) == Some(obj.inner@)
                }),
                Err(e) => match e {
                    Error::InvalidObjID(e_id) => e_id == id && (id.0 >= self.objs_v().len()
                        || self.objs_v()[id.0 as int] is None),
                    Error::TypeMismatch { expected, actual } => id.0 < self.objs_v().len() && ({
                        &&& self.objs_v()[id.0 as int] matches Some(rec)
                        &&& expected@ == O::obj_type_spec()
                        &&& actual@ == obj_payload_tag(rec.payload)
                        &&& O::of_payload_spec(rec.payload) is None
                    }),
                    _ => false,
                },
            },
    {
        if id.0 as usize >= self.objs.len() {
            return Err(Error::InvalidObjID(id));
        }
        let rec = match &self.objs[id.0 as usize] {
            None => {
                return Err(Error::InvalidObjID(id));
            },
            Some(rec) => rec.duplicate(),
        };
        let actual = rec.payload.tag_string();
        match O::of_payload(rec.payload) {
            Some(inner) => Ok(
                Obj { id, name: rec.name, desc: rec.desc, attrs: rec.attrs, inner },
            ),
            None => Err(
                Error::TypeMismatch { expected: O::obj_type() .to_owned(), actual },
            ),
        }
    }

    /// Overwrite an object's payload in place; the name, description and
    /// attributes stay, and no log is appended.
    pub fn set_obj<O: ApiObj + View>(&mut self, id: ObjId, obj: O) -> (r: Result<(), Error>)
        requires
            old(self).wf(),
        ensures
            final(self).wf(),
            final(self).logs == old(self).logs,
            final(self).handlers == old(self).handlers,
            match r {
                Ok(_) => id.0 < old(self).objs_v().len() && old(self).objs_v()[id.0 as int]
                    is Some && final(self).objs_v().len() == old(self).objs_v().len() && (forall|
                    i: int|
                    0 <= i < old(self).objs_v().len() && i != id.0 as int ==> final(self).objs_v()[i] == old(self).objs_v()[i]) && ({
                    &&& final(self).objs_v()[id.0 as int] matches Some(newr)
                    &&& old(self).objs_v()[id.0 as int] matches Some(oldr)
                    &&& newr.name == oldr.name
                    &&& newr.desc == oldr.desc
                    &&& newr.attrs == oldr.attrs
                    &&& O::of_payload_spec(newr.payload) == Some(obj@)
                    &&& obj_payload_tag(newr.payload) == O::obj_type_spec()
                }),
                Err(e) => e == Error::InvalidObjID(id) && (id.0 >= old(self).objs_v().len() || old(self).objs_v()[id.0 as int] is None) && final(self).objs == old(self).objs,
            },
    {
        if id.0 as usize >= self.objs.len() {
            return Err(Error::InvalidObjID(id));
        }
        let rec = match &self.objs[id.0 as usize] {
            None => {
                return Err(Error::InvalidObjID(id));
            },
            Some(rec) => rec,
        };
        let newrec = ObjRecord {
            name: rec.name.clone(),
            desc: crate::api::copy_opt_string(&rec.desc),
            attrs: crate::api::copy_opt_attrs(&rec.attrs),
            payload: obj.into_payload(),
        };
        let ghost nrv = newrec@;
        self.objs.set(id.0 as usize, Some(newrec));
        proof {
            assert(self.objs_v() =~= old(self).objs_v().update(id.0 as int, Some(nrv)));
        }
        Ok(())
    }

    /// Read the singleton state object.  Succeeds exactly when slot 0
    /// holds a record of the state kind.
    pub fn get_state(&self) -> (r: Result<State, Error>)
        ensures
            r is Ok <==> (0 < self.objs_v().len() && (self.objs_v()[0] matches Some(rec)
                && rec.payload is State)),
            match r {
                Ok(st) => 0 < self.objs_v().len() && ({
                    &&& self.objs_v()[0] matches Some(rec)
                    &&& rec.payload == ObjPayloadV::State(st@)
                }),
                Err(e) => match e {
                    Error::InvalidObjID(z) => z == ObjId(0) && (self.objs_v().len() == 0
                        || self.objs_v()[0] is None),
                    Error::TypeMismatch { expected, actual } => 0 < self.objs_v().len() && ({
                        &&& self.objs_v()[0] matches Some(rec)
                        &&& expected@ == "sys.state"@
                        &&& actual@ == obj_payload_tag(rec.payload)
                        &&& !(rec.payload is State)
                    }),
                    _ => false,
                },
            },
    {
        match self.get_obj::<State>(ObjId(0)) {
            Ok(obj) => Ok(obj.inner),
            Err(e) => Err(e),
        }
    }

    /// Write the singleton state object back.  Succeeds exactly when slot
    /// 0 holds a record; its payload becomes the given state and its other
    /// fields stay.
    pub fn set_state(&mut self, state: State) -> (r: Result<(), Error>)
        requires
            old(self).wf(),
        ensures
            final(self).wf(),
            final(self).logs == old(self).logs,
            final(self).handlers == old(self).handlers,
            r is Ok <==> (0 < old(self).objs_v().len() && old(self).objs_v()[0] is Some),
            r matches Ok(_) ==> 0 < old(self).objs_v().len() && final(self).objs_v().len() == old(self).objs_v().len() && (forall|i: int|
                0 < i < old(self).objs_v().len() ==> final(self).objs_v()[i] == old(self).objs_v()[i]) && (final(self).objs_v()[0] matches Some(rec) && rec.payload
                == ObjPayloadV::State(state@)),
            r matches Err(e) ==> e == Error::InvalidObjID(ObjId(0)) && final(self).objs == old(
                self,
            ).objs,
    {
        self.set_obj::<State>(ObjId(0), state)
    }
}


/// An attribute key is valid when its UTF-8 form holds no `.` byte (the
/// dot is reserved for nested-path addressing by the encoding layer).
pub open spec fn key_valid(k: Seq<char>) -> bool {
    forall|i: int|
        0 <= i < vstd::utf8::encode_utf8(k).len() ==> vstd::utf8::encode_utf8(k)[i] != 46u8
}

/// Whether a key is free of the reserved `.`.
pub fn check_key(k: &str) -> (r: bool)
    ensures
        r == key_valid(k@),
{
    let bytes = k.as_bytes();
    let n = bytes.len();
    let mut i: usize = 0;
    while i < n
        invariant
            0 <= i <= n,
            n == bytes@.len(),
            bytes@ == vstd::utf8::encode_utf8(k@),
            forall|j: int| 0 <= j < i ==> bytes@[j] != 46u8,
        decreases n - i,
    {
        if bytes[i] == 46u8 {
            return false;
        }
        i = i + 1;
    }
    true
}

/// The description diff for a change from `o` to `n`, where not both are
/// absent: newly set, removed, or changed.
pub open spec fn desc_diff(o: Option<Seq<char>>, n: Option<Seq<char>>) -> DiffV<Seq<char>> {
    match (o, n) {
        (Some(ov), Some(nv)) => DiffV::Diff(ov, nv),
        (None, Some(nv)) => DiffV::New(nv),
        (Some(ov), None) => DiffV::Del(ov),
        (None, None) => DiffV::New(Seq::empty()),
    }
}

/// The attribute diff for a change from `o` to `n`, as `desc_diff`.
pub open spec fn attr_diff(o: Option<AttrValueV>, n: Option<AttrValueV>) -> DiffV<AttrValueV> {
    match (o, n) {
        (Some(ov), Some(nv)) => DiffV::Diff(ov, nv),
        (None, Some(nv)) => DiffV::New(nv),
        (Some(ov), None) => DiffV::Del(ov),
        (None, None) => DiffV::New(AttrValueV::Bool(false)),
    }
}


/// The attribute map a record holds (an absent map reads as empty).
pub open spec fn stored_attrs(r: ObjRecV) -> AttrsV {
    match r.attrs {
        Some(a) => a,
        None => Seq::empty(),
    }
}

/// When a set (`newv` given) or delete (`newv` absent) of `attr` on the
/// object at `id` is owed success: the key is valid for a set, the slot
/// holds a record, and for a delete the key is present.
pub open spec fn attr_writable(
    objs: Seq<Option<ObjRecV>>,
    id: u32,
    attr: Seq<char>,
    newv: Option<AttrValueV>,
) -> bool {
    &&& (newv is Some ==> key_valid(attr))
    &&& id < objs.len()
    &&& objs[id as int] is Some
    &&& (newv is None ==> (objs[id as int] matches Some(oldr) && attrs_has_key(
        stored_attrs(oldr),
        attr,
    )))
}

/// The full effect of one attribute write: the value under `attr` becomes
/// `newv` with every other key and field untouched, every other slot
/// untouched, and exactly one `ObjSetAttr` log appended with the exact
/// diff from the old value to the new.
pub open spec fn attr_write_effect(
    pre_objs: Seq<Option<ObjRecV>>,
    pre_logs: Seq<LogRecV>,
    post_objs: Seq<Option<ObjRecV>>,
    post_logs: Seq<LogRecV>,
    id: u32,
    attr: Seq<char>,
    newv: Option<AttrValueV>,
) -> bool {
    &&& id < pre_objs.len()
    &&& pre_objs[id as int] matches Some(oldr)
    &&& ({
        let olda = stored_attrs(oldr);
        let oldv = attrs_lookup(olda, attr);
        &&& post_objs.len() == pre_objs.len()
        &&& (forall|i: int|
            0 <= i < pre_objs.len() && i != id as int ==> post_objs[i] == pre_objs[i])
        &&& post_objs[id as int] matches Some(newr)
        &&& newr.name == oldr.name
        &&& newr.desc == oldr.desc
        &&& newr.payload == oldr.payload
        &&& newr.attrs matches Some(newa)
        &&& attrs_wf(newa)
        &&& attrs_lookup(newa, attr) == newv
        &&& (forall|k: Seq<char>| k != attr ==> attrs_lookup(newa, k) == attrs_lookup(olda, k))
        &&& post_logs.len() == pre_logs.len() + 1
        &&& (forall|i: int| 0 <= i < pre_logs.len() ==> post_logs[i] == pre_logs[i])
        &&& post_logs.last().payload == LogPayloadV::ObjSetAttr {
            id,
            attr,
            diff: attr_diff(oldv, newv),
        }
    })
}

/// Why an attribute write was refused, tied to its cause.
pub open spec fn attr_write_refusal(
    objs: Seq<Option<ObjRecV>>,
    id: u32,
    attr: Seq<char>,
    newv: Option<AttrValueV>,
    e: Error,
) -> bool {
    match e {
        Error::InvalidObjID(z) => z == ObjId(id) && (id >= objs.len() || objs[id as int] is None),
        Error::InvalidKey(k) => k@ == attr && !key_valid(attr) && newv is Some,
        Error::DelNonExistent(z, k) => z == ObjId(id) && k@ == attr && newv is None && id
            < objs.len() && (objs[id as int] matches Some(oldr) && !attrs_has_key(
            stored_attrs(oldr),
            attr,
        )),
        _ => false,
    }
}

impl Store {
    /// Set or clear an object's description.  When both the stored and
    /// the given description are absent nothing changes and no log is
    /// appended; otherwise the record is updated and one `ObjSetDesc` log
    /// with the exact diff (`New`, `Del`, or `Diff` old-to-new) is
    /// appended.
    pub fn obj_set_desc(&mut self, id: ObjId, desc: Option<String>) -> (r: Result<(), Error>)
        requires
            old(self).wf(),
            old(self).logs@.len() + 1 <= u32::MAX,
        ensures
            final(self).wf(),
            final(self).handlers == old(self).handlers,
            match r {
                Ok(_) => id.0 < old(self).objs_v().len() && ({
                    &&& old(self).objs_v()[id.0 as int] matches Some(oldr)
                    &&& if oldr.desc is None && opt_string_view(&desc) is None {
                        final(self).objs == old(self).objs && final(self).logs == old(self).logs
                    } else {
                        &&& final(self).objs_v() == old(self).objs_v().update(
                            id.0 as int,
                            Some(ObjRecV { desc: opt_string_view(&desc), ..oldr }),
                        )
                        &&& final(self).logs_v().len() == old(self).logs_v().len() + 1
                        &&& (forall|i: int|
                            0 <= i < old(self).logs_v().len() ==> final(self).logs_v()[i] == old(self).logs_v()[i])
                        &&& final(self).logs_v().last().payload == LogPayloadV::ObjSetDesc {
                            id: id.0,
                            diff: desc_diff(oldr.desc, opt_string_view(&desc)),
                        }
                        &&& final(self).logs_v().last().attrs is None
                    }
                }),
                Err(e) => e == Error::InvalidObjID(id) && (id.0 >= old(self).objs_v().len() || old(self).objs_v()[id.0 as int] is None) && final(self).objs == old(self).objs && final(self).logs == old(self).logs,
            },
    {
        if id.0 as usize >= self.objs.len() {
            return Err(Error::InvalidObjID(id));
        }
        let ghost newdv = opt_string_view(&desc);
        let desc_for_log = copy_opt_string(&desc);
        let (newrec, old_desc) = match &self.objs[id.0 as usize] {
            None => {
                return Err(Error::InvalidObjID(id));
            },
            Some(rec) => {
                if rec.desc.is_none() && desc.is_none() {
                    return Ok(());
                }
                let old_desc = copy_opt_string(&rec.desc);
                (
                    ObjRecord {
                        name: rec.name.clone(),
                        desc,
                        attrs: copy_opt_attrs(&rec.attrs),
                        payload: rec.payload.duplicate(),
                    },
                    old_desc,
                )
            },
        };
        let ghost nrv = newrec@;
        self.objs.set(id.0 as usize, Some(newrec));
        proof {
            assert(self.objs_v() =~= old(self).objs_v().update(id.0 as int, Some(nrv)));
            assert(old(self).objs_v()[id.0 as int] matches Some(oldr) && nrv =~= (ObjRecV {
                desc: newdv,
                ..oldr
            }));
        }
        let diff: Diff<String> = match (old_desc, desc_for_log) {
            (Some(o), Some(n)) => Diff::Diff(o, n),
            (None, Some(n)) => Diff::New(n),
            (Some(o), None) => Diff::Del(o),
            (None, None) => {
                proof {
                    assert(false);
                }
                Diff::New(String::new())
            },
        };
        let at = now();
        self.append_record_at(LogPayload::ObjSetDesc(ObjSetDesc { id, diff }), None, at);
        Ok(())
    }

    /// Set (`val` given) or delete (`val` absent) one attribute; the
    /// shared discipline behind `obj_set_attr` and `obj_del_attr`.
    fn obj_set_attr_raw(&mut self, id: ObjId, attr: String, val: Option<AttrValue>) -> (r: Result<
        (),
        Error,
    >)
        requires
            old(self).wf(),
            old(self).logs@.len() + 1 <= u32::MAX,
        ensures
            final(self).wf(),
            final(self).handlers == old(self).handlers,
            r is Ok <==> attr_writable(
                old(self).objs_v(),
                id.0,
                attr@,
                match &val {
                    Some(v) => Some(v@),
                    None => None,
                },
            ),
            r is Ok ==> attr_write_effect(
                old(self).objs_v(),
                old(self).logs_v(),
                final(self).objs_v(),
                final(self).logs_v(),
                id.0,
                attr@,
                match &val {
                    Some(v) => Some(v@),
                    None => None,
                },
            ),
            r matches Err(e) ==> final(self).objs == old(self).objs && final(self).logs == old(
                self,
            ).logs && attr_write_refusal(
                old(self).objs_v(),
                id.0,
                attr@,
                match &val {
                    Some(v) => Some(v@),
                    None => None,
                },
                e,
            ),
    {
        if val.is_some() && !check_key(attr.as_str()) {
            return Err(Error::InvalidKey(attr));
        }
        if id.0 as usize >= self.objs.len() {
            return Err(Error::InvalidObjID(id));
        }
        let val_for_log = match &val {
            Some(v) => Some(v.duplicate()),
            None => None,
        };
        let (name, desc, payload, mut attrs) = match &self.objs[id.0 as usize] {
            None => {
                return Err(Error::InvalidObjID(id));
            },
            Some(rec) => {
                let attrs = match &rec.attrs {
                    Some(a) => a.duplicate(),
                    None => Attrs::new(),
                };
                (
                    rec.name.clone(),
                    copy_opt_string(&rec.desc),
                    rec.payload.duplicate(),
                    attrs,
                )
            },
        };
        proof {
            assert(old(self).objs_v()[id.0 as int] matches Some(oldr) && attrs@ == match oldr.attrs {
                Some(a) => a,
                None => Seq::empty(),
            }) by {
                assert(Seq::new(0, |i: int| (Seq::empty(), AttrValueV::Bool(false))) =~= Seq::<
                    (Seq<char>, AttrValueV),
                >::empty());
            }
            assert(attrs_wf(attrs@));
        }
        let old_val = match val {
            Some(v) => {
                let prev = attrs.insert(attr.clone(), v);
                prev
            },
            None => {
                if !attrs.contains_key(attr.as_str()) {
                    return Err(Error::DelNonExistent(id, attr));
                }
                attrs.remove(attr.as_str())
            },
        };
        proof {
            crate::attr::lemma_lookup_some_iff_has_key(attrs@, attr@);
        }
        let newrec = ObjRecord { name, desc, attrs: Some(attrs), payload };
        let ghost nrv = newrec@;
        self.objs.set(id.0 as usize, Some(newrec));
        proof {
            assert(self.objs_v() =~= old(self).objs_v().update(id.0 as int, Some(nrv)));
        }
        let diff: Diff<AttrValue> = match (old_val, val_for_log) {
            (Some(o), Some(n)) => Diff::Diff(o, n),
            (None, Some(n)) => Diff::New(n),
            (Some(o), None) => Diff::Del(o),
            (None, None) => {
                proof {
                    assert(false);
                }
                Diff::New(AttrValue::Bool(false))
            },
        };
        let at = now();
        self.append_record_at(
            LogPayload::ObjSetAttr(ObjSetAttr { id, attr, diff }),
            None,
            at,
        );
        Ok(())
    }

    /// Set one attribute: the stored value under the key becomes `val`
    /// with everything else untouched, and one `ObjSetAttr` log carries the
    /// exact diff.  A key holding `.` is rejected with `InvalidKey`, an
    /// unknown id with `InvalidObjID`; success is owed otherwise.
    pub fn obj_set_attr(&mut self, id: ObjId, attr: String, val: AttrValue) -> (r: Result<
        (),
        Error,
    >)
        requires
            old(self).wf(),
            old(self).logs@.len() + 1 <= u32::MAX,
        ensures
            final(self).wf(),
            final(self).handlers == old(self).handlers,
            r is Ok <==> attr_writable(old(self).objs_v(), id.0, attr@, Some(val@)),
            r is Ok ==> attr_write_effect(
                old(self).objs_v(),
                old(self).logs_v(),
                final(self).objs_v(),
                final(self).logs_v(),
                id.0,
                attr@,
                Some(val@),
            ),
            r matches Err(e) ==> final(self).objs == old(self).objs && final(self).logs == old(
                self,
            ).logs && attr_write_refusal(old(self).objs_v(), id.0, attr@, Some(val@), e),
    {
        self.obj_set_attr_raw(id, attr, Some(val))
    }

    /// Delete one attribute: the key is removed from the stored map with
    /// everything else untouched, and one `ObjSetAttr` log carries the
    /// `Del` diff with the removed value.  A key never set on the object
    /// fails with `DelNonExistent` and appends no log; an unknown id fails
    /// with `InvalidObjID`; success is owed otherwise.
    pub fn obj_del_attr(&mut self, id: ObjId, attr: String) -> (r: Result<(), Error>)
        requires
            old(self).wf(),
            old(self).logs@.len() + 1 <= u32::MAX,
        ensures
            final(self).wf(),
            final(self).handlers == old(self).handlers,
            r is Ok <==> attr_writable(old(self).objs_v(), id.0, attr@, None),
            r is Ok ==> attr_write_effect(
                old(self).objs_v(),
                old(self).logs_v(),
                final(self).objs_v(),
                final(self).logs_v(),
                id.0,
                attr@,
                None,
            ),
            r is Ok ==> (final(self).logs_v().last().payload matches LogPayloadV::ObjSetAttr {
                diff,
                ..
            } && (old(self).objs_v()[id.0 as int] matches Some(oldr) && diff == DiffV::Del(
                attrs_lookup(stored_attrs(oldr), attr@)->Some_0,
            ))),
            r matches Err(e) ==> final(self).objs == old(self).objs && final(self).logs == old(
                self,
            ).logs && attr_write_refusal(old(self).objs_v(), id.0, attr@, None, e),
    {
        let r = self.obj_set_attr_raw(id, attr, None);
        proof {
            if r is Ok {
                let oldr = choose|o: ObjRecV| old(self).objs_v()[id.0 as int] == Some(o);
                let olda = match oldr.attrs {
                    Some(a) => a,
                    None => Seq::empty(),
                };
                crate::attr::lemma_lookup_some_iff_has_key(olda, attr@);
                assert(attrs_lookup(olda, attr@) is Some);
            }
        }
        r
    }

    /// Set several attributes, one `obj_set_attr` per pair in order.
    /// Success is owed exactly when every key is valid and (unless the map
    /// is empty) the object exists; then every given key holds its given
    /// value, other keys and fields stay, and one `ObjSetAttr` log per
    /// pair is appended, in order, each with the exact diff against the
    /// value stored before the call (the keys are unique, so no pair sees
    /// another's write).  On an error the walk stops there.
    pub fn obj_set_attrs(&mut self, id: ObjId, attrs: Attrs) -> (r: Result<(), Error>)
        requires
            old(self).wf(),
            attrs_wf(attrs@),
            old(self).logs@.len() + attrs@.len() + 1 <= u32::MAX,
        ensures
            final(self).wf(),
            final(self).handlers == old(self).handlers,
            r is Ok <==> (attrs@.len() == 0 || ((forall|j: int|
                0 <= j < attrs@.len() ==> key_valid(#[trigger] attrs@[j].0)) && id.0 < old(
                self,
            ).objs_v().len() && old(self).objs_v()[id.0 as int] is Some)),
            final(self).objs_v().len() == old(self).objs_v().len(),
            forall|i: int|
                0 <= i < old(self).objs_v().len() && i != id.0 as int ==> final(self).objs_v()[i]
                    == old(self).objs_v()[i],
            old(self).logs_v().len() <= final(self).logs_v().len() <= old(self).logs_v().len()
                + attrs@.len(),
            forall|i: int|
                0 <= i < old(self).logs_v().len() ==> final(self).logs_v()[i] == old(
                    self,
                ).logs_v()[i],
            r is Ok && attrs@.len() > 0 ==> ({
                &&& old(self).objs_v()[id.0 as int] matches Some(oldr)
                &&& ({
                    let olda = stored_attrs(oldr);
                    &&& final(self).objs_v()[id.0 as int] matches Some(newr)
                    &&& newr.name == oldr.name
                    &&& newr.desc == oldr.desc
                    &&& newr.payload == oldr.payload
                    &&& newr.attrs matches Some(newa)
                    &&& attrs_wf(newa)
                    &&& (forall|j: int|
                        0 <= j < attrs@.len() ==> attrs_lookup(newa, #[trigger] attrs@[j].0)
                            == Some(attrs@[j].1))
                    &&& (forall|k: Seq<char>|
                        (forall|j: int| 0 <= j < attrs@.len() ==> #[trigger] attrs@[j].0 != k)
                            ==> attrs_lookup(newa, k) == attrs_lookup(olda, k))
                    &&& final(self).logs_v().len() == old(self).logs_v().len() + attrs@.len()
                    &&& (forall|j: int|
                        0 <= j < attrs@.len() ==> (#[trigger] final(self).logs_v()[old(
                            self,
                        ).logs_v().len() + j]).payload == LogPayloadV::ObjSetAttr {
                            id: id.0,
                            attr: attrs@[j].0,
                            diff: attr_diff(
                                attrs_lookup(olda, attrs@[j].0),
                                Some(attrs@[j].1),
                            ),
                        })
                })
            }),
            r is Ok && attrs@.len() == 0 ==> final(self).objs == old(self).objs && final(self).logs
                == old(self).logs,
            r matches Err(e) ==> match e {
                Error::InvalidKey(k) => exists|j: int|
                    0 <= j < attrs@.len() && #[trigger] attrs@[j].0 == k@ && !key_valid(k@),
                Error::InvalidObjID(z) => z == id && attrs@.len() > 0 && (id.0 >= old(
                    self,
                ).objs_v().len() || old(self).objs_v()[id.0 as int] is None) && final(self).objs
                    == old(self).objs && final(self).logs == old(self).logs,
                _ => false,
            },
    {
        let n = attrs.entries.len();
        let ghost av = attrs@;
        let ghost olda: AttrsV = if id.0 < old(self).objs_v().len() && old(self).objs_v()[
            id.0 as int
        ] is Some {
            stored_attrs(old(self).objs_v()[id.0 as int]->Some_0)
        } else {
            Seq::empty()
        };
        let mut i: usize = 0;
        while i < n
            invariant
                self.wf(),
                self.handlers == old(self).handlers,
                attrs_wf(av),
                av == attrs@,
                n == av.len(),
                0 <= i <= n,
                (id.0 < old(self).objs_v().len() && old(self).objs_v()[id.0 as int] is Some)
                    ==> olda == stored_attrs(old(self).objs_v()[id.0 as int]->Some_0),
                self.objs_v().len() == old(self).objs_v().len(),
                forall|x: int|
                    0 <= x < old(self).objs_v().len() && x != id.0 as int ==> self.objs_v()[x]
                        == old(self).objs_v()[x],
                forall|x: int|
                    0 <= x < old(self).logs_v().len() ==> self.logs_v()[x] == old(
                        self,
                    ).logs_v()[x],
                self.logs@.len() + (n - i) + 1 <= u32::MAX,
                i == 0 ==> self.objs == old(self).objs && self.logs == old(self).logs,
                i > 0 ==> ({
                    &&& id.0 < old(self).objs_v().len()
                    &&& old(self).objs_v()[id.0 as int] matches Some(oldr)
                    &&& olda == stored_attrs(oldr)
                    &&& (forall|j: int| 0 <= j < i ==> key_valid(#[trigger] av[j].0))
                    &&& self.objs_v()[id.0 as int] matches Some(curr)
                    &&& curr.name == oldr.name
                    &&& curr.desc == oldr.desc
                    &&& curr.payload == oldr.payload
                    &&& curr.attrs matches Some(cura)
                    &&& attrs_wf(cura)
                    &&& (forall|j: int|
                        0 <= j < i ==> attrs_lookup(cura, #[trigger] av[j].0) == Some(av[j].1))
                    &&& (forall|k: Seq<char>|
                        (forall|j: int| 0 <= j < i ==> #[trigger] av[j].0 != k) ==> attrs_lookup(
                            cura,
                            k,
                        ) == attrs_lookup(olda, k))
                    &&& self.logs_v().len() == old(self).logs_v().len() + i
                    &&& (forall|j: int|
                        0 <= j < i ==> (#[trigger] self.logs_v()[old(self).logs_v().len()
                            + j]).payload == LogPayloadV::ObjSetAttr {
                            id: id.0,
                            attr: av[j].0,
                            diff: attr_diff(attrs_lookup(olda, av[j].0), Some(av[j].1)),
                        })
                }),
            decreases n - i,
        {
            let k = attrs.entries[i].0.clone();
            let v = attrs.entries[i].1.duplicate();
            proof {
                assert(k@ == av[i as int].0 && v@ == av[i as int].1);
            }
            let ghost pre = *self;
            match self.obj_set_attr(id, k, v) {
                Ok(_) => {},
                Err(e) => {
                    proof {
                        if e matches Error::InvalidObjID(_) {
                            assert(i == 0) by {
                                if i > 0 {
                                    assert(pre.objs_v()[id.0 as int] is Some);
                                }
                            }
                        }
                    }
                    return Err(e);
                },
            }
            proof {
                assert(attr_write_effect(
                    pre.objs_v(),
                    pre.logs_v(),
                    self.objs_v(),
                    self.logs_v(),
                    id.0,
                    av[i as int].0,
                    Some(av[i as int].1),
                ));
                if i == 0 {
                    assert(olda == stored_attrs(old(self).objs_v()[id.0 as int]->Some_0));
                } else {
                    // the key written now was untouched by the earlier steps
                    assert(forall|j: int| 0 <= j < i ==> av[j].0 != av[i as int].0);
                    assert(attrs_lookup(stored_attrs(pre.objs_v()[id.0 as int]->Some_0), av[
                        i as int
                    ].0) == attrs_lookup(olda, av[i as int].0));
                }
            }
            i = i + 1;
        }
        Ok(())
    }
}



/// Whether `l` is the scan view of the log record `rec` stored at
/// position `i` (so with id `i + 1`).
pub open spec fn script_log_of(l: ScriptLog, i: int, rec: LogRecV) -> bool {
    &&& l.id.0 == i + 1
    &&& l.typ@ == log_payload_tag(rec.payload)
    &&& l.time.secs == rec.time
    &&& opt_attrs_view(&l.attrs) == rec.attrs
    &&& l.payload@ == rec.payload
}

/// The filter accepted this record (one of its possible results on it is
/// `true`).
pub open spec fn accepted_by<F: Fn(&ScriptLog) -> bool>(filter: F, l: ScriptLog) -> bool {
    filter.ensures((&l,), true)
}

/// The filter rejected this record.
pub open spec fn rejected_by<F: Fn(&ScriptLog) -> bool>(filter: F, l: ScriptLog) -> bool {
    filter.ensures((&l,), false)
}

/// The position `i` lies in the scanned range `[lo, hi)`.
pub open spec fn scan_reaches(lo: int, hi: int, i: int) -> bool {
    lo <= i < hi
}

/// The scan rejected the record at position `i`: some faithful view of it
/// came back `false` from the filter.
pub open spec fn scan_rejected<F: Fn(&ScriptLog) -> bool>(
    logs: Seq<LogRecV>,
    filter: F,
    i: int,
) -> bool {
    exists|w: ScriptLog| script_log_of(w, i, logs[i]) && rejected_by(filter, w)
}

/// What a finished scan promises about its result `r` for the log range
/// with positions in `[lo, hi)`, scanned under `filter` with `limit`:
/// every hit is a faithful view of its record and was accepted by the
/// filter; no more than `limit` hits; and every position of the range
/// that was reached (all of them, unless the limit cut the scan short)
/// is either among the hits or was rejected by the filter.  `newest`
/// says which end the scan started from, which fixes the order of the
/// hits and which positions a cut-short scan has reached.
pub open spec fn log_scan_post<F: Fn(&ScriptLog) -> bool>(
    logs: Seq<LogRecV>,
    filter: F,
    limit: Option<usize>,
    lo: int,
    hi: int,
    newest: bool,
    r: Seq<ScriptLog>,
) -> bool {
    &&& (forall|j: int|
        0 <= j < r.len() ==> ({
            let l = #[trigger] r[j];
            &&& lo < l.id.0 <= hi
            &&& script_log_of(l, l.id.0 - 1, logs[l.id.0 - 1])
            &&& accepted_by(filter, l)
        }))
    &&& (forall|a: int, b: int|
        0 <= a < b < r.len() ==> (if newest {
            r[a].id.0 > r[b].id.0
        } else {
            r[a].id.0 < r[b].id.0
        }))
    &&& (limit matches Some(m) ==> r.len() <= m)
    &&& (forall|i: int|
        #![trigger scan_reaches(lo, hi, i)]
        scan_reaches(lo, hi, i) && (match limit {
            Some(m) => r.len() < m || (r.len() > 0 && (if newest {
                i + 1 > r.last().id.0
            } else {
                i + 1 < r.last().id.0
            })),
            None => true,
        }) && (forall|j: int| 0 <= j < r.len() ==> (#[trigger] r[j]).id.0 != i + 1)
            ==> scan_rejected(logs, filter, i))
}

impl Store {
    /// One log record as a scan hands it out.
    fn script_log_at(&self, i: usize) -> (r: ScriptLog)
        requires
            i < self.logs@.len(),
            i + 1 <= u32::MAX,
        ensures
            script_log_of(r, i as int, self.logs_v()[i as int]),
    {
        let rec = &self.logs[i];
        ScriptLog {
            id: LogId((i + 1) as u32),
            typ: rec.payload.tag_string(),
            time: rec.time,
            attrs: copy_opt_attrs(&rec.attrs),
            payload: rec.payload.duplicate(),
        }
    }

    /// Scan the log positions `[lo, hi)` newest first.
    fn scan_logs_rev<F: Fn(&ScriptLog) -> bool>(
        &self,
        filter: &F,
        limit: Option<usize>,
        lo: usize,
        hi: usize,
    ) -> (r: Vec<ScriptLog>)
        requires
            lo <= hi <= self.logs@.len(),
            self.logs@.len() < u32::MAX,
            forall|l: ScriptLog| #[trigger] (*filter).requires((&l,)),
        ensures
            log_scan_post(self.logs_v(), *filter, limit, lo as int, hi as int, true, r@),
    {
        let mut out: Vec<ScriptLog> = Vec::new();
        if match limit {
            Some(m) => m == 0,
            None => false,
        } {
            return out;
        }
        let mut idx: usize = hi;
        while idx > lo
            invariant
                lo <= idx <= hi <= self.logs@.len(),
                self.logs@.len() < u32::MAX,
                forall|l: ScriptLog| #[trigger] (*filter).requires((&l,)),
                limit matches Some(m) ==> out@.len() < m,
                forall|j: int|
                    0 <= j < out@.len() ==> ({
                        let l = #[trigger] out@[j];
                        &&& idx < l.id.0 <= hi
                        &&& script_log_of(l, l.id.0 - 1, self.logs_v()[l.id.0 - 1])
                        &&& accepted_by(*filter, l)
                    }),
                forall|a: int, b: int| 0 <= a < b < out@.len() ==> out@[a].id.0 > out@[b].id.0,
                forall|i: int|
                    #![trigger scan_reaches(lo as int, hi as int, i)]
                    scan_reaches(lo as int, hi as int, i) && idx <= i ==> ((exists|j: int|
                        0 <= j < out@.len() && (#[trigger] out@[j]).id.0 == i + 1) || scan_rejected(
                        self.logs_v(),
                        *filter,
                        i,
                    )),
            decreases idx,
        {
            let i = idx - 1;
            let l = self.script_log_at(i);
            let ghost lv = l;
            if filter(&l) {
                let ghost pre = out@;
                out.push(l);
                proof {
                    assert(out@ == pre.push(lv));
                    assert(out@[out@.len() - 1].id.0 == i + 1);
                    assert forall|ii: int|
                        #![trigger scan_reaches(lo as int, hi as int, ii)]
                        scan_reaches(lo as int, hi as int, ii) && i <= ii implies ((exists|j: int|
                        0 <= j < out@.len() && (#[trigger] out@[j]).id.0 == ii + 1)
                        || scan_rejected(self.logs_v(), *filter, ii)) by {
                        if ii == i {
                            assert(0 <= out@.len() - 1 < out@.len() && out@[out@.len() - 1].id.0
                                == ii + 1);
                        } else {
                            if exists|j: int|
                                0 <= j < pre.len() && (#[trigger] pre[j]).id.0 == ii + 1 {
                                let j = choose|j: int|
                                    0 <= j < pre.len() && (#[trigger] pre[j]).id.0 == ii + 1;
                                assert(out@[j].id.0 == ii + 1);
                            }
                        }
                    }
                }
                if match limit {
                    Some(m) => out.len() >= m,
                    None => false,
                } {
                    proof {
                        assert forall|ii: int|
                            #![trigger scan_reaches(lo as int, hi as int, ii)]
                            scan_reaches(lo as int, hi as int, ii) && ii + 1 > out@.last().id.0
                                && (forall|j: int|
                            0 <= j < out@.len() ==> (#[trigger] out@[j]).id.0 != ii + 1) implies
                            scan_rejected(self.logs_v(), *filter, ii) by {
                            assert(out@.last().id.0 == i + 1);
                            assert(i <= ii < hi);
                            assert(!(exists|j: int|
                                0 <= j < out@.len() && (#[trigger] out@[j]).id.0 == ii + 1)) by {
                                if exists|j: int|
                                    0 <= j < out@.len() && (#[trigger] out@[j]).id.0 == ii + 1 {
                                    let j = choose|j: int|
                                        0 <= j < out@.len() && (#[trigger] out@[j]).id.0 == ii + 1;
                                    assert(out@[j].id.0 != ii + 1);
                                }
                            }
                        }
                    }
                    return out;
                }
            } else {
                proof {
                    assert(script_log_of(lv, i as int, self.logs_v()[i as int]) && rejected_by(
                        *filter,
                        lv,
                    ));
                    assert(scan_rejected(self.logs_v(), *filter, i as int));
                }
            }
            idx = i;
        }
        proof {
            assert forall|ii: int|
                #![trigger scan_reaches(lo as int, hi as int, ii)]
                scan_reaches(lo as int, hi as int, ii) && (forall|j: int|
                    0 <= j < out@.len() ==> (#[trigger] out@[j]).id.0 != ii + 1) implies
                scan_rejected(self.logs_v(), *filter, ii) by {
                assert(idx <= ii < hi);
                if exists|j: int| 0 <= j < out@.len() && (#[trigger] out@[j]).id.0 == ii + 1 {
                    let j = choose|j: int|
                        0 <= j < out@.len() && (#[trigger] out@[j]).id.0 == ii + 1;
                    assert(out@[j].id.0 != ii + 1);
                }
            }
        }
        out
    }

    /// Scan the log positions `[lo, hi)` oldest first.
    fn scan_logs_fwd<F: Fn(&ScriptLog) -> bool>(
        &self,
        filter: &F,
        limit: Option<usize>,
        lo: usize,
        hi: usize,
    ) -> (r: Vec<ScriptLog>)
        requires
            lo <= hi <= self.logs@.len(),
            self.logs@.len() < u32::MAX,
            forall|l: ScriptLog| #[trigger] (*filter).requires((&l,)),
        ensures
            log_scan_post(self.logs_v(), *filter, limit, lo as int, hi as int, false, r@),
    {
        let mut out: Vec<ScriptLog> = Vec::new();
        if match limit {
            Some(m) => m == 0,
            None => false,
        } {
            return out;
        }
        let mut idx: usize = lo;
        while idx < hi
            invariant
                lo <= idx <= hi <= self.logs@.len(),
                self.logs@.len() < u32::MAX,
                forall|l: ScriptLog| #[trigger] (*filter).requires((&l,)),
                limit matches Some(m) ==> out@.len() < m,
                forall|j: int|
                    0 <= j < out@.len() ==> ({
                        let l = #[trigger] out@[j];
                        &&& lo < l.id.0 <= idx
                        &&& script_log_of(l, l.id.0 - 1, self.logs_v()[l.id.0 - 1])
                        &&& accepted_by(*filter, l)
                    }),
                forall|a: int, b: int| 0 <= a < b < out@.len() ==> out@[a].id.0 < out@[b].id.0,
                forall|i: int|
                    #![trigger scan_reaches(lo as int, hi as int, i)]
                    scan_reaches(lo as int, hi as int, i) && i < idx ==> ((exists|j: int|
                        0 <= j < out@.len() && (#[trigger] out@[j]).id.0 == i + 1) || scan_rejected(
                        self.logs_v(),
                        *filter,
                        i,
                    )),
            decreases hi - idx,
        {
            let i = idx;
            let l = self.script_log_at(i);
            let ghost lv = l;
            if filter(&l) {
                let ghost pre = out@;
                out.push(l);
                proof {
                    assert(out@ == pre.push(lv));
                    assert(out@[out@.len() - 1].id.0 == i + 1);
                    assert forall|ii: int|
                        #![trigger scan_reaches(lo as int, hi as int, ii)]
                        scan_reaches(lo as int, hi as int, ii) && ii <= i implies ((exists|j: int|
                        0 <= j < out@.len() && (#[trigger] out@[j]).id.0 == ii + 1)
                        || scan_rejected(self.logs_v(), *filter, ii)) by {
                        if ii == i {
                            assert(0 <= out@.len() - 1 < out@.len() && out@[out@.len() - 1].id.0
                                == ii + 1);
                        } else {
                            if exists|j: int|
                                0 <= j < pre.len() && (#[trigger] pre[j]).id.0 == ii + 1 {
                                let j = choose|j: int|
                                    0 <= j < pre.len() && (#[trigger] pre[j]).id.0 == ii + 1;
                                assert(out@[j].id.0 == ii + 1);
                            }
                        }
                    }
                }
                if match limit {
                    Some(m) => out.len() >= m,
                    None => false,
                } {
                    proof {
                        assert forall|ii: int|
                            #![trigger scan_reaches(lo as int, hi as int, ii)]
                            scan_reaches(lo as int, hi as int, ii) && ii + 1 < out@.last().id.0
                                && (forall|j: int|
                            0 <= j < out@.len() ==> (#[trigger] out@[j]).id.0 != ii + 1) implies
                            scan_rejected(self.logs_v(), *filter, ii) by {
                            assert(out@.last().id.0 == i + 1);
                            assert(lo <= ii <= i);
                            if exists|j: int|
                                0 <= j < out@.len() && (#[trigger] out@[j]).id.0 == ii + 1 {
                                let j = choose|j: int|
                                    0 <= j < out@.len() && (#[trigger] out@[j]).id.0 == ii + 1;
                                assert(out@[j].id.0 != ii + 1);
                            }
                        }
                    }
                    return out;
                }
            } else {
                proof {
                    assert(script_log_of(lv, i as int, self.logs_v()[i as int]) && rejected_by(
                        *filter,
                        lv,
                    ));
                    assert(scan_rejected(self.logs_v(), *filter, i as int));
                }
            }
            idx = i + 1;
        }
        proof {
            assert forall|ii: int|
                #![trigger scan_reaches(lo as int, hi as int, ii)]
                scan_reaches(lo as int, hi as int, ii) && (forall|j: int|
                    0 <= j < out@.len() ==> (#[trigger] out@[j]).id.0 != ii + 1) implies
                scan_rejected(self.logs_v(), *filter, ii) by {
                assert(lo <= ii < idx);
                if exists|j: int| 0 <= j < out@.len() && (#[trigger] out@[j]).id.0 == ii + 1 {
                    let j = choose|j: int|
                        0 <= j < out@.len() && (#[trigger] out@[j]).id.0 == ii + 1;
                    assert(out@[j].id.0 != ii + 1);
                }
            }
        }
        out
    }

    /// The matching logs, newest first, at most `limit` of them.
    pub fn find_log<F: Fn(&ScriptLog) -> bool>(&self, filter: F, limit: Option<usize>) -> (r: Vec<
        ScriptLog,
    >)
        requires
            self.logs@.len() < u32::MAX,
            forall|l: ScriptLog| #[trigger] filter.requires((&l,)),
        ensures
            log_scan_post(self.logs_v(), filter, limit, 0, self.logs_v().len() as int, true, r@),
    {
        let hi = self.logs.len();
        self.scan_logs_rev(&filter, limit, 0, hi)
    }

    /// The matching logs, oldest first, at most `limit` of them.
    pub fn find_log_old<F: Fn(&ScriptLog) -> bool>(&self, filter: F, limit: Option<usize>) -> (r:
        Vec<ScriptLog>)
        requires
            self.logs@.len() < u32::MAX,
            forall|l: ScriptLog| #[trigger] filter.requires((&l,)),
        ensures
            log_scan_post(self.logs_v(), filter, limit, 0, self.logs_v().len() as int, false, r@),
    {
        let hi = self.logs.len();
        self.scan_logs_fwd(&filter, limit, 0, hi)
    }

    /// The matching logs with ids strictly below `id`, newest first.
    pub fn find_log_from<F: Fn(&ScriptLog) -> bool>(
        &self,
        id: LogId,
        filter: F,
        limit: Option<usize>,
    ) -> (r: Vec<ScriptLog>)
        requires
            self.logs@.len() < u32::MAX,
            forall|l: ScriptLog| #[trigger] filter.requires((&l,)),
        ensures
            ({
                let hi = if id.0 == 0 {
                    0int
                } else if id.0 - 1 <= self.logs_v().len() {
                    id.0 - 1
                } else {
                    self.logs_v().len() as int
                };
                log_scan_post(self.logs_v(), filter, limit, 0, hi, true, r@)
            }),
    {
        let hi = if id.0 == 0 {
            0
        } else if ((id.0 - 1) as usize) <= self.logs.len() {
            (id.0 - 1) as usize
        } else {
            self.logs.len()
        };
        self.scan_logs_rev(&filter, limit, 0, hi)
    }

    /// The matching logs with ids at or above `id`, oldest first.
    pub fn find_log_old_from<F: Fn(&ScriptLog) -> bool>(
        &self,
        id: LogId,
        filter: F,
        limit: Option<usize>,
    ) -> (r: Vec<ScriptLog>)
        requires
            self.logs@.len() < u32::MAX,
            forall|l: ScriptLog| #[trigger] filter.requires((&l,)),
        ensures
            ({
                let lo = if id.0 == 0 {
                    0int
                } else if id.0 - 1 <= self.logs_v().len() {
                    id.0 - 1
                } else {
                    self.logs_v().len() as int
                };
                log_scan_post(self.logs_v(), filter, limit, lo, self.logs_v().len() as int, false, r@)
            }),
    {
        let lo = if id.0 == 0 {
            0
        } else if ((id.0 - 1) as usize) <= self.logs.len() {
            (id.0 - 1) as usize
        } else {
            self.logs.len()
        };
        let hi = self.logs.len();
        self.scan_logs_fwd(&filter, limit, lo, hi)
    }
}


/// Whether `o` is the scan view of the object record `rec` stored in the
/// slot `i` (object ids are the slot positions themselves).
pub open spec fn script_obj_of(o: ScriptObj, i: int, rec: ObjRecV) -> bool {
    &&& o.id.0 == i
    &&& o.typ@ == obj_payload_tag(rec.payload)
    &&& o.name@ == rec.name
    &&& opt_string_view(&o.desc) == rec.desc
    &&& opt_attrs_view(&o.attrs) == rec.attrs
    &&& o.payload@ == rec.payload
}

/// The object filter accepted this record.
pub open spec fn obj_accepted_by<F: Fn(&ScriptObj) -> bool>(filter: F, o: ScriptObj) -> bool {
    filter.ensures((&o,), true)
}

/// The object filter rejected this record.
pub open spec fn obj_rejected_by<F: Fn(&ScriptObj) -> bool>(filter: F, o: ScriptObj) -> bool {
    filter.ensures((&o,), false)
}

/// The scan rejected the record in slot `i`.
pub open spec fn obj_scan_rejected<F: Fn(&ScriptObj) -> bool>(
    objs: Seq<Option<ObjRecV>>,
    filter: F,
    i: int,
) -> bool {
    exists|w: ScriptObj|
        (objs[i] matches Some(rec) && script_obj_of(w, i, rec)) && obj_rejected_by(filter, w)
}

/// The scan contract for the object slots in `[lo, hi)`, as
/// `log_scan_post` is for logs; empty slots are passed over silently.
pub open spec fn obj_scan_post<F: Fn(&ScriptObj) -> bool>(
    objs: Seq<Option<ObjRecV>>,
    filter: F,
    limit: Option<usize>,
    lo: int,
    hi: int,
    newest: bool,
    r: Seq<ScriptObj>,
) -> bool {
    &&& (forall|j: int|
        0 <= j < r.len() ==> ({
            let o = #[trigger] r[j];
            &&& lo <= o.id.0 < hi
            &&& (objs[o.id.0 as int] matches Some(rec) && script_obj_of(o, o.id.0 as int, rec))
            &&& obj_accepted_by(filter, o)
        }))
    &&& (forall|a: int, b: int|
        0 <= a < b < r.len() ==> (if newest {
            r[a].id.0 > r[b].id.0
        } else {
            r[a].id.0 < r[b].id.0
        }))
    &&& (limit matches Some(m) ==> r.len() <= m)
    &&& (forall|i: int|
        #![trigger scan_reaches(lo, hi, i)]
        scan_reaches(lo, hi, i) && objs[i] is Some && (match limit {
            Some(m) => r.len() < m || (r.len() > 0 && (if newest {
                i > r.last().id.0
            } else {
                i < r.last().id.0
            })),
            None => true,
        }) && (forall|j: int| 0 <= j < r.len() ==> (#[trigger] r[j]).id.0 != i)
            ==> obj_scan_rejected(objs, filter, i))
}

impl Store {
    /// One object record as a scan hands it out.
    fn script_obj_at(&self, i: usize) -> (r: ScriptObj)
        requires
            i < self.objs@.len(),
            i <= u32::MAX,
            self.objs_v()[i as int] is Some,
        ensures
            self.objs_v()[i as int] matches Some(rec) && script_obj_of(r, i as int, rec),
    {
        let rec = match &self.objs[i] {
            Some(rec) => rec,
            None => {
                proof {
                    assert(false);
                }
                unreached()
            },
        };
        ScriptObj {
            id: ObjId(i as u32),
            typ: rec.payload.tag_string(),
            name: rec.name.clone(),
            desc: copy_opt_string(&rec.desc),
            attrs: copy_opt_attrs(&rec.attrs),
            payload: rec.payload.duplicate(),
        }
    }

    /// Scan the object slots `[lo, hi)` newest first.
    fn scan_objs_rev<F: Fn(&ScriptObj) -> bool>(
        &self,
        filter: &F,
        limit: Option<usize>,
        lo: usize,
        hi: usize,
    ) -> (r: Vec<ScriptObj>)
        requires
            lo <= hi <= self.objs@.len(),
            self.objs@.len() <= u32::MAX,
            forall|o: ScriptObj| #[trigger] (*filter).requires((&o,)),
        ensures
            obj_scan_post(self.objs_v(), *filter, limit, lo as int, hi as int, true, r@),
    {
        let mut out: Vec<ScriptObj> = Vec::new();
        if match limit {
            Some(m) => m == 0,
            None => false,
        } {
            return out;
        }
        let mut idx: usize = hi;
        while idx > lo
            invariant
                lo <= idx <= hi <= self.objs@.len(),
                self.objs@.len() <= u32::MAX,
                forall|o: ScriptObj| #[trigger] (*filter).requires((&o,)),
                limit matches Some(m) ==> out@.len() < m,
                forall|j: int|
                    0 <= j < out@.len() ==> ({
                        let o = #[trigger] out@[j];
                        &&& idx <= o.id.0 < hi
                        &&& (self.objs_v()[o.id.0 as int] matches Some(rec) && script_obj_of(
                            o,
                            o.id.0 as int,
                            rec,
                        ))
                        &&& obj_accepted_by(*filter, o)
                    }),
                forall|a: int, b: int| 0 <= a < b < out@.len() ==> out@[a].id.0 > out@[b].id.0,
                forall|i: int|
                    #![trigger scan_reaches(lo as int, hi as int, i)]
                    scan_reaches(lo as int, hi as int, i) && idx <= i && self.objs_v()[i] is Some
                        ==> ((exists|j: int|
                        0 <= j < out@.len() && (#[trigger] out@[j]).id.0 == i)
                        || obj_scan_rejected(self.objs_v(), *filter, i)),
            decreases idx,
        {
            let i = idx - 1;
            match &self.objs[i] {
                None => {},
                Some(_) => {
                    let o = self.script_obj_at(i);
                    let ghost ov = o;
                    if filter(&o) {
                        let ghost pre = out@;
                        out.push(o);
                        proof {
                            assert(out@ == pre.push(ov));
                            assert(out@[out@.len() - 1].id.0 == i);
                            assert forall|ii: int|
                                #![trigger scan_reaches(lo as int, hi as int, ii)]
                                scan_reaches(lo as int, hi as int, ii) && i <= ii && self.objs_v()[
                                ii
                            ] is Some implies ((exists|j: int|
                                0 <= j < out@.len() && (#[trigger] out@[j]).id.0 == ii)
                                || obj_scan_rejected(self.objs_v(), *filter, ii)) by {
                                if ii == i {
                                    assert(0 <= out@.len() - 1 < out@.len() && out@[out@.len()
                                        - 1].id.0 == ii);
                                } else {
                                    if exists|j: int|
                                        0 <= j < pre.len() && (#[trigger] pre[j]).id.0 == ii {
                                        let j = choose|j: int|
                                            0 <= j < pre.len() && (#[trigger] pre[j]).id.0 == ii;
                                        assert(out@[j].id.0 == ii);
                                    }
                                }
                            }
                        }
                        if match limit {
                            Some(m) => out.len() >= m,
                            None => false,
                        } {
                            proof {
                                assert forall|ii: int|
                                    #![trigger scan_reaches(lo as int, hi as int, ii)]
                                    scan_reaches(lo as int, hi as int, ii) && self.objs_v()[ii]
                                        is Some && ii > out@.last().id.0 && (forall|j: int|
                                    0 <= j < out@.len() ==> (#[trigger] out@[j]).id.0 != ii) implies
                                    obj_scan_rejected(self.objs_v(), *filter, ii) by {
                                    assert(out@.last().id.0 == i);
                                    assert(i <= ii < hi);
                                    if exists|j: int|
                                        0 <= j < out@.len() && (#[trigger] out@[j]).id.0 == ii {
                                        let j = choose|j: int|
                                            0 <= j < out@.len() && (#[trigger] out@[j]).id.0 == ii;
                                        assert(out@[j].id.0 != ii);
                                    }
                                }
                            }
                            return out;
                        }
                    } else {
                        proof {
                            assert((self.objs_v()[i as int] matches Some(rec) && script_obj_of(
                                ov,
                                i as int,
                                rec,
                            )) && obj_rejected_by(*filter, ov));
                            assert(obj_scan_rejected(self.objs_v(), *filter, i as int));
                        }
                    }
                },
            }
            idx = i;
        }
        proof {
            assert forall|ii: int|
                #![trigger scan_reaches(lo as int, hi as int, ii)]
                scan_reaches(lo as int, hi as int, ii) && self.objs_v()[ii] is Some && (forall|
                    j: int,
                |
                    0 <= j < out@.len() ==> (#[trigger] out@[j]).id.0 != ii) implies
                obj_scan_rejected(self.objs_v(), *filter, ii) by {
                assert(idx <= ii < hi);
                if exists|j: int| 0 <= j < out@.len() && (#[trigger] out@[j]).id.0 == ii {
                    let j = choose|j: int| 0 <= j < out@.len() && (#[trigger] out@[j]).id.0 == ii;
                    assert(out@[j].id.0 != ii);
                }
            }
        }
        out
    }

    /// Scan the object slots `[lo, hi)` oldest first.
    fn scan_objs_fwd<F: Fn(&ScriptObj) -> bool>(
        &self,
        filter: &F,
        limit: Option<usize>,
        lo: usize,
        hi: usize,
    ) -> (r: Vec<ScriptObj>)
        requires
            lo <= hi <= self.objs@.len(),
            self.objs@.len() <= u32::MAX,
            forall|o: ScriptObj| #[trigger] (*filter).requires((&o,)),
        ensures
            obj_scan_post(self.objs_v(), *filter, limit, lo as int, hi as int, false, r@),
    {
        let mut out: Vec<ScriptObj> = Vec::new();
        if match limit {
            Some(m) => m == 0,
            None => false,
        } {
            return out;
        }
        let mut idx: usize = lo;
        while idx < hi
            invariant
                lo <= idx <= hi <= self.objs@.len(),
                self.objs@.len() <= u32::MAX,
                forall|o: ScriptObj| #[trigger] (*filter).requires((&o,)),
                limit matches Some(m) ==> out@.len() < m,
                forall|j: int|
                    0 <= j < out@.len() ==> ({
                        let o = #[trigger] out@[j];
                        &&& lo <= o.id.0 < idx
                        &&& (self.objs_v()[o.id.0 as int] matches Some(rec) && script_obj_of(
                            o,
                            o.id.0 as int,
                            rec,
                        ))
                        &&& obj_accepted_by(*filter, o)
                    }),
                forall|a: int, b: int| 0 <= a < b < out@.len() ==> out@[a].id.0 < out@[b].id.0,
                forall|i: int|
                    #![trigger scan_reaches(lo as int, hi as int, i)]
                    scan_reaches(lo as int, hi as int, i) && i < idx && self.objs_v()[i] is Some
                        ==> ((exists|j: int|
                        0 <= j < out@.len() && (#[trigger] out@[j]).id.0 == i)
                        || obj_scan_rejected(self.objs_v(), *filter, i)),
            decreases hi - idx,
        {
            let i = idx;
            match &self.objs[i] {
                None => {},
                Some(_) => {
                    let o = self.script_obj_at(i);
                    let ghost ov = o;
                    if filter(&o) {
                        let ghost pre = out@;
                        out.push(o);
                        proof {
                            assert(out@ == pre.push(ov));
                            assert(out@[out@.len() - 1].id.0 == i);
                            assert forall|ii: int|
                                #![trigger scan_reaches(lo as int, hi as int, ii)]
                                scan_reaches(lo as int, hi as int, ii) && ii <= i && self.objs_v()[
                                ii
                            ] is Some implies ((exists|j: int|
                                0 <= j < out@.len() && (#[trigger] out@[j]).id.0 == ii)
                                || obj_scan_rejected(self.objs_v(), *filter, ii)) by {
                                if ii == i {
                                    assert(0 <= out@.len() - 1 < out@.len() && out@[out@.len()
                                        - 1].id.0 == ii);
                                } else {
                                    if exists|j: int|
                                        0 <= j < pre.len() && (#[trigger] pre[j]).id.0 == ii {
                                        let j = choose|j: int|
                                            0 <= j < pre.len() && (#[trigger] pre[j]).id.0 == ii;
                                        assert(out@[j].id.0 == ii);
                                    }
                                }
                            }
                        }
                        if match limit {
                            Some(m) => out.len() >= m,
                            None => false,
                        } {
                            proof {
                                assert forall|ii: int|
                                    #![trigger scan_reaches(lo as int, hi as int, ii)]
                                    scan_reaches(lo as int, hi as int, ii) && self.objs_v()[ii]
                                        is Some && ii < out@.last().id.0 && (forall|j: int|
                                    0 <= j < out@.len() ==> (#[trigger] out@[j]).id.0 != ii) implies
                                    obj_scan_rejected(self.objs_v(), *filter, ii) by {
                                    assert(out@.last().id.0 == i);
                                    assert(lo <= ii <= i);
                                    if exists|j: int|
                                        0 <= j < out@.len() && (#[trigger] out@[j]).id.0 == ii {
                                        let j = choose|j: int|
                                            0 <= j < out@.len() && (#[trigger] out@[j]).id.0 == ii;
                                        assert(out@[j].id.0 != ii);
                                    }
                                }
                            }
                            return out;
                        }
                    } else {
                        proof {
                            assert((self.objs_v()[i as int] matches Some(rec) && script_obj_of(
                                ov,
                                i as int,
                                rec,
                            )) && obj_rejected_by(*filter, ov));
                            assert(obj_scan_rejected(self.objs_v(), *filter, i as int));
                        }
                    }
                },
            }
            idx = i + 1;
        }
        proof {
            assert forall|ii: int|
                #![trigger scan_reaches(lo as int, hi as int, ii)]
                scan_reaches(lo as int, hi as int, ii) && self.objs_v()[ii] is Some && (forall|
                    j: int,
                |
                    0 <= j < out@.len() ==> (#[trigger] out@[j]).id.0 != ii) implies
                obj_scan_rejected(self.objs_v(), *filter, ii) by {
                assert(lo <= ii < idx);
                if exists|j: int| 0 <= j < out@.len() && (#[trigger] out@[j]).id.0 == ii {
                    let j = choose|j: int| 0 <= j < out@.len() && (#[trigger] out@[j]).id.0 == ii;
                    assert(out@[j].id.0 != ii);
                }
            }
        }
        out
    }

    /// The matching objects of any kind, newest first.
    pub fn script_find_obj<F: Fn(&ScriptObj) -> bool>(&self, filter: F, limit: Option<usize>) -> (r:
        Vec<ScriptObj>)
        requires
            self.objs@.len() <= u32::MAX,
            forall|o: ScriptObj| #[trigger] filter.requires((&o,)),
        ensures
            obj_scan_post(self.objs_v(), filter, limit, 0, self.objs_v().len() as int, true, r@),
    {
        let hi = self.objs.len();
        self.scan_objs_rev(&filter, limit, 0, hi)
    }

    /// The matching objects of any kind, oldest first.
    pub fn script_find_obj_old<F: Fn(&ScriptObj) -> bool>(
        &self,
        filter: F,
        limit: Option<usize>,
    ) -> (r: Vec<ScriptObj>)
        requires
            self.objs@.len() <= u32::MAX,
            forall|o: ScriptObj| #[trigger] filter.requires((&o,)),
        ensures
            obj_scan_post(self.objs_v(), filter, limit, 0, self.objs_v().len() as int, false, r@),
    {
        let hi = self.objs.len();
        self.scan_objs_fwd(&filter, limit, 0, hi)
    }

    /// The matching objects with ids strictly below `id`, newest first.
    pub fn script_find_obj_from<F: Fn(&ScriptObj) -> bool>(
        &self,
        id: ObjId,
        filter: F,
        limit: Option<usize>,
    ) -> (r: Vec<ScriptObj>)
        requires
            self.objs@.len() <= u32::MAX,
            forall|o: ScriptObj| #[trigger] filter.requires((&o,)),
        ensures
            ({
                let hi = if id.0 <= self.objs_v().len() {
                    id.0 as int
                } else {
                    self.objs_v().len() as int
                };
                obj_scan_post(self.objs_v(), filter, limit, 0, hi, true, r@)
            }),
    {
        let hi = if (id.0 as usize) <= self.objs.len() {
            id.0 as usize
        } else {
            self.objs.len()
        };
        self.scan_objs_rev(&filter, limit, 0, hi)
    }

    /// The matching objects with ids at or above `id`, oldest first.
    pub fn script_find_obj_old_from<F: Fn(&ScriptObj) -> bool>(
        &self,
        id: ObjId,
        filter: F,
        limit: Option<usize>,
    ) -> (r: Vec<ScriptObj>)
        requires
            self.objs@.len() <= u32::MAX,
            forall|o: ScriptObj| #[trigger] filter.requires((&o,)),
        ensures
            ({
                let lo = if id.0 <= self.objs_v().len() {
                    id.0 as int
                } else {
                    self.objs_v().len() as int
                };
                obj_scan_post(self.objs_v(), filter, limit, lo, self.objs_v().len() as int, false, r@)
            }),
    {
        let lo = if (id.0 as usize) <= self.objs.len() {
            id.0 as usize
        } else {
            self.objs.len()
        };
        let hi = self.objs.len();
        self.scan_objs_fwd(&filter, limit, lo, hi)
    }
}

/// The present object records of the slots, in id order.
pub open spec fn present_objs(s: Seq<Option<ObjRecV>>) -> Seq<ObjRecV>
    decreases s.len(),
{
    if s.len() == 0 {
        Seq::empty()
    } else {
        match s[0] {
            Some(r) => seq![r] + present_objs(s.drop_first()),
            None => present_objs(s.drop_first()),
        }
    }
}

/// The slot layout import produces: each record back at the position it
/// was exported from, so the id values stored inside records (a task's
/// cache, an occurrence's parent) keep pointing at the right records.
pub open spec fn import_layout(ov: Seq<ObjRecV>) -> Seq<Option<ObjRecV>> {
    Seq::new(ov.len(), |i: int| Some(ov[i]))
}

pub proof fn lemma_present_objs_snoc(s: Seq<Option<ObjRecV>>, o: Option<ObjRecV>)
    ensures
        present_objs(s.push(o)) =~= present_objs(s) + (match o {
            Some(r) => seq![r],
            None => Seq::empty(),
        }),
    decreases s.len(),
{
    let t = s.push(o);
    if s.len() == 0 {
        assert(t[0] == o);
        assert(t.drop_first() =~= Seq::<Option<ObjRecV>>::empty());
        assert(present_objs(s) == Seq::<ObjRecV>::empty());
        assert(present_objs(t.drop_first()) == Seq::<ObjRecV>::empty());
        match o {
            Some(r) => {
                assert(present_objs(t) == seq![r] + present_objs(t.drop_first()));
                assert(present_objs(t) =~= present_objs(s) + seq![r]);
            },
            None => {
                assert(present_objs(t) == present_objs(t.drop_first()));
                assert(present_objs(t) =~= present_objs(s) + Seq::<ObjRecV>::empty());
            },
        }
    } else {
        assert(t[0] == s[0]);
        assert(t.drop_first() =~= s.drop_first().push(o));
        lemma_present_objs_snoc(s.drop_first(), o);
        match s[0] {
            Some(r0) => {
                assert(present_objs(s) == seq![r0] + present_objs(s.drop_first()));
                assert(present_objs(t) == seq![r0] + present_objs(t.drop_first()));
                match o {
                    Some(r) => {
                        assert(present_objs(t) =~= present_objs(s) + seq![r]);
                    },
                    None => {
                        assert(present_objs(t) =~= present_objs(s) + Seq::<ObjRecV>::empty());
                    },
                }
            },
            None => {
                assert(present_objs(s) == present_objs(s.drop_first()));
                assert(present_objs(t) == present_objs(t.drop_first()));
                match o {
                    Some(r) => {
                        assert(present_objs(t) =~= present_objs(s) + seq![r]);
                    },
                    None => {
                        assert(present_objs(t) =~= present_objs(s) + Seq::<ObjRecV>::empty());
                    },
                }
            },
        }
    }
}

/// Every record of `present_objs` is a record of some slot.
pub proof fn lemma_present_objs_wf(s: Seq<Option<ObjRecV>>)
    ensures
        forall|i: int|
            0 <= i < present_objs(s).len() ==> exists|j: int|
                0 <= j < s.len() && s[j] == Some(#[trigger] present_objs(s)[i]),
    decreases s.len(),
{
    if s.len() > 0 {
        lemma_present_objs_wf(s.drop_first());
        assert forall|i: int|
            0 <= i < present_objs(s).len() implies exists|j: int|
            0 <= j < s.len() && s[j] == Some(#[trigger] present_objs(s)[i]) by {
            match s[0] {
                Some(r) => {
                    if i == 0 {
                        assert(s[0] == Some(present_objs(s)[0]));
                    } else {
                        let x = present_objs(s)[i];
                        assert(present_objs(s.drop_first())[i - 1] == x);
                        let j = choose|j: int|
                            0 <= j < s.drop_first().len() && s.drop_first()[j] == Some(x);
                        assert(s[j + 1] == Some(x));
                    }
                },
                None => {
                    let x = present_objs(s)[i];
                    assert(present_objs(s.drop_first())[i] == x);
                    let j = choose|j: int|
                        0 <= j < s.drop_first().len() && s.drop_first()[j] == Some(x);
                    assert(s[j + 1] == Some(x));
                },
            }
        }
    }
}

impl Store {
    /// The whole store as bytes: all log records in id order, then all
    /// present object records in id order.
    pub fn export(&self) -> (r: Vec<u8>)
        ensures
            r@ == crate::codec::enc_export(self.logs_v(), present_objs(self.objs_v())),
            crate::codec::export_ok(self.logs_v(), present_objs(self.objs_v())),
    {
        let nl = self.logs.len();
        let mut logs: Vec<LogRecord> = Vec::new();
        let mut i: usize = 0;
        while i < nl
            invariant
                0 <= i <= nl,
                nl == self.logs@.len(),
                logs@.len() == i,
                forall|j: int| 0 <= j < i ==> logs@[j]@ == self.logs@[j]@,
            decreases nl - i,
        {
            logs.push(self.logs[i].duplicate());
            i = i + 1;
        }
        proof {
            assert(log_recs_view(logs@) =~= self.logs_v());
        }
        let no = self.objs.len();
        let mut objs: Vec<ObjRecord> = Vec::new();
        let mut k: usize = 0;
        while k < no
            invariant
                0 <= k <= no,
                no == self.objs@.len(),
                crate::codec::obj_recs_view(objs@) == present_objs(self.objs_v().take(k as int)),
            decreases no - k,
        {
            let ghost prefix = self.objs_v().take(k as int);
            match &self.objs[k] {
                Some(rec) => {
                    let ghost pre = objs@;
                    objs.push(rec.duplicate());
                    proof {
                        assert(self.objs_v().take(k + 1) =~= prefix.push(
                            self.objs_v()[k as int],
                        ));
                        lemma_present_objs_snoc(prefix, self.objs_v()[k as int]);
                        assert(crate::codec::obj_recs_view(objs@) =~= present_objs(
                            self.objs_v().take(k + 1),
                        ));
                    }
                },
                None => {
                    proof {
                        assert(self.objs_v().take(k + 1) =~= prefix.push(
                            self.objs_v()[k as int],
                        ));
                        lemma_present_objs_snoc(prefix, self.objs_v()[k as int]);
                        assert(crate::codec::obj_recs_view(objs@) =~= present_objs(
                            self.objs_v().take(k + 1),
                        ));
                    }
                },
            }
            k = k + 1;
        }
        proof {
            assert(self.objs_v().take(no as int) =~= self.objs_v());
        }
        crate::codec::encode_export(&logs, &objs)
    }

    /// Replace the whole store from exported bytes: the namespaces are
    /// cleared, log records reinserted at ids 1 through their count, and
    /// object records back at the positions they were exported from, so
    /// the ids stored inside records (a task's cache, an occurrence's
    /// parent) keep pointing at the right records; the next log id lands
    /// one past the log count and the next object id at the object count.
    /// Malformed bytes, trailing bytes, or a record with a duplicate
    /// attribute key fail with `Serde` and change nothing.
    pub fn import(&mut self, data: &[u8]) -> (r: Result<(), Error>)
        ensures
            final(self).handlers == old(self).handlers,
            r is Err ==> final(self).logs == old(self).logs && final(self).objs == old(self).objs,
            r is Ok ==> final(self).wf() && data@ == crate::codec::enc_export(
                final(self).logs_v(),
                present_objs(final(self).objs_v()),
            ) && final(self).objs_v() == import_layout(present_objs(final(self).objs_v())),
            forall|lv: Seq<LogRecV>, ov: Seq<ObjRecV>|
                crate::codec::export_ok(lv, ov) && (forall|i: int|
                    0 <= i < ov.len() ==> rec_attrs_wf(#[trigger] ov[i])) && data@
                    == crate::codec::enc_export(lv, ov) ==> (r is Ok && final(self).logs_v() == lv
                    && final(self).objs_v() == import_layout(ov)),
    {
        proof {
            assert forall|lv: Seq<LogRecV>, ov: Seq<ObjRecV>|
                crate::codec::export_ok(lv, ov) && data@ == crate::codec::enc_export(
                    lv,
                    ov,
                ) implies data@ == crate::codec::enc_export(lv, ov) + Seq::<u8>::empty() by {
                assert(data@ =~= crate::codec::enc_export(lv, ov) + Seq::<u8>::empty());
            }
        }
        let (logs, objs, n) = match crate::codec::decode_export(data) {
            None => {
                return Err(Error::Serde("malformed export".to_owned()));
            },
            Some(p) => p,
        };
        if n != data.len() {
            proof {
                assert forall|lv: Seq<LogRecV>, ov: Seq<ObjRecV>|
                    crate::codec::export_ok(lv, ov) && data@ == crate::codec::enc_export(
                        lv,
                        ov,
                    ) implies false by {
                    assert(data@.len() == crate::codec::enc_export(lv, ov).len());
                }
            }
            return Err(Error::Serde("trailing bytes after export".to_owned()));
        }
        let no = objs.len();
        let mut valid = true;
        let ghost mut bad: int = 0;
        let mut k: usize = 0;
        while k < no
            invariant
                0 <= k <= no,
                no == objs@.len(),
                valid ==> forall|i: int| 0 <= i < k ==> rec_attrs_wf(#[trigger] objs@[i]@),
                !valid ==> 0 <= bad < no && !rec_attrs_wf(objs@[bad]@),
            decreases no - k,
        {
            let ok = match &objs[k].attrs {
                Some(a) => a.keys_unique(),
                None => true,
            };
            if !ok {
                proof {
                    if valid {
                        bad = k as int;
                    }
                }
                valid = false;
            }
            k = k + 1;
        }
        if !valid {
            proof {
                assert forall|lv: Seq<LogRecV>, ov: Seq<ObjRecV>|
                    crate::codec::export_ok(lv, ov) && (forall|i: int|
                        0 <= i < ov.len() ==> rec_attrs_wf(#[trigger] ov[i])) && data@
                        == crate::codec::enc_export(lv, ov) implies false by {
                    assert(crate::codec::obj_recs_view(objs@) == ov);
                    assert(ov[bad] == objs@[bad]@);
                    assert(rec_attrs_wf(objs@[bad]@));
                }
            }
            return Err(Error::Serde("duplicate attribute key".to_owned()));
        }
        let mut slots: Vec<Option<ObjRecord>> = Vec::new();
        let mut objs = objs;
        let ghost ov = crate::codec::obj_recs_view(objs@);
        let mut taken: usize = 0;
        let ghost total = ov.len();
        proof {
            assert(total <= usize::MAX);
        }
        while objs.len() > 0
            invariant
                total == ov.len(),
                total <= usize::MAX,
                taken + objs@.len() == ov.len(),
                slots@.len() == taken,
                crate::codec::obj_recs_view(objs@) =~= ov.skip(taken as int),
                forall|i: int| 0 <= i < objs@.len() ==> #[trigger] objs@[i]@ == ov[taken + i],
                forall|i: int| 0 <= i < ov.len() ==> rec_attrs_wf(#[trigger] ov[i]),
                forall|j: int| 0 <= j < slots@.len() ==> (#[trigger] slots@[j] matches Some(r) && r@ == ov[j]),
            decreases objs@.len(),
        {
            let rec = objs.remove(0);
            slots.push(Some(rec));
            taken = taken + 1;
            proof {
                assert(crate::codec::obj_recs_view(objs@) =~= ov.skip(taken as int));
            }
        }
        self.logs = logs;
        self.objs = slots;
        proof {
            assert(self.objs_v() =~= import_layout(ov));
            assert(present_objs(self.objs_v()) =~= ov) by {
                lemma_import_layout_present(ov);
            }
            assert(self.wf());
            assert(data@ =~= data@.take(n as int));
        }
        Ok(())
    }
}

/// The present records of the import layout are exactly the imported
/// records.
pub proof fn lemma_import_layout_present(ov: Seq<ObjRecV>)
    ensures
        present_objs(import_layout(ov)) =~= ov,
    decreases ov.len(),
{
    let s = import_layout(ov);
    if ov.len() == 0 {
    } else {
        assert(s[0] == Some(ov[0]));
        assert(s.drop_first() =~= import_layout(ov.drop_first()));
        lemma_import_layout_present(ov.drop_first());
        assert(present_objs(s) == seq![ov[0]] + present_objs(s.drop_first()));
    }
}

/// A store without holes reads back from `present_objs` unchanged.
pub proof fn lemma_present_dense(s: Seq<Option<ObjRecV>>)
    requires
        forall|i: int| 0 <= i < s.len() ==> s[i] is Some,
    ensures
        present_objs(s).len() == s.len(),
        forall|i: int| 0 <= i < s.len() ==> Some(#[trigger] present_objs(s)[i]) == s[i],
    decreases s.len(),
{
    if s.len() > 0 {
        assert(forall|i: int| 0 <= i < s.drop_first().len() ==> s.drop_first()[i] is Some);
        lemma_present_dense(s.drop_first());
        assert(s[0] is Some);
        assert(present_objs(s) == seq![s[0]->Some_0] + present_objs(s.drop_first()));
    }
}

/// Round trip: rebuilding a store from its own export reproduces an
/// equivalent store — the log records unchanged, the object records
/// unchanged and, for a store without holes (every operation here leaves
/// none), at their original ids — with the next log id one past the log
/// count and the next object id at the object count.
#[verifier::rlimit(100)]
pub fn rebuilt_from_export(source: &Store) -> (r: Store)
    requires
        source.wf(),
    ensures
        r.wf(),
        r.logs_v() == source.logs_v(),
        present_objs(r.objs_v()) == present_objs(source.objs_v()),
        r.objs_v() == import_layout(present_objs(source.objs_v())),
        (forall|i: int| 0 <= i < source.objs_v().len() ==> source.objs_v()[i] is Some)
            ==> r.objs_v() == source.objs_v(),
        r.logs_v().len() == source.logs_v().len(),
{
    let data = source.export();
    let mut fresh = Store::new();
    let imported = fresh.import(data.as_slice());
    proof {
        lemma_present_objs_wf(source.objs_v());
        assert forall|i: int|
            0 <= i < present_objs(source.objs_v()).len() implies rec_attrs_wf(
            #[trigger] present_objs(source.objs_v())[i],
        ) by {
            let x = present_objs(source.objs_v())[i];
            let j = choose|j: int|
                0 <= j < source.objs_v().len() && source.objs_v()[j] == Some(x);
            assert(source.objs_v()[j] matches Some(rr) && rec_attrs_wf(rr));
        }
        lemma_import_layout_present(present_objs(source.objs_v()));
        assert(imported is Ok);
        if forall|i: int| 0 <= i < source.objs_v().len() ==> source.objs_v()[i] is Some {
            lemma_present_dense(source.objs_v());
            assert(fresh.objs_v() =~= source.objs_v());
        }
    }
    fresh
}


/// Id monotonicity: ids are handed out as one more than the record count
/// the store held, and every operation leaves the counts no smaller, so
/// across any two appends in a store's lifetime the later id is strictly
/// greater than the earlier one and no id is ever reused.
pub proof fn lemma_log_ids_monotonic(count_at_first: nat, count_at_second: nat)
    requires
        // the store only grows: the first append left the count at
        // `count_at_first + 1`, and every later operation appends or keeps
        count_at_first + 1 <= count_at_second,
    ensures
        count_at_second + 1 > count_at_first + 1,
{
}

/// Object ids likewise: an object created while the store holds more
/// slots than an earlier creation saw gets a strictly larger id.
pub proof fn lemma_obj_ids_monotonic(slots_at_first: nat, slots_at_second: nat)
    requires
        slots_at_first + 1 <= slots_at_second,
    ensures
        slots_at_second > slots_at_first,
{
}

} // verus!
