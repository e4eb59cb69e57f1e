//! The typed record model: identifiers, object and log payloads, the type
//! tags that name them on disk, and diffs.
//!
//! Object and log records are closed tagged unions (`ObjPayload`,
//! `LogPayload`); the generic `ApiObj`/`ApiLog` traits are the thin
//! adapters between a concrete payload type and its union, each carrying
//! the type tag that the codec embeds and checks.

use vstd::prelude::*;

use crate::attr::{attr_val_view, AttrValue, AttrValueV, Attrs, AttrsV};
use crate::recur::{Every, OptRepeated, Repeated, Stop};
use crate::time::{DateTime, Duration};

verus! {

pub type IdType = u32;

/// The identifier of a log record; allocated from a monotone counter.
#[derive(Clone, Copy, Debug, PartialEq, Eq, Structural, PartialOrd, Ord, Hash)]
pub struct LogId(pub IdType);

/// The identifier of an object record; allocated from its own counter.
#[derive(Clone, Copy, Debug, PartialEq, Eq, Structural, PartialOrd, Ord, Hash)]
pub struct ObjId(pub IdType);

/// Either kind of identifier.
#[derive(Clone, Copy, Debug, PartialEq, Eq, Structural)]
pub enum EitherId {
    Obj(ObjId),
    Log(LogId),
}

/// Why a printed identifier failed to parse.
#[derive(Clone, Debug, PartialEq)]
pub enum EitherIdParseError {
    /// The leading kind letter was not `O` or `L` (`None`: empty input).
    InvalidHeader(Option<char>),
    /// The digits were missing, malformed, or too large.
    ParseInt,
}

/// Which cached occurrence of a task counts as current.
#[derive(Clone, Copy, Debug, PartialEq, Eq, Structural)]
pub enum TaskFlavor {
    /// Switch to the next occurrence right after the current deadline.
    Deadline,
    /// Switch in the middle between two deadlines.
    Balanced,
}

impl Default for TaskFlavor {
    fn default() -> (r: Self)
        ensures
            r == TaskFlavor::Deadline,
    {
        TaskFlavor::Deadline
    }
}

/// Values that may be left out of a minimized encoding when they carry no
/// information.
pub trait MinimizedSerde {
    fn min_able(&self) -> bool;
}

impl MinimizedSerde for TaskFlavor {
    fn min_able(&self) -> (r: bool)
        ensures
            r == (*self == TaskFlavor::Deadline),
    {
        match self {
            TaskFlavor::Deadline => true,
            TaskFlavor::Balanced => false,
        }
    }
}

impl<T> MinimizedSerde for Vec<T> {
    fn min_able(&self) -> (r: bool)
        ensures
            r == (self@.len() == 0),
    {
        self.len() == 0
    }
}

impl MinimizedSerde for Attrs {
    fn min_able(&self) -> (r: bool)
        ensures
            r == (self@.len() == 0),
    {
        self.len() == 0
    }
}

pub fn gen_ahead_default() -> (r: usize)
    ensures
        r == 5,
{
    5
}

pub fn cache_size_default() -> (r: usize)
    ensures
        r == 10,
{
    10
}

pub fn is_false(b: &bool) -> (r: bool)
    ensures
        r == !*b,
{
    !*b
}

/// What can go wrong in the store.
#[derive(Debug, PartialEq)]
pub enum Error {
    /// The store is already held by another caller; retry later.
    Deadlock,
    /// The underlying engine failed.
    Database(String),
    /// Encoded data could not be decoded: corruption or version mismatch.
    Serde(String),
    /// A handler pattern failed to compile.
    Regex(String),
    /// An attribute key holds `.`, which is reserved.
    InvalidKey(String),
    /// No log record has this identifier.
    InvalidLogID(LogId),
    /// No object record has this identifier.
    InvalidObjID(ObjId),
    /// The stored type tag does not match the requested type.
    TypeMismatch { expected: String, actual: String },
    /// The attribute to delete was never set on that object.
    DelNonExistent(ObjId, String),
}

/// How a mutable field changed: newly set, removed, or replaced.
#[derive(Debug, PartialEq)]
pub enum Diff<T> {
    New(T),
    Del(T),
    Diff(T, T),
}

/// The singleton system-state object.
#[derive(Clone, Copy, Debug, PartialEq, Eq, Structural)]
pub struct State {
    pub last_notified: Option<DateTime>,
}

impl State {
    pub fn new() -> (r: State)
        ensures
            r.last_notified is None,
    {
        State { last_notified: None }
    }
}

/// A scheduled event: when it starts and how long it lasts.
#[derive(Clone, Debug, PartialEq)]
pub struct Event {
    pub start: OptRepeated,
    pub duration: Duration,
}

/// A scheduled task that generates `SubTask` occurrences ahead of time.
#[derive(Clone, Debug, PartialEq)]
pub struct Task {
    pub deadline: OptRepeated,
    pub priority: u32,
    pub flavor: TaskFlavor,
    /// How many future occurrences are pre-generated.
    pub gen_ahead: usize,
    /// The user-configured part of the occurrence cache bound.
    pub cache_size: usize,
    pub notifications: Vec<Duration>,
    /// A FIFO cache of the generated occurrence ids, oldest first.
    pub cache: Vec<ObjId>,
}

impl Task {
    /// A task with the default flavor, look-ahead and cache size.
    pub fn new(deadline: OptRepeated, priority: u32, cache: Vec<ObjId>) -> (r: Task)
        ensures
            r.deadline == deadline,
            r.priority == priority,
            r.flavor == TaskFlavor::Deadline,
            r.gen_ahead == 5,
            r.cache_size == 10,
            r.notifications@.len() == 0,
            r.cache == cache,
    {
        Task {
            deadline,
            priority,
            flavor: TaskFlavor::Deadline,
            gen_ahead: gen_ahead_default(),
            cache_size: cache_size_default(),
            notifications: Vec::new(),
            cache,
        }
    }
}

/// One generated occurrence of a task.
#[derive(Clone, Debug, PartialEq)]
pub struct SubTask {
    pub task_id: ObjId,
    pub deadline: DateTime,
    pub notifications: Vec<Duration>,
    /// Set at most once, from `None` to the finishing instant.
    pub finished: Option<DateTime>,
}

impl SubTask {
    pub fn new(task_id: ObjId, deadline: DateTime, notifications: Vec<Duration>) -> (r: SubTask)
        ensures
            r.task_id == task_id,
            r.deadline == deadline,
            r.notifications == notifications,
            r.finished is None,
    {
        SubTask { task_id, deadline, notifications, finished: None }
    }
}

/// The payload of an object record: one of the known object kinds.
#[derive(Clone, Debug, PartialEq)]
pub enum ObjPayload {
    State(State),
    Event(Event),
    Task(Task),
    SubTask(SubTask),
}

/// A log that an object was created.
#[derive(Clone, Debug, PartialEq)]
pub struct CreateObj {
    pub id: ObjId,
    pub typ: String,
}

/// A log that an object's description changed, with the diff.
#[derive(Debug, PartialEq)]
pub struct ObjSetDesc {
    pub id: ObjId,
    pub diff: Diff<String>,
}

/// A log that an object's attribute changed, with the diff.
#[derive(Debug, PartialEq)]
pub struct ObjSetAttr {
    pub id: ObjId,
    pub attr: String,
    pub diff: Diff<AttrValue>,
}

/// A log that a task occurrence was finished.
#[derive(Clone, Copy, Debug, PartialEq, Eq, Structural)]
pub struct TaskFinish {
    pub id: ObjId,
}

/// The payload of a log record: one of the known log kinds.
#[derive(Debug, PartialEq)]
pub enum LogPayload {
    CreateObj(CreateObj),
    ObjSetDesc(ObjSetDesc),
    ObjSetAttr(ObjSetAttr),
    TaskFinish(TaskFinish),
}

/// A full object record as stored: its user fields and typed payload.
#[derive(Debug, PartialEq)]
pub struct ObjRecord {
    pub name: String,
    pub desc: Option<String>,
    pub attrs: Option<Attrs>,
    pub payload: ObjPayload,
}

/// A full log record as stored.
#[derive(Debug, PartialEq)]
pub struct LogRecord {
    pub time: DateTime,
    pub attrs: Option<Attrs>,
    pub payload: LogPayload,
}

/// A typed object handed to a caller, with its identifier.
#[derive(Debug, PartialEq)]
pub struct Obj<T> {
    pub id: ObjId,
    pub name: String,
    pub desc: Option<String>,
    pub attrs: Option<Attrs>,
    pub inner: T,
}

/// A typed log handed to a caller, with its identifier.
#[derive(Debug, PartialEq)]
pub struct Log<T> {
    pub id: LogId,
    pub time: DateTime,
    pub attrs: Option<Attrs>,
    pub inner: T,
}

/// An object record of any kind, as handed to scans.
#[derive(Debug, PartialEq)]
pub struct ScriptObj {
    pub id: ObjId,
    pub typ: String,
    pub name: String,
    pub desc: Option<String>,
    pub attrs: Option<Attrs>,
    pub payload: ObjPayload,
}

/// A log record of any kind, as handed to scans.
#[derive(Debug, PartialEq)]
pub struct ScriptLog {
    pub id: LogId,
    pub typ: String,
    pub time: DateTime,
    pub attrs: Option<Attrs>,
    pub payload: LogPayload,
}

// ------------------------------------------------------------------
// Ghost views
// ------------------------------------------------------------------

#[verifier::ext_equal]
pub ghost enum EveryV {
    Time(i64),
    Month(u32),
}

#[verifier::ext_equal]
pub ghost enum StopV {
    Nonstop,
    Stopped,
    Count(i32),
    After(i64),
}

#[verifier::ext_equal]
pub ghost struct RepeatedV {
    pub start: Seq<i64>,
    pub every: EveryV,
    pub stop: StopV,
    pub last: Option<i64>,
    pub index: usize,
}

#[verifier::ext_equal]
pub ghost enum OptRepeatedV {
    Single(i64),
    Repeat(RepeatedV),
}

#[verifier::ext_equal]
pub ghost struct StateV {
    pub last_notified: Option<i64>,
}

#[verifier::ext_equal]
pub ghost struct EventV {
    pub start: OptRepeatedV,
    pub duration: i64,
}

#[verifier::ext_equal]
pub ghost struct TaskV {
    pub deadline: OptRepeatedV,
    pub priority: u32,
    pub flavor: TaskFlavor,
    pub gen_ahead: usize,
    pub cache_size: usize,
    pub notifications: Seq<i64>,
    pub cache: Seq<u32>,
}

#[verifier::ext_equal]
pub ghost struct SubTaskV {
    pub task_id: u32,
    pub deadline: i64,
    pub notifications: Seq<i64>,
    pub finished: Option<i64>,
}

#[verifier::ext_equal]
pub ghost enum ObjPayloadV {
    State(StateV),
    Event(EventV),
    Task(TaskV),
    SubTask(SubTaskV),
}

#[verifier::ext_equal]
pub ghost enum DiffV<T> {
    New(T),
    Del(T),
    Diff(T, T),
}

#[verifier::ext_equal]
pub ghost enum LogPayloadV {
    CreateObj { id: u32, typ: Seq<char> },
    ObjSetDesc { id: u32, diff: DiffV<Seq<char>> },
    ObjSetAttr { id: u32, attr: Seq<char>, diff: DiffV<AttrValueV> },
    TaskFinish { id: u32 },
}

#[verifier::ext_equal]
pub ghost struct ObjRecV {
    pub name: Seq<char>,
    pub desc: Option<Seq<char>>,
    pub attrs: Option<AttrsV>,
    pub payload: ObjPayloadV,
}

#[verifier::ext_equal]
pub ghost struct LogRecV {
    pub time: i64,
    pub attrs: Option<AttrsV>,
    pub payload: LogPayloadV,
}

/// Instants of a vector, as their seconds.
pub open spec fn dts_view(v: Seq<DateTime>) -> Seq<i64> {
    Seq::new(v.len(), |i: int| v[i].secs)
}

/// Durations of a vector, as their seconds.
pub open spec fn durs_view(v: Seq<Duration>) -> Seq<i64> {
    Seq::new(v.len(), |i: int| v[i].secs)
}

/// Object ids of a vector, as raw numbers.
pub open spec fn ids_view(v: Seq<ObjId>) -> Seq<u32> {
    Seq::new(v.len(), |i: int| v[i].0)
}

impl View for Every {
    type V = EveryV;

    open spec fn view(&self) -> EveryV {
        match self {
            Every::Time(d) => EveryV::Time(d.secs),
            Every::Month(c) => EveryV::Month(*c),
        }
    }
}

impl View for Stop {
    type V = StopV;

    open spec fn view(&self) -> StopV {
        match self {
            Stop::Nonstop => StopV::Nonstop,
            Stop::Stopped => StopV::Stopped,
            Stop::Count(n) => StopV::Count(*n),
            Stop::After(t) => StopV::After(t.secs),
        }
    }
}

impl View for Repeated {
    type V = RepeatedV;

    open spec fn view(&self) -> RepeatedV {
        RepeatedV {
            start: dts_view(self.start@),
            every: self.every@,
            stop: self.stop@,
            last: match self.last {
                Some(d) => Some(d.secs),
                None => None,
            },
            index: self.index,
        }
    }
}

impl View for OptRepeated {
    type V = OptRepeatedV;

    open spec fn view(&self) -> OptRepeatedV {
        match self {
            OptRepeated::Single(d) => OptRepeatedV::Single(d.secs),
            OptRepeated::Repeat(r) => OptRepeatedV::Repeat(r@),
        }
    }
}

impl View for State {
    type V = StateV;

    open spec fn view(&self) -> StateV {
        StateV {
            last_notified: match self.last_notified {
                Some(d) => Some(d.secs),
                None => None,
            },
        }
    }
}

impl View for Event {
    type V = EventV;

    open spec fn view(&self) -> EventV {
        EventV { start: self.start@, duration: self.duration.secs }
    }
}

impl View for Task {
    type V = TaskV;

    open spec fn view(&self) -> TaskV {
        TaskV {
            deadline: self.deadline@,
            priority: self.priority,
            flavor: self.flavor,
            gen_ahead: self.gen_ahead,
            cache_size: self.cache_size,
            notifications: durs_view(self.notifications@),
            cache: ids_view(self.cache@),
        }
    }
}

impl View for SubTask {
    type V = SubTaskV;

    open spec fn view(&self) -> SubTaskV {
        SubTaskV {
            task_id: self.task_id.0,
            deadline: self.deadline.secs,
            notifications: durs_view(self.notifications@),
            finished: match self.finished {
                Some(d) => Some(d.secs),
                None => None,
            },
        }
    }
}

impl View for ObjPayload {
    type V = ObjPayloadV;

    open spec fn view(&self) -> ObjPayloadV {
        match self {
            ObjPayload::State(x) => ObjPayloadV::State(x@),
            ObjPayload::Event(x) => ObjPayloadV::Event(x@),
            ObjPayload::Task(x) => ObjPayloadV::Task(x@),
            ObjPayload::SubTask(x) => ObjPayloadV::SubTask(x@),
        }
    }
}

impl View for LogPayload {
    type V = LogPayloadV;

    open spec fn view(&self) -> LogPayloadV {
        match self {
            LogPayload::CreateObj(x) => LogPayloadV::CreateObj { id: x.id.0, typ: x.typ@ },
            LogPayload::ObjSetDesc(x) => LogPayloadV::ObjSetDesc {
                id: x.id.0,
                diff: match &x.diff {
                    Diff::New(n) => DiffV::New(n@),
                    Diff::Del(o) => DiffV::Del(o@),
                    Diff::Diff(o, n) => DiffV::Diff(o@, n@),
                },
            },
            LogPayload::ObjSetAttr(x) => LogPayloadV::ObjSetAttr {
                id: x.id.0,
                attr: x.attr@,
                diff: match &x.diff {
                    Diff::New(n) => DiffV::New(attr_val_view(*n)),
                    Diff::Del(o) => DiffV::Del(attr_val_view(*o)),
                    Diff::Diff(o, n) => DiffV::Diff(attr_val_view(*o), attr_val_view(*n)),
                },
            },
            LogPayload::TaskFinish(x) => LogPayloadV::TaskFinish { id: x.id.0 },
        }
    }
}

impl View for ObjRecord {
    type V = ObjRecV;

    open spec fn view(&self) -> ObjRecV {
        ObjRecV {
            name: self.name@,
            desc: match &self.desc {
                Some(s) => Some(s@),
                None => None,
            },
            attrs: match &self.attrs {
                Some(a) => Some(a@),
                None => None,
            },
            payload: self.payload@,
        }
    }
}

impl View for LogRecord {
    type V = LogRecV;

    open spec fn view(&self) -> LogRecV {
        LogRecV {
            time: self.time.secs,
            attrs: match &self.attrs {
                Some(a) => Some(a@),
                None => None,
            },
            payload: self.payload@,
        }
    }
}

// ------------------------------------------------------------------
// Type tags and the adapter traits
// ------------------------------------------------------------------

/// The type tag of an object payload.
pub open spec fn obj_payload_tag(p: ObjPayloadV) -> Seq<char> {
    match p {
        ObjPayloadV::State(_) => "sys.state"@,
        ObjPayloadV::Event(_) => "event"@,
        ObjPayloadV::Task(_) => "task"@,
        ObjPayloadV::SubTask(_) => "task.sub"@,
    }
}

/// The type tag of a log payload.
pub open spec fn log_payload_tag(p: LogPayloadV) -> Seq<char> {
    match p {
        LogPayloadV::CreateObj { .. } => "obj.create"@,
        LogPayloadV::ObjSetDesc { .. } => "obj.set_desc"@,
        LogPayloadV::ObjSetAttr { .. } => "obj.set_attr"@,
        LogPayloadV::TaskFinish { .. } => "task.finish"@,
    }
}

impl ObjPayload {
    /// The type tag, as a string.
    pub fn tag_string(&self) -> (r: String)
        ensures
            r@ == obj_payload_tag(self@),
    {
        match self {
            ObjPayload::State(_) => "sys.state".to_owned(),
            ObjPayload::Event(_) => "event".to_owned(),
            ObjPayload::Task(_) => "task".to_owned(),
            ObjPayload::SubTask(_) => "task.sub".to_owned(),
        }
    }
}

impl LogPayload {
    /// The type tag, as a string.
    pub fn tag_string(&self) -> (r: String)
        ensures
            r@ == log_payload_tag(self@),
    {
        match self {
            LogPayload::CreateObj(_) => "obj.create".to_owned(),
            LogPayload::ObjSetDesc(_) => "obj.set_desc".to_owned(),
            LogPayload::ObjSetAttr(_) => "obj.set_attr".to_owned(),
            LogPayload::TaskFinish(_) => "task.finish".to_owned(),
        }
    }
}

/// An object kind: a payload type with its tag and its place in the union.
pub trait ApiObj: Sized {
    /// The type tag naming this kind.
    spec fn obj_type_spec() -> Seq<char>;

    /// This kind's value inside a payload, if the payload is of this kind.
    spec fn of_payload_spec(p: ObjPayloadV) -> Option<Self::V> where Self: View;

    fn obj_type() -> (r: &'static str) where Self: View
        ensures
            r@ == Self::obj_type_spec(),
    ;

    fn into_payload(self) -> (r: ObjPayload) where Self: View
        ensures
            r@ is State || r@ is Event || r@ is Task || r@ is SubTask,
            Self::of_payload_spec(r@) == Some(self@),
            obj_payload_tag(r@) == Self::obj_type_spec(),
    ;

    fn of_payload(p: ObjPayload) -> (r: Option<Self>) where Self: View
        ensures
            match r {
                Some(x) => Self::of_payload_spec(p@) == Some(x@) && obj_payload_tag(p@)
                    == Self::obj_type_spec(),
                None => Self::of_payload_spec(p@) is None && obj_payload_tag(p@)
                    != Self::obj_type_spec(),
            },
    ;
}

/// A log kind, as `ApiObj` is for objects.
pub trait ApiLog: Sized {
    spec fn log_type_spec() -> Seq<char>;

    spec fn of_payload_spec(p: LogPayloadV) -> Option<Self::V> where Self: View;

    fn log_type() -> (r: &'static str) where Self: View
        ensures
            r@ == Self::log_type_spec(),
    ;

    fn into_payload(self) -> (r: LogPayload) where Self: View
        ensures
            Self::of_payload_spec(r@) == Some(self@),
            log_payload_tag(r@) == Self::log_type_spec(),
    ;

    fn of_payload(p: LogPayload) -> (r: Option<Self>) where Self: View
        ensures
            match r {
                Some(x) => Self::of_payload_spec(p@) == Some(x@) && log_payload_tag(p@)
                    == Self::log_type_spec(),
                None => Self::of_payload_spec(p@) is None && log_payload_tag(p@)
                    != Self::log_type_spec(),
            },
    ;
}

// ------------------------------------------------------------------
// Adapter impls for the known kinds
// ------------------------------------------------------------------

/// The four object tags are pairwise distinct.
pub proof fn lemma_obj_tags_distinct()
    ensures
        "sys.state"@ != "event"@,
        "sys.state"@ != "task"@,
        "sys.state"@ != "task.sub"@,
        "event"@ != "task"@,
        "event"@ != "task.sub"@,
        "task"@ != "task.sub"@,
{
    broadcast use vstd::string::group_string_axioms;

    reveal_strlit("sys.state");
    reveal_strlit("event");
    reveal_strlit("task");
    reveal_strlit("task.sub");
    assert("sys.state"@.len() == 9);
    assert("event"@.len() == 5);
    assert("task"@.len() == 4);
    assert("task.sub"@.len() == 8);
}

/// The four log tags are pairwise distinct.
pub proof fn lemma_log_tags_distinct()
    ensures
        "obj.create"@ != "obj.set_desc"@,
        "obj.create"@ != "obj.set_attr"@,
        "obj.create"@ != "task.finish"@,
        "obj.set_desc"@ != "obj.set_attr"@,
        "obj.set_desc"@ != "task.finish"@,
        "obj.set_attr"@ != "task.finish"@,
{
    broadcast use vstd::string::group_string_axioms;

    reveal_strlit("obj.create");
    reveal_strlit("obj.set_desc");
    reveal_strlit("obj.set_attr");
    reveal_strlit("task.finish");
    assert("obj.create"@.len() == 10);
    assert("obj.set_desc"@.len() == 12);
    assert("obj.set_attr"@.len() == 12);
    assert("task.finish"@.len() == 11);
    assert("obj.set_desc"@[8] != "obj.set_attr"@[8]);
}

impl ApiObj for State {
    open spec fn obj_type_spec() -> Seq<char> {
        "sys.state"@
    }

    open spec fn of_payload_spec(p: ObjPayloadV) -> Option<StateV> {
        match p {
            ObjPayloadV::State(x) => Some(x),
            _ => None,
        }
    }

    fn obj_type() -> &'static str {
        "sys.state"
    }

    fn into_payload(self) -> ObjPayload {
        ObjPayload::State(self)
    }

    fn of_payload(p: ObjPayload) -> Option<State> {
        proof {
            lemma_obj_tags_distinct();
        }
        match p {
            ObjPayload::State(x) => Some(x),
            _ => None,
        }
    }
}

impl ApiObj for Event {
    open spec fn obj_type_spec() -> Seq<char> {
        "event"@
    }

    open spec fn of_payload_spec(p: ObjPayloadV) -> Option<EventV> {
        match p {
            ObjPayloadV::Event(x) => Some(x),
            _ => None,
        }
    }

    fn obj_type() -> &'static str {
        "event"
    }

    fn into_payload(self) -> ObjPayload {
        ObjPayload::Event(self)
    }

    fn of_payload(p: ObjPayload) -> Option<Event> {
        proof {
            lemma_obj_tags_distinct();
        }
        match p {
            ObjPayload::Event(x) => Some(x),
            _ => None,
        }
    }
}

impl ApiObj for Task {
    open spec fn obj_type_spec() -> Seq<char> {
        "task"@
    }

    open spec fn of_payload_spec(p: ObjPayloadV) -> Option<TaskV> {
        match p {
            ObjPayloadV::Task(x) => Some(x),
            _ => None,
        }
    }

    fn obj_type() -> &'static str {
        "task"
    }

    fn into_payload(self) -> ObjPayload {
        ObjPayload::Task(self)
    }

    fn of_payload(p: ObjPayload) -> Option<Task> {
        proof {
            lemma_obj_tags_distinct();
        }
        match p {
            ObjPayload::Task(x) => Some(x),
            _ => None,
        }
    }
}

impl ApiObj for SubTask {
    open spec fn obj_type_spec() -> Seq<char> {
        "task.sub"@
    }

    open spec fn of_payload_spec(p: ObjPayloadV) -> Option<SubTaskV> {
        match p {
            ObjPayloadV::SubTask(x) => Some(x),
            _ => None,
        }
    }

    fn obj_type() -> &'static str {
        "task.sub"
    }

    fn into_payload(self) -> ObjPayload {
        ObjPayload::SubTask(self)
    }

    fn of_payload(p: ObjPayload) -> Option<SubTask> {
        proof {
            lemma_obj_tags_distinct();
        }
        match p {
            ObjPayload::SubTask(x) => Some(x),
            _ => None,
        }
    }
}

impl View for CreateObj {
    type V = LogPayloadV;

    open spec fn view(&self) -> LogPayloadV {
        LogPayloadV::CreateObj { id: self.id.0, typ: self.typ@ }
    }
}

impl View for ObjSetDesc {
    type V = LogPayloadV;

    open spec fn view(&self) -> LogPayloadV {
        LogPayloadV::ObjSetDesc {
            id: self.id.0,
            diff: match &self.diff {
                Diff::New(n) => DiffV::New(n@),
                Diff::Del(o) => DiffV::Del(o@),
                Diff::Diff(o, n) => DiffV::Diff(o@, n@),
            },
        }
    }
}

impl View for ObjSetAttr {
    type V = LogPayloadV;

    open spec fn view(&self) -> LogPayloadV {
        LogPayloadV::ObjSetAttr {
            id: self.id.0,
            attr: self.attr@,
            diff: match &self.diff {
                Diff::New(n) => DiffV::New(attr_val_view(*n)),
                Diff::Del(o) => DiffV::Del(attr_val_view(*o)),
                Diff::Diff(o, n) => DiffV::Diff(attr_val_view(*o), attr_val_view(*n)),
            },
        }
    }
}

impl View for TaskFinish {
    type V = LogPayloadV;

    open spec fn view(&self) -> LogPayloadV {
        LogPayloadV::TaskFinish { id: self.id.0 }
    }
}

impl ApiLog for CreateObj {
    open spec fn log_type_spec() -> Seq<char> {
        "obj.create"@
    }

    open spec fn of_payload_spec(p: LogPayloadV) -> Option<LogPayloadV> {
        match p {
            LogPayloadV::CreateObj { .. } => Some(p),
            _ => None,
        }
    }

    fn log_type() -> &'static str {
        "obj.create"
    }

    fn into_payload(self) -> LogPayload {
        LogPayload::CreateObj(self)
    }

    fn of_payload(p: LogPayload) -> Option<CreateObj> {
        proof {
            lemma_log_tags_distinct();
        }
        match p {
            LogPayload::CreateObj(x) => Some(x),
            _ => None,
        }
    }
}

impl ApiLog for ObjSetDesc {
    open spec fn log_type_spec() -> Seq<char> {
        "obj.set_desc"@
    }

    open spec fn of_payload_spec(p: LogPayloadV) -> Option<LogPayloadV> {
        match p {
            LogPayloadV::ObjSetDesc { .. } => Some(p),
            _ => None,
        }
    }

    fn log_type() -> &'static str {
        "obj.set_desc"
    }

    fn into_payload(self) -> LogPayload {
        LogPayload::ObjSetDesc(self)
    }

    fn of_payload(p: LogPayload) -> Option<ObjSetDesc> {
        proof {
            lemma_log_tags_distinct();
        }
        match p {
            LogPayload::ObjSetDesc(x) => Some(x),
            _ => None,
        }
    }
}

impl ApiLog for ObjSetAttr {
    open spec fn log_type_spec() -> Seq<char> {
        "obj.set_attr"@
    }

    open spec fn of_payload_spec(p: LogPayloadV) -> Option<LogPayloadV> {
        match p {
            LogPayloadV::ObjSetAttr { .. } => Some(p),
            _ => None,
        }
    }

    fn log_type() -> &'static str {
        "obj.set_attr"
    }

    fn into_payload(self) -> LogPayload {
        LogPayload::ObjSetAttr(self)
    }

    fn of_payload(p: LogPayload) -> Option<ObjSetAttr> {
        proof {
            lemma_log_tags_distinct();
        }
        match p {
            LogPayload::ObjSetAttr(x) => Some(x),
            _ => None,
        }
    }
}

impl ApiLog for TaskFinish {
    open spec fn log_type_spec() -> Seq<char> {
        "task.finish"@
    }

    open spec fn of_payload_spec(p: LogPayloadV) -> Option<LogPayloadV> {
        match p {
            LogPayloadV::TaskFinish { .. } => Some(p),
            _ => None,
        }
    }

    fn log_type() -> &'static str {
        "task.finish"
    }

    fn into_payload(self) -> LogPayload {
        LogPayload::TaskFinish(self)
    }

    fn of_payload(p: LogPayload) -> Option<TaskFinish> {
        proof {
            lemma_log_tags_distinct();
        }
        match p {
            LogPayload::TaskFinish(x) => Some(x),
            _ => None,
        }
    }
}

// ------------------------------------------------------------------
// Verified deep copies
// ------------------------------------------------------------------

pub fn copy_durations(v: &Vec<Duration>) -> (r: Vec<Duration>)
    ensures
        r@ == v@,
{
    let n = v.len();
    let mut out: Vec<Duration> = Vec::new();
    let mut i: usize = 0;
    while i < n
        invariant
            0 <= i <= n,
            n == v@.len(),
            out@ == v@.take(i as int),
        decreases n - i,
    {
        out.push(v[i]);
        proof {
            assert(out@ =~= v@.take(i + 1));
        }
        i = i + 1;
    }
    proof {
        assert(out@ =~= v@);
    }
    out
}

pub fn copy_ids(v: &Vec<ObjId>) -> (r: Vec<ObjId>)
    ensures
        r@ == v@,
{
    let n = v.len();
    let mut out: Vec<ObjId> = Vec::new();
    let mut i: usize = 0;
    while i < n
        invariant
            0 <= i <= n,
            n == v@.len(),
            out@ == v@.take(i as int),
        decreases n - i,
    {
        out.push(v[i]);
        proof {
            assert(out@ =~= v@.take(i + 1));
        }
        i = i + 1;
    }
    proof {
        assert(out@ =~= v@);
    }
    out
}

pub fn copy_instants(v: &Vec<DateTime>) -> (r: Vec<DateTime>)
    ensures
        r@ == v@,
{
    let n = v.len();
    let mut out: Vec<DateTime> = Vec::new();
    let mut i: usize = 0;
    while i < n
        invariant
            0 <= i <= n,
            n == v@.len(),
            out@ == v@.take(i as int),
        decreases n - i,
    {
        out.push(v[i]);
        proof {
            assert(out@ =~= v@.take(i + 1));
        }
        i = i + 1;
    }
    proof {
        assert(out@ =~= v@);
    }
    out
}

/// A copy of an optional description, equal by view.
pub fn copy_opt_string(o: &Option<String>) -> (r: Option<String>)
    ensures
        match (&r, o) {
            (Some(a), Some(b)) => a@ == b@,
            (None, None) => true,
            _ => false,
        },
{
    match o {
        None => None,
        Some(s) => Some(s.clone()),
    }
}

/// A copy of an optional attribute map, equal by view.
pub fn copy_opt_attrs(o: &Option<Attrs>) -> (r: Option<Attrs>)
    ensures
        match (&r, o) {
            (Some(a), Some(b)) => a@ == b@,
            (None, None) => true,
            _ => false,
        },
{
    match o {
        None => None,
        Some(a) => Some(a.duplicate()),
    }
}

impl Repeated {
    /// A schedule equal to this one, by view.
    pub fn duplicate(&self) -> (r: Repeated)
        ensures
            r@ == self@,
            r.start@ == self.start@,
            r.every == self.every,
            r.stop == self.stop,
            r.last == self.last,
            r.index == self.index,
    {
        let r = Repeated {
            start: copy_instants(&self.start),
            every: self.every,
            stop: self.stop,
            last: self.last,
            index: self.index,
        };
        proof {
            assert(r@ =~= self@);
        }
        r
    }
}

impl OptRepeated {
    /// A deadline equal to this one, by view.
    pub fn duplicate(&self) -> (r: OptRepeated)
        ensures
            r@ == self@,
            r is Single <==> self is Single,
            r matches OptRepeated::Single(t) ==> *self matches OptRepeated::Single(t2) && t == t2,
    {
        match self {
            OptRepeated::Single(t) => OptRepeated::Single(*t),
            OptRepeated::Repeat(rep) => OptRepeated::Repeat(rep.duplicate()),
        }
    }
}

impl ObjPayload {
    /// A payload equal to this one, by view.
    pub fn duplicate(&self) -> (r: ObjPayload)
        ensures
            r@ == self@,
    {
        match self {
            ObjPayload::State(x) => ObjPayload::State(*x),
            ObjPayload::Event(x) => ObjPayload::Event(
                Event { start: x.start.duplicate(), duration: x.duration },
            ),
            ObjPayload::Task(x) => {
                let t = Task {
                    deadline: x.deadline.duplicate(),
                    priority: x.priority,
                    flavor: x.flavor,
                    gen_ahead: x.gen_ahead,
                    cache_size: x.cache_size,
                    notifications: copy_durations(&x.notifications),
                    cache: copy_ids(&x.cache),
                };
                proof {
                    assert(t@ =~= x@);
                }
                ObjPayload::Task(t)
            },
            ObjPayload::SubTask(x) => {
                let st = SubTask {
                    task_id: x.task_id,
                    deadline: x.deadline,
                    notifications: copy_durations(&x.notifications),
                    finished: x.finished,
                };
                proof {
                    assert(st@ =~= x@);
                }
                ObjPayload::SubTask(st)
            },
        }
    }
}

impl ObjRecord {
    /// A record equal to this one, by view.
    pub fn duplicate(&self) -> (r: ObjRecord)
        ensures
            r@ == self@,
    {
        let r = ObjRecord {
            name: self.name.clone(),
            desc: copy_opt_string(&self.desc),
            attrs: copy_opt_attrs(&self.attrs),
            payload: self.payload.duplicate(),
        };
        proof {
            assert(r@ =~= self@);
        }
        r
    }
}

impl LogPayload {
    /// A payload equal to this one, by view.
    pub fn duplicate(&self) -> (r: LogPayload)
        ensures
            r@ == self@,
    {
        match self {
            LogPayload::CreateObj(x) => LogPayload::CreateObj(
                CreateObj { id: x.id, typ: x.typ.clone() },
            ),
            LogPayload::ObjSetDesc(x) => LogPayload::ObjSetDesc(
                ObjSetDesc {
                    id: x.id,
                    diff: match &x.diff {
                        Diff::New(n) => Diff::New(n.clone()),
                        Diff::Del(o) => Diff::Del(o.clone()),
                        Diff::Diff(o, n) => Diff::Diff(o.clone(), n.clone()),
                    },
                },
            ),
            LogPayload::ObjSetAttr(x) => LogPayload::ObjSetAttr(
                ObjSetAttr {
                    id: x.id,
                    attr: x.attr.clone(),
                    diff: match &x.diff {
                        Diff::New(n) => Diff::New(n.duplicate()),
                        Diff::Del(o) => Diff::Del(o.duplicate()),
                        Diff::Diff(o, n) => Diff::Diff(o.duplicate(), n.duplicate()),
                    },
                },
            ),
            LogPayload::TaskFinish(x) => LogPayload::TaskFinish(*x),
        }
    }
}

impl LogRecord {
    /// A record equal to this one, by view.
    pub fn duplicate(&self) -> (r: LogRecord)
        ensures
            r@ == self@,
    {
        let r = LogRecord {
            time: self.time,
            attrs: copy_opt_attrs(&self.attrs),
            payload: self.payload.duplicate(),
        };
        proof {
            assert(r@ =~= self@);
        }
        r
    }
}

} // verus!
