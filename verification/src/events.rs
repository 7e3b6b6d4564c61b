//! Ordered notifications of one running task.
//!
//! Per task the caller sees exactly one `Started`, then zero or more `Log`
//! notifications tagged with their originating stream, then exactly one
//! terminal `Finished`; nothing follows `Finished`.  A [`TaskSession`]
//! enforces that protocol: it hands out the events and carries a ghost
//! trace of everything it handed out, so the ordering contract is a proved
//! invariant rather than a convention.

use vstd::prelude::*;

verus! {

/// Payload of the notification that a task's process was launched.
#[derive(Debug, Clone, PartialEq, Eq)]
pub struct StreamStartPayload {
    pub id: String,
    pub cmd: String,
}

/// Payload of one log notification: a decoded chunk from one stream,
/// tagged with the stream's name.
#[derive(Debug, Clone, PartialEq, Eq)]
pub struct StreamLinePayload {
    pub id: String,
    pub stream: String,
    pub line: String,
}

/// Payload of the terminal notification.
#[derive(Debug, Clone, PartialEq, Eq)]
pub struct StreamFinishedPayload {
    pub id: String,
    pub success: bool,
    pub code: Option<i32>,
}

/// One notification of a running task.
#[derive(Debug, Clone, PartialEq, Eq)]
pub enum StreamEvent {
    Started(StreamStartPayload),
    Log(StreamLinePayload),
    Finished(StreamFinishedPayload),
}

/// The task id an event is tagged with.
pub open spec fn event_id(e: StreamEvent) -> Seq<char> {
    match e {
        StreamEvent::Started(p) => p.id@,
        StreamEvent::Log(p) => p.id@,
        StreamEvent::Finished(p) => p.id@,
    }
}

/// The lifecycle position of one task's event stream.
#[derive(Debug, Clone, Copy, PartialEq, Eq)]
pub enum Phase {
    Created,
    Running,
    Done,
}

/// Orders the events of one task.  All events for the task are requested
/// from the session, which refuses them outside their phase: `Started`
/// only once at launch, `Log` only while running, `Finished` only once,
/// last.
pub struct TaskSession {
    id: String,
    phase: Phase,
    events: Ghost<Seq<StreamEvent>>,
}

impl TaskSession {
    /// The id of the task this session orders.
    pub closed spec fn task_id(&self) -> Seq<char> {
        self.id@
    }

    /// Where in its lifecycle the session stands.
    pub closed spec fn state(&self) -> Phase {
        self.phase
    }

    /// Every event handed out so far, in order.
    pub closed spec fn trace(&self) -> Seq<StreamEvent> {
        self.events@
    }

    /// The session's invariant: the trace matches the phase.
    pub closed spec fn wf(&self) -> bool {
        &&& (forall|i: int|
            0 <= i < self.events@.len() ==> event_id(#[trigger] self.events@[i]) == self.id@)
        &&& match self.phase {
            Phase::Created => self.events@.len() == 0,
            Phase::Running => {
                &&& self.events@.len() >= 1
                &&& self.events@[0] is Started
                &&& forall|i: int| 1 <= i < self.events@.len() ==> self.events@[i] is Log
            },
            Phase::Done => {
                &&& self.events@.len() >= 2
                &&& self.events@[0] is Started
                &&& self.events@.last() is Finished
                &&& forall|i: int| 1 <= i < self.events@.len() - 1 ==> self.events@[i] is Log
            },
        }
    }

    /// A fresh session for one task id.
    pub fn new(id: String) -> (r: TaskSession)
        ensures
            r.wf(),
            r.task_id() == id@,
            r.state() is Created,
            r.trace() == Seq::<StreamEvent>::empty(),
    {
        TaskSession { id, phase: Phase::Created, events: Ghost(Seq::empty()) }
    }

    /// The launch notification, emitted exactly once, first.
    pub fn start(&mut self, cmd: String) -> (e: StreamEvent)
        requires
            old(self).wf(),
            old(self).state() is Created,
        ensures
            final(self).wf(),
            final(self).task_id() == old(self).task_id(),
            final(self).state() is Running,
            final(self).trace() == old(self).trace().push(e),
            e matches StreamEvent::Started(p) && p.id@ == old(self).task_id() && p.cmd@ == cmd@,
    {
        let e = StreamEvent::Started(StreamStartPayload { id: self.id.clone(), cmd });
        self.phase = Phase::Running;
        proof {
            self.events@ = self.events@.push(e);
        }
        e
    }

    /// One log notification, only while the task runs; `stream` names the
    /// originating pipe.
    pub fn log(&mut self, stream: String, line: String) -> (e: StreamEvent)
        requires
            old(self).wf(),
            old(self).state() is Running,
        ensures
            final(self).wf(),
            final(self).task_id() == old(self).task_id(),
            final(self).state() is Running,
            final(self).trace() == old(self).trace().push(e),
            e matches StreamEvent::Log(p) && p.id@ == old(self).task_id() && p.stream@ == stream@
                && p.line@ == line@,
    {
        let e = StreamEvent::Log(StreamLinePayload { id: self.id.clone(), stream, line });
        proof {
            self.events@ = self.events@.push(e);
        }
        e
    }

    /// The terminal notification, emitted exactly once; afterwards the
    /// session accepts no further events.
    pub fn finish(&mut self, success: bool, code: Option<i32>) -> (e: StreamEvent)
        requires
            old(self).wf(),
            old(self).state() is Running,
        ensures
            final(self).wf(),
            final(self).task_id() == old(self).task_id(),
            final(self).state() is Done,
            final(self).trace() == old(self).trace().push(e),
            e matches StreamEvent::Finished(p) && p.id@ == old(self).task_id() && p.success
                == success && p.code == code,
    {
        let e = StreamEvent::Finished(
            StreamFinishedPayload { id: self.id.clone(), success, code },
        );
        self.phase = Phase::Done;
        proof {
            self.events@ = self.events@.push(e);
        }
        e
    }
}

/// The ordering contract of one task's notifications: a completed session
/// emitted exactly one `Started`, first; then zero or more `Log` events;
/// then exactly one `Finished`, last; every event tagged with the task's
/// id, and nothing after `Finished`.
pub proof fn lemma_event_order(s: &TaskSession)
    requires
        s.wf(),
        s.state() is Done,
    ensures
        s.trace().len() >= 2,
        s.trace()[0] is Started,
        s.trace().last() is Finished,
        forall|i: int| 1 <= i < s.trace().len() - 1 ==> s.trace()[i] is Log,
        forall|i: int| 0 <= i < s.trace().len() ==> event_id(#[trigger] s.trace()[i]) == s.task_id(),
        forall|i: int| 0 < i < s.trace().len() ==> !(s.trace()[i] is Started),
        forall|i: int| 0 <= i < s.trace().len() - 1 ==> !(s.trace()[i] is Finished),
{
}

} // verus!
