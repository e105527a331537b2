//! Pausing and cancelling a running task, and the events it sends.

use crate::error::TaskError;
use crate::model::Summary;
use vstd::prelude::*;

verus! {

/// The switches and counters of a running task.
#[derive(Clone, Copy, Debug, PartialEq, Eq, Structural)]
pub struct Control {
    pub cancelled: bool,
    pub paused: bool,
    pub read_bytes: u64,
    pub scanned: u64,
    pub completed: u64,
    /// The number of selected actions, once it has been counted.
    pub planned: Option<u64>,
}

impl Default for Control {
    fn default() -> (r: Control)
        ensures
            r == (Control {
                cancelled: false,
                paused: false,
                read_bytes: 0,
                scanned: 0,
                completed: 0,
                planned: None,
            }),
    {
        Control {
            cancelled: false,
            paused: false,
            read_bytes: 0,
            scanned: 0,
            completed: 0,
            planned: None,
        }
    }
}

/// What a task does at a point where it may be stopped.
#[derive(Clone, Copy, Debug, PartialEq, Eq, Structural)]
pub enum Checkpoint {
    /// Go on.
    Proceed,
    /// Wait for a change and ask again.
    Wait,
}

/// The message of a cancelled task.
pub const CANCELLED_MESSAGE: &'static str = "任务已取消；不会执行后续文件操作";

impl Control {
    /// Requests the end of the task.
    pub fn cancel(&mut self)
        ensures
            *final(self) == (Control { cancelled: true, ..*old(self) }),
    {
        self.cancelled = true;
    }

    /// Pauses the task or lets it go on.
    pub fn pause(&mut self, pause: bool)
        ensures
            *final(self) == (Control { paused: pause, ..*old(self) }),
    {
        self.paused = pause;
    }

    pub fn is_cancelled(&self) -> (r: bool)
        ensures
            r == self.cancelled,
    {
        self.cancelled
    }

    pub fn is_paused(&self) -> (r: bool)
        ensures
            r == self.paused,
    {
        self.paused
    }

    /// An error once the task was cancelled.
    pub fn check_cancelled(&self) -> (r: Result<(), TaskError>)
        ensures
            match r {
                Ok(()) => !self.cancelled,
                Err(e) => self.cancelled && e@ == seq![(CANCELLED_MESSAGE@, false)],
            },
    {
        if self.cancelled {
            Err(TaskError::new(CANCELLED_MESSAGE))
        } else {
            Ok(())
        }
    }

    /// A point where the task may be stopped: an error once it was cancelled,
    /// paused or not; waiting while it is paused.
    pub fn checkpoint(&self) -> (r: Result<Checkpoint, TaskError>)
        ensures
            match r {
                Ok(Checkpoint::Proceed) => !self.cancelled && !self.paused,
                Ok(Checkpoint::Wait) => !self.cancelled && self.paused,
                Err(e) => self.cancelled && e@ == seq![(CANCELLED_MESSAGE@, false)],
            },
    {
        match self.check_cancelled() {
            Err(e) => Err(e),
            Ok(()) => if self.paused {
                Ok(Checkpoint::Wait)
            } else {
                Ok(Checkpoint::Proceed)
            },
        }
    }

    /// Records how many actions are going to be executed.
    pub fn set_planned(&mut self, n: u64)
        ensures
            *final(self) == (Control { planned: Some(n), ..*old(self) }),
    {
        self.planned = Some(n);
    }
}

/// A cancelled task passes no further point, whatever else happens to it: no
/// pause takes a cancellation back.
pub proof fn law_cancel_is_final(before: Control, pause: bool)
    requires
        before.cancelled,
    ensures
        (Control { paused: pause, ..before }).cancelled,
        (Control { cancelled: true, ..before }) == before,
{
}

/// What a running task tells the window.
#[derive(Debug)]
pub enum Event {
    Status(String),
    Log(String),
    /// The analysis of the task in this directory is ready.
    Ready(String, Summary),
    /// The plan of the task in this directory was executed.
    Done(String, Summary),
    Failed(String),
    /// A page of the plan: task, rows, page, generation of the request and
    /// filter; then the generation and the content of the readiness snapshot.
    PlanPage(
        String,
        Vec<crate::model::Action>,
        usize,
        u64,
        Option<String>,
        u64,
        Option<crate::gui::PlanSnapshot>,
    ),
    /// A readiness snapshot: task, generation, content.
    PlanState(String, u64, Option<crate::gui::PlanSnapshot>),
    /// A selection was saved, or not: task, row and value, error.
    SelectionSaved(String, Option<(i64, bool)>, Option<String>),
    Notice(String),
    Error(String),
    /// A page could not be loaded: text, generation and filter of the request.
    PlanLoadFailed(String, u64, Option<String>),
    /// The archives were counted: generation of the request, result.
    ExtractCount(u64, Result<u64, String>),
    /// The extraction of the task in this directory has ended.
    ExtractDone(String, Summary),
}

/// How an event is handed over.
#[derive(Clone, Copy, Debug, PartialEq, Eq, Structural)]
pub enum Delivery {
    /// Nobody listens.
    Nowhere,
    /// It may be lost when the queue is full.
    Try,
    /// The sender waits until there is room.
    Wait,
}

/// The context of a task: its switches, and whether anybody listens.
#[derive(Clone, Copy, Debug, PartialEq, Eq, Structural)]
pub struct Context {
    pub control: Control,
    pub listening: bool,
}

/// The event is one that may be lost.
pub open spec fn is_transient(event: Event) -> bool {
    event is Log || event is Status
}

impl Context {
    /// How an event of the task is handed over: progress may be lost, results
    /// may not.
    pub fn emit(&self, event: &Event) -> (r: Delivery)
        ensures
            r == if !self.listening {
                Delivery::Nowhere
            } else if is_transient(*event) {
                Delivery::Try
            } else {
                Delivery::Wait
            },
    {
        if !self.listening {
            return Delivery::Nowhere;
        }
        match event {
            Event::Log(_) => Delivery::Try,
            Event::Status(_) => Delivery::Try,
            _ => Delivery::Wait,
        }
    }

    /// The event for a line of status, and how it is handed over.
    pub fn status(&self, line: &str) -> (r: (Event, Delivery))
        ensures
            r.0 matches Event::Status(s) && s@ == line@,
            r.1 == if self.listening {
                Delivery::Try
            } else {
                Delivery::Nowhere
            },
    {
        let event = Event::Status(line.to_owned());
        let delivery = self.emit(&event);
        (event, delivery)
    }
}

/// Only lines of status and of the log may be lost; results, errors and answers never.
pub proof fn law_results_are_never_lost(e: Event)
    ensures
        e is Ready || e is Done || e is Failed || e is ExtractDone || e is ExtractCount
            || e is SelectionSaved || e is PlanPage || e is PlanState || e is Error || e is Notice
            || e is PlanLoadFailed ==> !is_transient(e),
        e is Log ==> is_transient(e),
        e is Status ==> is_transient(e),
{
}

} // verus!
