//! The store's entities and their mathematical views, the session-kind
//! vocabulary, the heatmap level bucketing, and the store's error type.

use vstd::prelude::*;
use vstd::string::StringExecFns;
use crate::text::spec_date_of;

verus! {

/// A task row: a unit of work the user plans pomodoro sessions against.
#[derive(Debug, Clone, PartialEq)]
pub struct Task {
    pub id: String,
    pub text: String,
    pub completed: bool,
    pub created_at: String,
    pub completed_at: Option<String>,
    pub priority: i32,
    pub estimated_pomodoros: i32,
    pub actual_pomodoros: i32,
}

/// A pomodoro-session row: one timed work or break interval, appended at
/// start and finished at most once.
#[derive(Debug, Clone, PartialEq)]
pub struct PomodoroSession {
    pub id: String,
    pub task_id: Option<String>,
    pub session_type: String,
    pub duration_minutes: u32,
    pub started_at: String,
    pub completed_at: Option<String>,
    pub interrupted: bool,
}

/// A per-day statistics row, keyed by calendar date.
#[derive(Debug, Clone, PartialEq)]
pub struct DailyStats {
    pub date: String,
    pub pomodoros_completed: u32,
    pub total_work_time: u32,
    pub tasks_completed: u32,
}

/// A task together with its session history and the minutes spent on it.
#[derive(Debug, Clone, PartialEq)]
pub struct TaskWithStats {
    pub task: Task,
    pub pomodoro_sessions: Vec<PomodoroSession>,
    pub total_time_spent: u32,
}

/// One day of the focus heatmap: the date, how many qualifying work
/// sessions started that day, and the 0–4 intensity bucket of that count.
#[derive(Debug, Clone, PartialEq)]
pub struct HeatmapPoint {
    pub date: String,
    pub count: u32,
    pub level: u8,
}

/// A full snapshot of the store, each table ordered as in its own listing.
#[derive(Debug, Clone, PartialEq)]
pub struct ExportData {
    pub tasks: Vec<Task>,
    pub pomodoro_sessions: Vec<PomodoroSession>,
    pub daily_stats: Vec<DailyStats>,
    pub exported_at: String,
}

/// Why a store operation was refused.
#[derive(Debug, Clone, Copy, PartialEq, Eq, Structural)]
pub enum StoreError {
    /// The operation referenced a task or session id that does not exist.
    NotFound,
    /// A session kind outside the closed set was given.
    InvalidSessionKind,
    /// A freshly drawn identifier collided with an existing row.
    DuplicateId,
    /// The session to finish already carries a completion timestamp.
    AlreadyFinished,
    /// A counter or sum would exceed its machine bound; nothing was changed.
    CounterOverflow,
}

impl StoreError {
    /// A descriptive message for the caller.
    pub fn message(&self) -> (r: String)
        ensures
            *self == StoreError::NotFound ==> r@ == "no task or session with this id"@,
            *self == StoreError::InvalidSessionKind ==> r@ == "invalid session type"@,
            *self == StoreError::DuplicateId ==> r@ == "identifier already in use"@,
            *self == StoreError::AlreadyFinished ==> r@ == "session was already finished"@,
            *self == StoreError::CounterOverflow ==> r@ == "a counter would overflow"@,
    {
        match self {
            StoreError::NotFound => String::from_str("no task or session with this id"),
            StoreError::InvalidSessionKind => String::from_str("invalid session type"),
            StoreError::DuplicateId => String::from_str("identifier already in use"),
            StoreError::AlreadyFinished => String::from_str("session was already finished"),
            StoreError::CounterOverflow => String::from_str("a counter would overflow"),
        }
    }
}

/// Mathematical view of a task row.
#[verifier::ext_equal]
pub struct TaskV {
    pub id: Seq<char>,
    pub text: Seq<char>,
    pub completed: bool,
    pub created_at: Seq<char>,
    pub completed_at: Option<Seq<char>>,
    pub priority: int,
    pub estimated_pomodoros: int,
    pub actual_pomodoros: int,
}

/// Mathematical view of a session row.
#[verifier::ext_equal]
pub struct SessionV {
    pub id: Seq<char>,
    pub task_id: Option<Seq<char>>,
    pub session_type: Seq<char>,
    pub duration_minutes: int,
    pub started_at: Seq<char>,
    pub completed_at: Option<Seq<char>>,
    pub interrupted: bool,
}

/// Mathematical view of a daily-statistics row.
#[verifier::ext_equal]
pub struct StatV {
    pub date: Seq<char>,
    pub pomodoros_completed: int,
    pub total_work_time: int,
    pub tasks_completed: int,
}

pub open spec fn view_opt_string(o: Option<String>) -> Option<Seq<char>> {
    match o {
        Some(s) => Some(s@),
        None => None,
    }
}

impl View for Task {
    type V = TaskV;

    open spec fn view(&self) -> TaskV {
        TaskV {
            id: self.id@,
            text: self.text@,
            completed: self.completed,
            created_at: self.created_at@,
            completed_at: view_opt_string(self.completed_at),
            priority: self.priority as int,
            estimated_pomodoros: self.estimated_pomodoros as int,
            actual_pomodoros: self.actual_pomodoros as int,
        }
    }
}

impl View for PomodoroSession {
    type V = SessionV;

    open spec fn view(&self) -> SessionV {
        SessionV {
            id: self.id@,
            task_id: view_opt_string(self.task_id),
            session_type: self.session_type@,
            duration_minutes: self.duration_minutes as int,
            started_at: self.started_at@,
            completed_at: view_opt_string(self.completed_at),
            interrupted: self.interrupted,
        }
    }
}

impl View for DailyStats {
    type V = StatV;

    open spec fn view(&self) -> StatV {
        StatV {
            date: self.date@,
            pomodoros_completed: self.pomodoros_completed as int,
            total_work_time: self.total_work_time as int,
            tasks_completed: self.tasks_completed as int,
        }
    }
}

/// The closed set of session kinds accepted at write time.
pub open spec fn is_valid_kind(k: Seq<char>) -> bool {
    k == "work"@ || k == "short_break"@ || k == "long_break"@
}

/// Decides whether a session kind belongs to the closed set.
pub fn session_kind_valid(kind: &String) -> (r: bool)
    ensures
        r == is_valid_kind(kind@),
{
    let w = String::from_str("work");
    let sb = String::from_str("short_break");
    let lb = String::from_str("long_break");
    *kind == w || *kind == sb || *kind == lb
}

/// Decides whether a session kind is the work kind.
pub fn kind_is_work(kind: &String) -> (r: bool)
    ensures
        r == (kind@ == "work"@),
{
    let w = String::from_str("work");
    *kind == w
}

/// A session counts toward the statistics exactly when it is a work
/// session, finished, and not interrupted.
pub open spec fn qualifying(s: SessionV) -> bool {
    s.session_type == "work"@ && !s.interrupted && s.completed_at is Some
}

/// The date a finished session is attributed to: the date part of its
/// completion timestamp.
pub open spec fn completion_date(s: SessionV) -> Seq<char>
    recommends
        s.completed_at is Some,
{
    match s.completed_at {
        Some(ts) => spec_date_of(ts),
        None => Seq::empty(),
    }
}

/// A session qualifies for date `d` when it counts and finished on `d`.
pub open spec fn qualifying_on(s: SessionV, d: Seq<char>) -> bool {
    qualifying(s) && completion_date(s) == d
}

/// A session shows on the heatmap under the date it started.
pub open spec fn heatmap_date(s: SessionV) -> Seq<char> {
    spec_date_of(s.started_at)
}

/// The heatmap intensity bucket of a day's qualifying-session count.
pub open spec fn spec_level_of(count: int) -> int {
    if count == 0 {
        0
    } else if count <= 2 {
        1
    } else if count <= 5 {
        2
    } else if count <= 9 {
        3
    } else {
        4
    }
}

/// Computes the heatmap intensity bucket of a count.
pub fn heat_level(count: u32) -> (r: u8)
    ensures
        r as int == spec_level_of(count as int),
{
    if count == 0 {
        0
    } else if count <= 2 {
        1
    } else if count <= 5 {
        2
    } else if count <= 9 {
        3
    } else {
        4
    }
}

impl Task {
    /// A field-for-field copy of the row.
    pub fn duplicate(&self) -> (r: Task)
        ensures
            r@ == self@,
            r == *self,
    {
        Task {
            id: self.id.clone(),
            text: self.text.clone(),
            completed: self.completed,
            created_at: self.created_at.clone(),
            completed_at: match &self.completed_at {
                Some(ts) => Some(ts.clone()),
                None => None,
            },
            priority: self.priority,
            estimated_pomodoros: self.estimated_pomodoros,
            actual_pomodoros: self.actual_pomodoros,
        }
    }
}

impl PomodoroSession {
    /// A field-for-field copy of the row.
    pub fn duplicate(&self) -> (r: PomodoroSession)
        ensures
            r@ == self@,
            r == *self,
    {
        PomodoroSession {
            id: self.id.clone(),
            task_id: match &self.task_id {
                Some(t) => Some(t.clone()),
                None => None,
            },
            session_type: self.session_type.clone(),
            duration_minutes: self.duration_minutes,
            started_at: self.started_at.clone(),
            completed_at: match &self.completed_at {
                Some(ts) => Some(ts.clone()),
                None => None,
            },
            interrupted: self.interrupted,
        }
    }
}

impl DailyStats {
    /// A field-for-field copy of the row.
    pub fn duplicate(&self) -> (r: DailyStats)
        ensures
            r@ == self@,
            r == *self,
    {
        DailyStats {
            date: self.date.clone(),
            pomodoros_completed: self.pomodoros_completed,
            total_work_time: self.total_work_time,
            tasks_completed: self.tasks_completed,
        }
    }
}

} // verus!
