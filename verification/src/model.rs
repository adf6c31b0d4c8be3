//! The mathematical model of the store: its state, the well-formedness
//! invariant (every daily-statistics value equals the aggregation of the
//! session and task-completion log for its date, every task's actual
//! pomodoro count equals the number of qualifying sessions linked to it),
//! and the effect of each operation as a function on states.

use vstd::prelude::*;
use crate::counts::sum_by;
use crate::text::spec_date_of;
use crate::types::{TaskV, SessionV, StatV, qualifying, qualifying_on, completion_date, heatmap_date, is_valid_kind};

verus! {

/// The version every store is migrated to.
pub open spec fn current_version() -> int {
    2
}

/// The state of the store: the recorded schema version, which parts of the
/// schema exist, the three tables, and the log of task-completion events
/// (the dates on which a task transitioned to completed).
#[verifier::ext_equal]
pub struct StoreV {
    pub version: int,
    pub tasks_table: bool,
    pub sessions_table: bool,
    pub stats_table: bool,
    pub settings_table: bool,
    pub task_extras: bool,
    pub tasks: Seq<TaskV>,
    pub sessions: Seq<SessionV>,
    pub stats: Seq<StatV>,
    pub task_events: Seq<Seq<char>>,
}

// ---------------------------------------------------------------------------
// Aggregations over the log.
// ---------------------------------------------------------------------------

/// Indicator of a session qualifying for date `d`.
pub open spec fn pom_ind(d: Seq<char>) -> spec_fn(SessionV) -> int {
    |s: SessionV| if qualifying_on(s, d) { 1int } else { 0int }
}

/// The minutes a session qualifying for date `d` contributes.
pub open spec fn work_ind(d: Seq<char>) -> spec_fn(SessionV) -> int {
    |s: SessionV| if qualifying_on(s, d) { s.duration_minutes } else { 0int }
}

/// Indicator of a qualifying session linked to task `tid`.
pub open spec fn actual_ind(tid: Seq<char>) -> spec_fn(SessionV) -> int {
    |s: SessionV| if qualifying(s) && s.task_id == Some(tid) { 1int } else { 0int }
}

/// The minutes an uninterrupted work session linked to task `tid`
/// contributes to the time spent on that task.
pub open spec fn spent_ind(tid: Seq<char>) -> spec_fn(SessionV) -> int {
    |s: SessionV|
        if s.task_id == Some(tid) && s.session_type == "work"@ && !s.interrupted {
            s.duration_minutes
        } else {
            0int
        }
}

/// Indicator of a qualifying session that started on date `d`.
pub open spec fn heat_ind(d: Seq<char>) -> spec_fn(SessionV) -> int {
    |s: SessionV| if qualifying(s) && heatmap_date(s) == d { 1int } else { 0int }
}

/// Indicator of a task-completion event on date `d`.
pub open spec fn event_ind(d: Seq<char>) -> spec_fn(Seq<char>) -> int {
    |e: Seq<char>| if e == d { 1int } else { 0int }
}

/// How many sessions qualify for date `d`.
pub open spec fn count_poms(ss: Seq<SessionV>, d: Seq<char>) -> int {
    sum_by(ss, pom_ind(d))
}

/// The work minutes attributed to date `d`.
pub open spec fn sum_work(ss: Seq<SessionV>, d: Seq<char>) -> int {
    sum_by(ss, work_ind(d))
}

/// How many qualifying sessions are linked to task `tid`.
pub open spec fn count_actual(ss: Seq<SessionV>, tid: Seq<char>) -> int {
    sum_by(ss, actual_ind(tid))
}

/// The minutes spent on task `tid`.
pub open spec fn sum_spent(ss: Seq<SessionV>, tid: Seq<char>) -> int {
    sum_by(ss, spent_ind(tid))
}

/// How many qualifying sessions started on date `d`.
pub open spec fn count_heat(ss: Seq<SessionV>, d: Seq<char>) -> int {
    sum_by(ss, heat_ind(d))
}

/// How many task-completion events fell on date `d`.
pub open spec fn count_events(es: Seq<Seq<char>>, d: Seq<char>) -> int {
    sum_by(es, event_ind(d))
}

// ---------------------------------------------------------------------------
// Row lookup.
// ---------------------------------------------------------------------------

pub open spec fn has_task(tasks: Seq<TaskV>, id: Seq<char>) -> bool {
    exists|i: int| 0 <= i < tasks.len() && tasks[i].id == id
}

pub open spec fn task_idx(tasks: Seq<TaskV>, id: Seq<char>) -> int {
    choose|i: int| 0 <= i < tasks.len() && tasks[i].id == id
}

pub open spec fn has_session(ss: Seq<SessionV>, id: Seq<char>) -> bool {
    exists|i: int| 0 <= i < ss.len() && ss[i].id == id
}

pub open spec fn session_idx(ss: Seq<SessionV>, id: Seq<char>) -> int {
    choose|i: int| 0 <= i < ss.len() && ss[i].id == id
}

pub open spec fn has_stat(stats: Seq<StatV>, d: Seq<char>) -> bool {
    exists|i: int| 0 <= i < stats.len() && stats[i].date == d
}

pub open spec fn stat_idx(stats: Seq<StatV>, d: Seq<char>) -> int {
    choose|i: int| 0 <= i < stats.len() && stats[i].date == d
}

/// No session with this id carries a completion timestamp yet.
pub open spec fn session_unfinished(ss: Seq<SessionV>, sid: Seq<char>) -> bool {
    forall|i: int| 0 <= i < ss.len() && #[trigger] ss[i].id == sid ==> ss[i].completed_at is None
}

// ---------------------------------------------------------------------------
// Well-formedness.
// ---------------------------------------------------------------------------

/// The recorded version is consistent with which schema parts exist, and
/// rows live only in tables that exist.
pub open spec fn schema_wf(m: StoreV) -> bool {
    &&& 0 <= m.version <= current_version()
    &&& (m.version >= 1 ==> m.tasks_table)
    &&& (m.version >= 2 ==> m.sessions_table && m.stats_table && m.settings_table
        && m.task_extras)
    &&& (!m.tasks_table ==> m.tasks.len() == 0)
    &&& (!m.sessions_table ==> m.sessions.len() == 0)
    &&& (!m.stats_table ==> m.stats.len() == 0 && m.task_events.len() == 0)
}

/// Primary keys are unique.
pub open spec fn keys_distinct(m: StoreV) -> bool {
    &&& (forall|i: int, j: int|
        #![trigger m.tasks[i].id, m.tasks[j].id]
        0 <= i < j < m.tasks.len() ==> m.tasks[i].id != m.tasks[j].id)
    &&& (forall|i: int, j: int|
        #![trigger m.sessions[i].id, m.sessions[j].id]
        0 <= i < j < m.sessions.len() ==> m.sessions[i].id != m.sessions[j].id)
    &&& (forall|i: int, j: int|
        #![trigger m.stats[i].date, m.stats[j].date]
        0 <= i < j < m.stats.len() ==> m.stats[i].date != m.stats[j].date)
}

/// Every session carries a kind from the closed set and, when linked,
/// references an existing task.
pub open spec fn sessions_wf(m: StoreV) -> bool {
    forall|i: int|
        #![trigger m.sessions[i]]
        0 <= i < m.sessions.len() ==> {
            &&& is_valid_kind(m.sessions[i].session_type)
            &&& (match m.sessions[i].task_id {
                Some(t) => has_task(m.tasks, t),
                None => true,
            })
        }
}

/// The derived aggregates equal the aggregation of the log: each task's
/// actual count, and each daily-statistics row's three values; every date
/// carrying a qualifying session or a completion event has its row.
pub open spec fn counters_wf(m: StoreV) -> bool {
    &&& (forall|i: int|
        #![trigger m.tasks[i]]
        0 <= i < m.tasks.len() ==> m.tasks[i].actual_pomodoros == count_actual(
            m.sessions,
            m.tasks[i].id,
        ))
    &&& (forall|i: int|
        #![trigger m.stats[i]]
        0 <= i < m.stats.len() ==> {
            &&& m.stats[i].pomodoros_completed == count_poms(m.sessions, m.stats[i].date)
            &&& m.stats[i].total_work_time == sum_work(m.sessions, m.stats[i].date)
            &&& m.stats[i].tasks_completed == count_events(m.task_events, m.stats[i].date)
        })
    &&& (forall|i: int|
        #![trigger m.sessions[i]]
        0 <= i < m.sessions.len() && qualifying(m.sessions[i]) ==> has_stat(
            m.stats,
            completion_date(m.sessions[i]),
        ))
    &&& (forall|i: int|
        #![trigger m.task_events[i]]
        0 <= i < m.task_events.len() ==> has_stat(m.stats, m.task_events[i]))
}

/// The store's invariant.
pub open spec fn wf(m: StoreV) -> bool {
    schema_wf(m) && keys_distinct(m) && sessions_wf(m) && counters_wf(m)
}

/// The schema is at the current version.
pub open spec fn schema_current(m: StoreV) -> bool {
    m.version == current_version()
}

// ---------------------------------------------------------------------------
// The effect of each operation.
// ---------------------------------------------------------------------------

/// Bringing the schema to the current version: a no-op on a current store,
/// otherwise all schema parts are created and the version is recorded.
/// Rows are never touched.
pub open spec fn migrate_model(m: StoreV) -> StoreV {
    if m.version >= current_version() {
        m
    } else {
        StoreV {
            version: current_version(),
            tasks_table: true,
            sessions_table: true,
            stats_table: true,
            settings_table: true,
            task_extras: true,
            ..m
        }
    }
}

/// Recording a fresh task with the defaults.
pub open spec fn create_task_model(m: StoreV, id: Seq<char>, text: Seq<char>, now: Seq<char>) -> StoreV {
    StoreV {
        tasks: m.tasks.push(
            TaskV {
                id: id,
                text: text,
                completed: false,
                created_at: now,
                completed_at: None,
                priority: 0,
                estimated_pomodoros: 1,
                actual_pomodoros: 0,
            },
        ),
        ..m
    }
}

/// The aggregate maintainer's work-session upsert: the row for `d` gains
/// one pomodoro and `minutes` of work time, and is created if absent.
pub open spec fn bump_work_model(m: StoreV, d: Seq<char>, minutes: int) -> StoreV {
    if has_stat(m.stats, d) {
        let i = stat_idx(m.stats, d);
        let st = m.stats[i];
        StoreV {
            stats: m.stats.update(
                i,
                StatV {
                    pomodoros_completed: st.pomodoros_completed + 1,
                    total_work_time: st.total_work_time + minutes,
                    ..st
                },
            ),
            ..m
        }
    } else {
        StoreV {
            stats: m.stats.push(
                StatV { date: d, pomodoros_completed: 1, total_work_time: minutes, tasks_completed: 0 },
            ),
            ..m
        }
    }
}

/// The aggregate maintainer's task-completed upsert: the event is logged
/// and the row for `d` gains one completed task, created if absent.
pub open spec fn bump_task_done_model(m: StoreV, d: Seq<char>) -> StoreV {
    let stats = if has_stat(m.stats, d) {
        let i = stat_idx(m.stats, d);
        let st = m.stats[i];
        m.stats.update(i, StatV { tasks_completed: st.tasks_completed + 1, ..st })
    } else {
        m.stats.push(StatV { date: d, pomodoros_completed: 0, total_work_time: 0, tasks_completed: 1 })
    };
    StoreV { stats: stats, task_events: m.task_events.push(d), ..m }
}

/// Setting a task's completion flag; a transition to completed bumps the
/// day's completed-task statistic.
pub open spec fn set_completed_model(m: StoreV, tid: Seq<char>, completed: bool, now: Seq<char>) -> StoreV {
    if !has_task(m.tasks, tid) {
        m
    } else {
        let i = task_idx(m.tasks, tid);
        let t = m.tasks[i];
        let m1 = StoreV {
            tasks: m.tasks.update(
                i,
                TaskV {
                    completed: completed,
                    completed_at: if completed { Some(now) } else { None },
                    ..t
                },
            ),
            ..m
        };
        if completed && !t.completed {
            bump_task_done_model(m1, spec_date_of(now))
        } else {
            m1
        }
    }
}

/// The in-place field update; completion state and counters are untouched,
/// and a missing id leaves the store unchanged.
pub open spec fn update_task_model(
    m: StoreV,
    tid: Seq<char>,
    text: Seq<char>,
    priority: int,
    estimated: int,
) -> StoreV {
    if !has_task(m.tasks, tid) {
        m
    } else {
        let i = task_idx(m.tasks, tid);
        let t = m.tasks[i];
        StoreV {
            tasks: m.tasks.update(
                i,
                TaskV { text: text, priority: priority, estimated_pomodoros: estimated, ..t },
            ),
            ..m
        }
    }
}

/// Deleting a task: its row goes, and every session that referenced it
/// keeps running with its link set to none.
pub open spec fn delete_task_model(m: StoreV, tid: Seq<char>) -> StoreV {
    if !has_task(m.tasks, tid) {
        m
    } else {
        let i = task_idx(m.tasks, tid);
        StoreV {
            tasks: m.tasks.remove(i),
            sessions: m.sessions.map_values(
                |s: SessionV|
                    if s.task_id == Some(tid) {
                        SessionV { task_id: None, ..s }
                    } else {
                        s
                    },
            ),
            ..m
        }
    }
}

/// Appending a freshly started session: running, not interrupted.
pub open spec fn start_session_model(
    m: StoreV,
    id: Seq<char>,
    task_id: Option<Seq<char>>,
    kind: Seq<char>,
    duration: int,
    now: Seq<char>,
) -> StoreV {
    StoreV {
        sessions: m.sessions.push(
            SessionV {
                id: id,
                task_id: task_id,
                session_type: kind,
                duration_minutes: duration,
                started_at: now,
                completed_at: None,
                interrupted: false,
            },
        ),
        ..m
    }
}

/// Finishing a session: the row gets its completion timestamp and
/// interruption flag; a qualifying completion additionally bumps the linked
/// task's actual count and the day's statistics, all in one step.
pub open spec fn complete_session_model(
    m: StoreV,
    sid: Seq<char>,
    was_completed: bool,
    was_interrupted: bool,
    now: Seq<char>,
) -> StoreV {
    if !has_session(m.sessions, sid) {
        m
    } else {
        let i = session_idx(m.sessions, sid);
        let s = m.sessions[i];
        let s2 = SessionV {
            completed_at: if was_completed { Some(now) } else { None },
            interrupted: was_interrupted,
            ..s
        };
        let m1 = StoreV { sessions: m.sessions.update(i, s2), ..m };
        if s.session_type == "work"@ && was_completed && !was_interrupted {
            let m2 = match s.task_id {
                Some(tid) => if has_task(m1.tasks, tid) {
                    let j = task_idx(m1.tasks, tid);
                    let t = m1.tasks[j];
                    StoreV {
                        tasks: m1.tasks.update(j, TaskV { actual_pomodoros: t.actual_pomodoros + 1, ..t }),
                        ..m1
                    }
                } else {
                    m1
                },
                None => m1,
            };
            bump_work_model(m2, spec_date_of(now), s.duration_minutes)
        } else {
            m1
        }
    }
}

/// Whether finishing this session stays within the counters' machine
/// bounds, so that the effect can be committed whole.
pub open spec fn complete_fits(
    m: StoreV,
    sid: Seq<char>,
    was_completed: bool,
    was_interrupted: bool,
    now: Seq<char>,
) -> bool {
    if has_session(m.sessions, sid) {
        let s = m.sessions[session_idx(m.sessions, sid)];
        if s.session_type == "work"@ && was_completed && !was_interrupted {
            &&& (match s.task_id {
                Some(tid) => has_task(m.tasks, tid)
                    ==> m.tasks[task_idx(m.tasks, tid)].actual_pomodoros < i32::MAX,
                None => true,
            })
            &&& (has_stat(m.stats, spec_date_of(now)) ==> {
                let st = m.stats[stat_idx(m.stats, spec_date_of(now))];
                &&& st.pomodoros_completed < u32::MAX
                &&& st.total_work_time + s.duration_minutes <= u32::MAX
            })
        } else {
            true
        }
    } else {
        true
    }
}

/// Whether a completion transition for today stays within the completed-task
/// counter's machine bound.
pub open spec fn set_completed_fits(m: StoreV, tid: Seq<char>, completed: bool, now: Seq<char>) -> bool {
    if has_task(m.tasks, tid) && completed && !m.tasks[task_idx(m.tasks, tid)].completed {
        has_stat(m.stats, spec_date_of(now))
            ==> m.stats[stat_idx(m.stats, spec_date_of(now))].tasks_completed < u32::MAX
    } else {
        true
    }
}

} // verus!
