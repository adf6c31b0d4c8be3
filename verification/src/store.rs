//! The store itself: the three tables, the schema state, and the verified
//! write operations. Every operation's effect equals its model function and
//! preserves the invariant; cross-table effects of one user action are
//! applied whole or not at all.

use vstd::prelude::*;
use crate::ambient::{now_rfc3339, fresh_id};
use crate::model::{
    StoreV, wf, schema_current, has_task, has_session, has_stat, task_idx, session_idx, stat_idx,
    session_unfinished, migrate_model, create_task_model, set_completed_model, set_completed_fits,
    update_task_model, delete_task_model, start_session_model, complete_session_model,
    complete_fits,
};
use crate::preservation::{
    lemma_migrate_wf, lemma_create_task_wf, lemma_set_completed_wf, lemma_update_task_wf,
    lemma_delete_task_wf, lemma_start_session_wf, lemma_complete_session_wf,
    lemma_task_idx_unique, lemma_session_idx_unique, lemma_stat_idx_unique,
};
use crate::text::date_of_timestamp;
use crate::types::{
    Task, PomodoroSession, DailyStats, TaskV, SessionV, StatV, StoreError, session_kind_valid,
    kind_is_work, is_valid_kind, view_opt_string,
};

verus! {

pub open spec fn tasks_view(v: Seq<Task>) -> Seq<TaskV> {
    v.map_values(|t: Task| t@)
}

pub open spec fn sessions_view(v: Seq<PomodoroSession>) -> Seq<SessionV> {
    v.map_values(|s: PomodoroSession| s@)
}

pub open spec fn stats_view(v: Seq<DailyStats>) -> Seq<StatV> {
    v.map_values(|s: DailyStats| s@)
}

/// The store: a versioned schema and its three tables, plus the ghost log
/// of task-completion events that the statistics are audited against.
pub struct Store {
    pub version: u32,
    pub tasks_table: bool,
    pub sessions_table: bool,
    pub stats_table: bool,
    pub settings_table: bool,
    pub task_extras: bool,
    pub tasks: Vec<Task>,
    pub sessions: Vec<PomodoroSession>,
    pub stats: Vec<DailyStats>,
    pub task_events: Ghost<Seq<Seq<char>>>,
}

impl View for Store {
    type V = StoreV;

    open spec fn view(&self) -> StoreV {
        StoreV {
            version: self.version as int,
            tasks_table: self.tasks_table,
            sessions_table: self.sessions_table,
            stats_table: self.stats_table,
            settings_table: self.settings_table,
            task_extras: self.task_extras,
            tasks: tasks_view(self.tasks@),
            sessions: sessions_view(self.sessions@),
            stats: stats_view(self.stats@),
            task_events: self.task_events@,
        }
    }
}

/// The state a store starts from: nothing on disk yet.
pub open spec fn empty_store() -> StoreV {
    StoreV {
        version: 0,
        tasks_table: false,
        sessions_table: false,
        stats_table: false,
        settings_table: false,
        task_extras: false,
        tasks: Seq::empty(),
        sessions: Seq::empty(),
        stats: Seq::empty(),
        task_events: Seq::empty(),
    }
}

impl Store {
    /// The store's invariant.
    pub open spec fn wf(&self) -> bool {
        wf(self@)
    }

    /// The invariant together with schema currency: what every repository
    /// operation relies on, guaranteed by running the migrator first.
    pub open spec fn ready(&self) -> bool {
        wf(self@) && schema_current(self@)
    }

    /// A store over an absent database: no schema, no rows.
    pub fn new() -> (r: Store)
        ensures
            r@ == empty_store(),
            r.wf(),
    {
        let r = Store {
            version: 0,
            tasks_table: false,
            sessions_table: false,
            stats_table: false,
            settings_table: false,
            task_extras: false,
            tasks: Vec::new(),
            sessions: Vec::new(),
            stats: Vec::new(),
            task_events: Ghost(Seq::empty()),
        };
        proof {
            assert(r@ =~~= empty_store());
        }
        r
    }

    /// Brings the schema to the current version: each step tolerates state
    /// a previous interrupted run left behind, rows are never touched, and
    /// re-running against a current store changes nothing at all.
    pub fn migrate_database(&mut self) -> (r: Result<(), StoreError>)
        requires
            old(self).wf(),
        ensures
            final(self)@ == migrate_model(old(self)@),
            final(self).ready(),
            r is Ok,
            old(self).ready() ==> *final(self) == *old(self),
    {
        proof {
            lemma_migrate_wf(old(self)@);
        }
        if self.version < 2 {
            // migration 1: the tasks table (tolerates an existing one)
            self.tasks_table = true;
            // migration 2: the extra task columns and the remaining tables
            self.task_extras = true;
            self.sessions_table = true;
            self.stats_table = true;
            self.settings_table = true;
            // record the version only after every step succeeded
            self.version = 2;
            proof {
                assert(self@ =~~= migrate_model(old(self)@));
            }
        } else {
            proof {
                assert(self@ =~~= migrate_model(old(self)@));
            }
        }
        Ok(())
    }

    /// Whether a task with this id exists: what callers check before they
    /// hand the store a link.
    pub fn contains_task(&self, id: &String) -> (r: bool)
        ensures
            r == has_task(self@.tasks, id@),
    {
        self.find_task(id).is_some()
    }

    /// The index of the task row holding `id`, scanning from the front.
    pub(crate) fn find_task(&self, id: &String) -> (r: Option<usize>)
        ensures
            match r {
                Some(i) => i < self.tasks@.len() && self@.tasks[i as int].id == id@,
                None => !has_task(self@.tasks, id@),
            },
    {
        let n = self.tasks.len();
        let mut k: usize = 0;
        while k < n
            invariant
                k <= n,
                n == self.tasks@.len(),
                forall|v: int| 0 <= v < k ==> self@.tasks[v].id != id@,
            decreases n - k,
        {
            if self.tasks[k].id == *id {
                return Some(k);
            }
            k = k + 1;
        }
        None
    }

    /// The index of the session row holding `id`, scanning from the front.
    pub(crate) fn find_session(&self, id: &String) -> (r: Option<usize>)
        ensures
            match r {
                Some(i) => i < self.sessions@.len() && self@.sessions[i as int].id == id@,
                None => !has_session(self@.sessions, id@),
            },
    {
        let n = self.sessions.len();
        let mut k: usize = 0;
        while k < n
            invariant
                k <= n,
                n == self.sessions@.len(),
                forall|v: int| 0 <= v < k ==> self@.sessions[v].id != id@,
            decreases n - k,
        {
            if self.sessions[k].id == *id {
                return Some(k);
            }
            k = k + 1;
        }
        None
    }

    /// The index of the statistics row for date `d`, scanning from the front.
    pub(crate) fn find_stat(&self, d: &String) -> (r: Option<usize>)
        ensures
            match r {
                Some(i) => i < self.stats@.len() && self@.stats[i as int].date == d@,
                None => !has_stat(self@.stats, d@),
            },
    {
        let n = self.stats.len();
        let mut k: usize = 0;
        while k < n
            invariant
                k <= n,
                n == self.stats@.len(),
                forall|v: int| 0 <= v < k ==> self@.stats[v].date != d@,
            decreases n - k,
        {
            if self.stats[k].date == *d {
                return Some(k);
            }
            k = k + 1;
        }
        None
    }
}


impl Store {
    /// Records a fresh task with the given id and creation timestamp:
    /// not completed, default priority, one estimated and zero actual
    /// pomodoros. Refused only when the id is already taken.
    pub fn create_task_at(&mut self, text: String, id: String, now: String) -> (r: Result<
        Task,
        StoreError,
    >)
        requires
            old(self).ready(),
        ensures
            final(self).ready(),
            (r is Ok) <==> !has_task(old(self)@.tasks, id@),
            r is Ok ==> {
                &&& final(self)@ == create_task_model(old(self)@, id@, text@, now@)
                &&& r->Ok_0@ == (TaskV {
                    id: id@,
                    text: text@,
                    completed: false,
                    created_at: now@,
                    completed_at: None,
                    priority: 0,
                    estimated_pomodoros: 1,
                    actual_pomodoros: 0,
                })
            },
            r is Err ==> r == Err::<Task, StoreError>(StoreError::DuplicateId) && *final(self)
                == *old(self),
    {
        if self.find_task(&id).is_some() {
            return Err(StoreError::DuplicateId);
        }
        let t = Task {
            id: id,
            text: text,
            completed: false,
            created_at: now,
            completed_at: None,
            priority: 0,
            estimated_pomodoros: 1,
            actual_pomodoros: 0,
        };
        let out = t.duplicate();
        proof {
            lemma_create_task_wf(old(self)@, t.id@, t.text@, t.created_at@);
        }
        self.tasks.push(t);
        proof {
            assert(self@ =~~= create_task_model(old(self)@, id@, text@, now@));
        }
        Ok(out)
    }

    /// Creates a task from a fresh identifier and the clock, as the user's
    /// create action does.
    pub fn add_task(&mut self, text: String) -> (r: Result<Task, StoreError>)
        requires
            old(self).ready(),
        ensures
            final(self).ready(),
            r is Ok ==> {
                &&& !has_task(old(self)@.tasks, r->Ok_0@.id)
                &&& final(self)@ == create_task_model(
                    old(self)@,
                    r->Ok_0@.id,
                    text@,
                    r->Ok_0@.created_at,
                )
                &&& r->Ok_0@.text == text@
                &&& !r->Ok_0@.completed
                &&& r->Ok_0@.completed_at is None
                &&& r->Ok_0@.priority == 0
                &&& r->Ok_0@.estimated_pomodoros == 1
                &&& r->Ok_0@.actual_pomodoros == 0
            },
            r is Err ==> r == Err::<Task, StoreError>(StoreError::DuplicateId) && *final(self)
                == *old(self),
            old(self)@.tasks.len() == 0 ==> r is Ok,
    {
        let id = fresh_id();
        let now = now_rfc3339();
        self.create_task_at(text, id, now)
    }

    /// Sets a task's completion flag and timestamp; a transition to
    /// completed also bumps today's completed-task statistic, in the same
    /// step. Fails with `NotFound` on a missing id, and refuses (changing
    /// nothing) when the statistic cannot absorb the bump.
    pub fn complete_task_at(&mut self, task_id: &String, completed: bool, now: &String) -> (r:
        Result<(), StoreError>)
        requires
            old(self).ready(),
        ensures
            final(self).ready(),
            (r is Ok) <==> has_task(old(self)@.tasks, task_id@) && set_completed_fits(
                old(self)@,
                task_id@,
                completed,
                now@,
            ),
            r is Ok ==> final(self)@ == set_completed_model(old(self)@, task_id@, completed, now@),
            (r == Err::<(), StoreError>(StoreError::NotFound)) <==> !has_task(
                old(self)@.tasks,
                task_id@,
            ),
            r is Err ==> *final(self) == *old(self) && (r == Err::<(), StoreError>(
                StoreError::NotFound,
            ) || r == Err::<(), StoreError>(StoreError::CounterOverflow)),
    {
        let i = match self.find_task(task_id) {
            None => {
                return Err(StoreError::NotFound);
            },
            Some(i) => i,
        };
        proof {
            lemma_task_idx_unique(self@, i as int);
        }
        let transition = completed && !self.tasks[i].completed;
        let today = date_of_timestamp(now.as_str());
        let ghost today_v = today@;
        if transition {
            match self.find_stat(&today) {
                Some(w) => {
                    proof {
                        lemma_stat_idx_unique(self@, w as int);
                    }
                    if self.stats[w].tasks_completed == u32::MAX {
                        return Err(StoreError::CounterOverflow);
                    }
                },
                None => {},
            }
        }
        // all checks passed: apply the whole effect
        let t = self.tasks[i].duplicate();
        let t2 = Task {
            completed: completed,
            completed_at: if completed { Some(now.clone()) } else { None },
            ..t
        };
        self.tasks[i] = t2;
        if transition {
            match self.find_stat(&today) {
                Some(w) => {
                    proof {
                        lemma_stat_idx_unique(old(self)@, w as int);
                    }
                    let st = self.stats[w].duplicate();
                    let st2 = DailyStats { tasks_completed: st.tasks_completed + 1, ..st };
                    self.stats[w] = st2;
                },
                None => {
                    self.stats.push(
                        DailyStats {
                            date: today,
                            pomodoros_completed: 0,
                            total_work_time: 0,
                            tasks_completed: 1,
                        },
                    );
                },
            }
            self.task_events = Ghost(self.task_events@.push(today_v));
        }
        proof {
            lemma_set_completed_wf(old(self)@, task_id@, completed, now@);
            assert(self@ =~~= set_completed_model(old(self)@, task_id@, completed, now@));
        }
        Ok(())
    }

    /// Sets a task's completion flag at the clock's current instant.
    pub fn complete_task(&mut self, task_id: &String, completed: bool) -> (r: Result<
        (),
        StoreError,
    >)
        requires
            old(self).ready(),
        ensures
            final(self).ready(),
            r is Ok ==> exists|nowv: Seq<char>|
                final(self)@ == #[trigger] set_completed_model(
                    old(self)@,
                    task_id@,
                    completed,
                    nowv,
                ),
            (r == Err::<(), StoreError>(StoreError::NotFound)) <==> !has_task(
                old(self)@.tasks,
                task_id@,
            ),
            r is Err ==> *final(self) == *old(self) && (r == Err::<(), StoreError>(
                StoreError::NotFound,
            ) || r == Err::<(), StoreError>(StoreError::CounterOverflow)),
            has_task(old(self)@.tasks, task_id@) && (forall|nowv: Seq<char>|
                #[trigger] set_completed_fits(old(self)@, task_id@, completed, nowv)) ==> r is Ok,
    {
        let now = now_rfc3339();
        let r = self.complete_task_at(task_id, completed, &now);
        proof {
            if r is Ok {
                assert(self@ == set_completed_model(old(self)@, task_id@, completed, now@));
            }
        }
        r
    }

    /// The in-place field update: description, priority and estimate;
    /// completion state and the actual count are untouched, and a missing
    /// id changes nothing.
    pub fn update_task(
        &mut self,
        task_id: &String,
        text: String,
        priority: i32,
        estimated_pomodoros: i32,
    ) -> (r: Result<(), StoreError>)
        requires
            old(self).ready(),
        ensures
            final(self).ready(),
            r is Ok,
            final(self)@ == update_task_model(
                old(self)@,
                task_id@,
                text@,
                priority as int,
                estimated_pomodoros as int,
            ),
    {
        proof {
            lemma_update_task_wf(
                old(self)@,
                task_id@,
                text@,
                priority as int,
                estimated_pomodoros as int,
            );
        }
        match self.find_task(task_id) {
            Some(i) => {
                proof {
                    lemma_task_idx_unique(self@, i as int);
                }
                let t = self.tasks[i].duplicate();
                let t2 = Task {
                    text: text,
                    priority: priority,
                    estimated_pomodoros: estimated_pomodoros,
                    ..t
                };
                self.tasks[i] = t2;
                proof {
                    assert(self@ =~~= update_task_model(
                        old(self)@,
                        task_id@,
                        text@,
                        priority as int,
                        estimated_pomodoros as int,
                    ));
                }
            },
            None => {
                proof {
                    assert(self@ =~~= update_task_model(
                        old(self)@,
                        task_id@,
                        text@,
                        priority as int,
                        estimated_pomodoros as int,
                    ));
                }
            },
        }
        Ok(())
    }

    /// Deletes a task. Sessions that referenced it stay, with their link
    /// cleared by the store itself; a missing id changes nothing, and the
    /// operation never fails.
    pub fn delete_task(&mut self, task_id: &String) -> (r: Result<(), StoreError>)
        requires
            old(self).ready(),
        ensures
            final(self).ready(),
            r is Ok,
            final(self)@ == delete_task_model(old(self)@, task_id@),
    {
        proof {
            lemma_delete_task_wf(old(self)@, task_id@);
        }
        let i = match self.find_task(task_id) {
            None => {
                proof {
                    assert(self@ =~~= delete_task_model(old(self)@, task_id@));
                }
                return Ok(());
            },
            Some(i) => i,
        };
        proof {
            lemma_task_idx_unique(self@, i as int);
        }
        self.tasks.remove(i);
        let n = self.sessions.len();
        let mut k: usize = 0;
        while k < n
            invariant
                k <= n,
                n == self.sessions@.len(),
                n == old(self).sessions@.len(),
                self.version == old(self).version,
                self.tasks_table == old(self).tasks_table,
                self.sessions_table == old(self).sessions_table,
                self.stats_table == old(self).stats_table,
                self.settings_table == old(self).settings_table,
                self.task_extras == old(self).task_extras,
                self.tasks@ == old(self).tasks@.remove(i as int),
                self.stats@ == old(self).stats@,
                self.task_events@ == old(self).task_events@,
                forall|v: int|
                    0 <= v < k ==> #[trigger] self@.sessions[v] == (
                    if old(self)@.sessions[v].task_id == Some(task_id@) {
                        SessionV { task_id: None, ..old(self)@.sessions[v] }
                    } else {
                        old(self)@.sessions[v]
                    }),
                forall|v: int| k <= v < n ==> self.sessions@[v] == old(self).sessions@[v],
            decreases n - k,
        {
            let matches_target = match &self.sessions[k].task_id {
                Some(t) => *t == *task_id,
                None => false,
            };
            let ghost pre = self@;
            let ghost pre_vec = self.sessions@;
            if matches_target {
                let s = self.sessions[k].duplicate();
                proof {
                    assert(s@ == old(self)@.sessions[k as int]);
                    assert(old(self)@.sessions[k as int].task_id == Some(task_id@));
                }
                let s2 = PomodoroSession { task_id: None, ..s };
                proof {
                    assert(s2@ == (SessionV { task_id: None, ..old(self)@.sessions[k as int] }));
                }
                self.sessions[k] = s2;
                proof {
                    assert forall|v: int| 0 <= v < k + 1 implies #[trigger] self@.sessions[v] == (
                        if old(self)@.sessions[v].task_id == Some(task_id@) {
                            SessionV { task_id: None, ..old(self)@.sessions[v] }
                        } else {
                            old(self)@.sessions[v]
                        }) by {
                        if v < k {
                            assert(self.sessions@[v] == pre_vec[v]);
                            assert(self@.sessions[v] == pre.sessions[v]);
                        } else {
                            assert(self@.sessions[v] == s2@);
                        }
                    }
                }
            } else {
                proof {
                    assert(self@.sessions[k as int] == old(self)@.sessions[k as int]);
                    assert(old(self)@.sessions[k as int].task_id != Some(task_id@));
                }
            }
            k = k + 1;
        }
        proof {
            assert(self@ =~~= delete_task_model(old(self)@, task_id@));
        }
        Ok(())
    }
}


impl Store {
    /// Appends a freshly started session with the given id and start
    /// timestamp: running, not interrupted. Rejects a kind outside the
    /// closed set, a link to a task that does not exist, and a taken id.
    pub fn start_pomodoro_session_at(
        &mut self,
        task_id: Option<String>,
        session_type: String,
        duration_minutes: u32,
        id: String,
        now: String,
    ) -> (r: Result<String, StoreError>)
        requires
            old(self).ready(),
        ensures
            final(self).ready(),
            (r is Ok) <==> is_valid_kind(session_type@) && (match task_id {
                Some(t) => has_task(old(self)@.tasks, t@),
                None => true,
            }) && !has_session(old(self)@.sessions, id@),
            r is Ok ==> {
                &&& final(self)@ == start_session_model(
                    old(self)@,
                    id@,
                    view_opt_string(task_id),
                    session_type@,
                    duration_minutes as int,
                    now@,
                )
                &&& r->Ok_0@ == id@
            },
            (r == Err::<String, StoreError>(StoreError::InvalidSessionKind)) <==> !is_valid_kind(
                session_type@,
            ),
            (r == Err::<String, StoreError>(StoreError::NotFound)) <==> is_valid_kind(
                session_type@,
            ) && (match task_id {
                Some(t) => !has_task(old(self)@.tasks, t@),
                None => false,
            }),
            (r == Err::<String, StoreError>(StoreError::DuplicateId)) <==> is_valid_kind(
                session_type@,
            ) && (match task_id {
                Some(t) => has_task(old(self)@.tasks, t@),
                None => true,
            }) && has_session(old(self)@.sessions, id@),
            r is Err ==> *final(self) == *old(self),
    {
        if !session_kind_valid(&session_type) {
            return Err(StoreError::InvalidSessionKind);
        }
        match &task_id {
            Some(t) => {
                if self.find_task(t).is_none() {
                    return Err(StoreError::NotFound);
                }
            },
            None => {},
        }
        if self.find_session(&id).is_some() {
            return Err(StoreError::DuplicateId);
        }
        let out = id.clone();
        let sess = PomodoroSession {
            id: id,
            task_id: task_id,
            session_type: session_type,
            duration_minutes: duration_minutes,
            started_at: now,
            completed_at: None,
            interrupted: false,
        };
        proof {
            lemma_start_session_wf(
                old(self)@,
                sess.id@,
                view_opt_string(sess.task_id),
                sess.session_type@,
                duration_minutes as int,
                sess.started_at@,
            );
        }
        self.sessions.push(sess);
        proof {
            assert(self@ =~~= start_session_model(
                old(self)@,
                id@,
                view_opt_string(task_id),
                session_type@,
                duration_minutes as int,
                now@,
            ));
        }
        Ok(out)
    }

    /// Starts a session from a fresh identifier and the clock, as the
    /// user's start action does.
    pub fn start_pomodoro_session(
        &mut self,
        task_id: Option<String>,
        session_type: String,
        duration_minutes: u32,
    ) -> (r: Result<String, StoreError>)
        requires
            old(self).ready(),
        ensures
            final(self).ready(),
            r is Ok ==> exists|now: Seq<char>|
                final(self)@ == #[trigger] start_session_model(
                    old(self)@,
                    r->Ok_0@,
                    view_opt_string(task_id),
                    session_type@,
                    duration_minutes as int,
                    now,
                ),
            (r == Err::<String, StoreError>(StoreError::InvalidSessionKind)) <==> !is_valid_kind(
                session_type@,
            ),
            (r == Err::<String, StoreError>(StoreError::NotFound)) <==> is_valid_kind(
                session_type@,
            ) && (match task_id {
                Some(t) => !has_task(old(self)@.tasks, t@),
                None => false,
            }),
            r is Err ==> *final(self) == *old(self) && (r == Err::<String, StoreError>(
                StoreError::InvalidSessionKind,
            ) || r == Err::<String, StoreError>(StoreError::NotFound) || r == Err::<
                String,
                StoreError,
            >(StoreError::DuplicateId)),
            is_valid_kind(session_type@) && (match task_id {
                Some(t) => has_task(old(self)@.tasks, t@),
                None => true,
            }) && old(self)@.sessions.len() == 0 ==> r is Ok,
    {
        let id = fresh_id();
        let now = now_rfc3339();
        let ghost now_v = now@;
        let r = self.start_pomodoro_session_at(task_id, session_type, duration_minutes, id, now);
        proof {
            if r is Ok {
                assert(self@ == start_session_model(
                    old(self)@,
                    r->Ok_0@,
                    view_opt_string(task_id),
                    session_type@,
                    duration_minutes as int,
                    now_v,
                ));
            }
        }
        r
    }

    /// Finishes a session: the row gets its completion timestamp (when the
    /// session ran to completion) and interruption flag. A completed,
    /// uninterrupted work session also bumps the linked task's actual count
    /// and today's statistics — the three effects land together or, when a
    /// counter cannot absorb them, not at all. A session is finished at
    /// most once.
    pub fn complete_pomodoro_session_at(
        &mut self,
        session_id: &String,
        was_completed: bool,
        was_interrupted: bool,
        now: &String,
    ) -> (r: Result<(), StoreError>)
        requires
            old(self).ready(),
        ensures
            final(self).ready(),
            (r is Ok) <==> has_session(old(self)@.sessions, session_id@) && session_unfinished(
                old(self)@.sessions,
                session_id@,
            ) && complete_fits(old(self)@, session_id@, was_completed, was_interrupted, now@),
            r is Ok ==> final(self)@ == complete_session_model(
                old(self)@,
                session_id@,
                was_completed,
                was_interrupted,
                now@,
            ),
            (r == Err::<(), StoreError>(StoreError::NotFound)) <==> !has_session(
                old(self)@.sessions,
                session_id@,
            ),
            (r == Err::<(), StoreError>(StoreError::AlreadyFinished)) <==> has_session(
                old(self)@.sessions,
                session_id@,
            ) && !session_unfinished(old(self)@.sessions, session_id@),
            (r == Err::<(), StoreError>(StoreError::CounterOverflow)) <==> has_session(
                old(self)@.sessions,
                session_id@,
            ) && session_unfinished(old(self)@.sessions, session_id@) && !complete_fits(
                old(self)@,
                session_id@,
                was_completed,
                was_interrupted,
                now@,
            ),
            r is Err ==> *final(self) == *old(self),
    {
        let i = match self.find_session(session_id) {
            None => {
                return Err(StoreError::NotFound);
            },
            Some(i) => i,
        };
        proof {
            lemma_session_idx_unique(self@, i as int);
        }
        if self.sessions[i].completed_at.is_some() {
            return Err(StoreError::AlreadyFinished);
        }
        proof {
            assert forall|v: int|
                0 <= v < self@.sessions.len() && #[trigger] self@.sessions[v].id == session_id@
                implies self@.sessions[v].completed_at is None by {
                lemma_session_idx_unique(self@, v);
            }
            assert(session_unfinished(self@.sessions, session_id@));
        }
        let s = self.sessions[i].duplicate();
        let link = match &s.task_id {
            Some(t) => Some(t.clone()),
            None => None,
        };
        let dur = s.duration_minutes;
        let q = kind_is_work(&s.session_type) && was_completed && !was_interrupted;
        let today = date_of_timestamp(now.as_str());
        // check every counter before touching anything
        if q {
            match &link {
                Some(tid) => {
                    match self.find_task(tid) {
                        Some(j) => {
                            proof {
                                lemma_task_idx_unique(self@, j as int);
                            }
                            if self.tasks[j].actual_pomodoros == i32::MAX {
                                return Err(StoreError::CounterOverflow);
                            }
                        },
                        None => {},
                    }
                },
                None => {},
            }
            match self.find_stat(&today) {
                Some(w) => {
                    proof {
                        lemma_stat_idx_unique(self@, w as int);
                    }
                    if self.stats[w].pomodoros_completed == u32::MAX {
                        return Err(StoreError::CounterOverflow);
                    }
                    if self.stats[w].total_work_time > u32::MAX - dur {
                        return Err(StoreError::CounterOverflow);
                    }
                },
                None => {},
            }
        }
        // all checks passed: apply the whole effect
        let s2 = PomodoroSession {
            completed_at: if was_completed { Some(now.clone()) } else { None },
            interrupted: was_interrupted,
            ..s
        };
        self.sessions[i] = s2;
        if q {
            match &link {
                Some(tid) => {
                    match self.find_task(tid) {
                        Some(j) => {
                            proof {
                                lemma_task_idx_unique(old(self)@, j as int);
                            }
                            let t = self.tasks[j].duplicate();
                            let t2 = Task { actual_pomodoros: t.actual_pomodoros + 1, ..t };
                            self.tasks[j] = t2;
                        },
                        None => {},
                    }
                },
                None => {},
            }
            match self.find_stat(&today) {
                Some(w) => {
                    proof {
                        lemma_stat_idx_unique(old(self)@, w as int);
                    }
                    let st = self.stats[w].duplicate();
                    let st2 = DailyStats {
                        pomodoros_completed: st.pomodoros_completed + 1,
                        total_work_time: st.total_work_time + dur,
                        ..st
                    };
                    self.stats[w] = st2;
                },
                None => {
                    self.stats.push(
                        DailyStats {
                            date: today,
                            pomodoros_completed: 1,
                            total_work_time: dur,
                            tasks_completed: 0,
                        },
                    );
                },
            }
        }
        proof {
            lemma_complete_session_wf(
                old(self)@,
                session_id@,
                was_completed,
                was_interrupted,
                now@,
            );
            assert(self@ =~~= complete_session_model(
                old(self)@,
                session_id@,
                was_completed,
                was_interrupted,
                now@,
            ));
        }
        Ok(())
    }

    /// Finishes a session at the clock's current instant.
    pub fn complete_pomodoro_session(
        &mut self,
        session_id: &String,
        was_completed: bool,
        was_interrupted: bool,
    ) -> (r: Result<(), StoreError>)
        requires
            old(self).ready(),
        ensures
            final(self).ready(),
            r is Ok ==> exists|nowv: Seq<char>|
                final(self)@ == #[trigger] complete_session_model(
                    old(self)@,
                    session_id@,
                    was_completed,
                    was_interrupted,
                    nowv,
                ),
            (r == Err::<(), StoreError>(StoreError::NotFound)) <==> !has_session(
                old(self)@.sessions,
                session_id@,
            ),
            (r == Err::<(), StoreError>(StoreError::AlreadyFinished)) <==> has_session(
                old(self)@.sessions,
                session_id@,
            ) && !session_unfinished(old(self)@.sessions, session_id@),
            r is Err ==> *final(self) == *old(self) && (r == Err::<(), StoreError>(
                StoreError::NotFound,
            ) || r == Err::<(), StoreError>(StoreError::AlreadyFinished) || r == Err::<
                (),
                StoreError,
            >(StoreError::CounterOverflow)),
            has_session(old(self)@.sessions, session_id@) && session_unfinished(
                old(self)@.sessions,
                session_id@,
            ) && (forall|nowv: Seq<char>|
                #[trigger] complete_fits(
                    old(self)@,
                    session_id@,
                    was_completed,
                    was_interrupted,
                    nowv,
                )) ==> r is Ok,
    {
        let now = now_rfc3339();
        let r = self.complete_pomodoro_session_at(session_id, was_completed, was_interrupted, &now);
        proof {
            if r is Ok {
                assert(self@ == complete_session_model(
                    old(self)@,
                    session_id@,
                    was_completed,
                    was_interrupted,
                    now@,
                ));
            }
        }
        r
    }
}

} // verus!
