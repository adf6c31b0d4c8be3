//! The report readers: the task listing, per-task history and time spent,
//! daily statistics, the focus heatmap, and the full export. All of them
//! are derived views of the tables; none mutates the store.

use vstd::prelude::*;
use crate::counts::{sum_by, lemma_sum_by_push, lemma_sum_by_zero, lemma_sum_by_prefix_bound};
use crate::model::{
    has_task, has_stat, task_idx, stat_idx, sum_spent, count_heat, spent_ind, heat_ind,
};
use crate::ambient::now_rfc3339;
use crate::sort::{ListOrder, ordered, sort_rows};
use crate::store::{Store, sessions_view};
use crate::preservation::{lemma_task_idx_unique, lemma_stat_idx_unique};
use crate::text::{lex_le, lex_le_exec, date_of_timestamp};
use crate::types::{
    Task, PomodoroSession, DailyStats, HeatmapPoint, ExportData, TaskWithStats, StatV, StoreError,
    kind_is_work, qualifying, heatmap_date, spec_level_of, heat_level,
};

verus! {

broadcast use {
    vstd::seq_lib::group_to_multiset_ensures,
    vstd::multiset::group_multiset_axioms,
};

/// The sessions linked to a task, in table order.
pub open spec fn linked_filter(ss: Seq<PomodoroSession>, tid: Seq<char>) -> Seq<PomodoroSession> {
    ss.filter(|s: PomodoroSession| s@.task_id == Some(tid))
}

impl Store {
    /// All tasks: priority descending, ties newest-created first.
    pub fn get_tasks(&self) -> (r: Vec<Task>)
        ensures
            r@.to_multiset() == self.tasks@.to_multiset(),
            ordered::<Task>(r@),
    {
        let n = self.tasks.len();
        let mut all: Vec<Task> = Vec::new();
        let mut k: usize = 0;
        while k < n
            invariant
                k <= n,
                n == self.tasks@.len(),
                all@ == self.tasks@.subrange(0, k as int),
            decreases n - k,
        {
            all.push(self.tasks[k].duplicate());
            proof {
                assert(all@ =~= self.tasks@.subrange(0, k + 1 as int));
            }
            k = k + 1;
        }
        proof {
            assert(all@ =~= self.tasks@);
        }
        sort_rows(all)
    }

    /// One task with its session history (newest-first) and the minutes of
    /// uninterrupted work spent on it. Refused when the id is unknown or
    /// the minutes exceed the counter's machine bound.
    pub fn get_task_with_stats(&self, task_id: &String) -> (r: Result<TaskWithStats, StoreError>)
        requires
            self.wf(),
        ensures
            (r is Ok) <==> has_task(self@.tasks, task_id@) && sum_spent(self@.sessions, task_id@)
                <= u32::MAX,
            r is Ok ==> {
                &&& r->Ok_0.task@ == self@.tasks[task_idx(self@.tasks, task_id@)]
                &&& r->Ok_0.total_time_spent as int == sum_spent(self@.sessions, task_id@)
                &&& r->Ok_0.pomodoro_sessions@.to_multiset() == linked_filter(
                    self.sessions@,
                    task_id@,
                ).to_multiset()
                &&& ordered::<PomodoroSession>(r->Ok_0.pomodoro_sessions@)
            },
            (r == Err::<TaskWithStats, StoreError>(StoreError::NotFound)) <==> !has_task(
                self@.tasks,
                task_id@,
            ),
            r is Err ==> r == Err::<TaskWithStats, StoreError>(StoreError::NotFound) || r == Err::<
                TaskWithStats,
                StoreError,
            >(StoreError::CounterOverflow),
    {
        let i = match self.find_task(task_id) {
            None => {
                return Err(StoreError::NotFound);
            },
            Some(i) => i,
        };
        proof {
            lemma_task_idx_unique(self@, i as int);
            assert forall|v: int| 0 <= v < self@.sessions.len() implies spent_ind(task_id@)(
                #[trigger] self@.sessions[v],
            ) >= 0 by {}
        }
        let task = self.tasks[i].duplicate();
        let n = self.sessions.len();
        let mut linked: Vec<PomodoroSession> = Vec::new();
        let mut spent: u32 = 0;
        let mut k: usize = 0;
        proof {
            assert(self.sessions@.subrange(0, 0) =~= Seq::<PomodoroSession>::empty());
            assert(linked@ =~= linked_filter(self.sessions@.subrange(0, 0), task_id@));
        }
        while k < n
            invariant
                k <= n,
                n == self.sessions@.len(),
                self.wf(),
                linked@ == linked_filter(self.sessions@.subrange(0, k as int), task_id@),
                spent as int == sum_by(
                    sessions_view(self.sessions@.subrange(0, k as int)),
                    spent_ind(task_id@),
                ),
                forall|v: int| 0 <= v < self@.sessions.len() ==> spent_ind(task_id@)(
                    #[trigger] self@.sessions[v],
                ) >= 0,
            decreases n - k,
        {
            let sess = &self.sessions[k];
            let is_linked = match &sess.task_id {
                Some(t) => *t == *task_id,
                None => false,
            };
            let ghost pre = self.sessions@.subrange(0, k as int);
            proof {
                assert(self.sessions@.subrange(0, k + 1 as int) =~= pre.push(*sess));
                assert(sessions_view(pre.push(*sess)) =~= sessions_view(pre).push(sess@));
                lemma_sum_by_push(sessions_view(pre), spent_ind(task_id@), sess@);
                pre.lemma_filter_push(*sess, |s: PomodoroSession| s@.task_id == Some(task_id@));
            }
            if is_linked {
                let counts_time = kind_is_work(&sess.session_type) && !sess.interrupted;
                if counts_time {
                    if spent > u32::MAX - sess.duration_minutes {
                        proof {
                            lemma_sum_by_prefix_bound(
                                sessions_view(self.sessions@),
                                spent_ind(task_id@),
                                k + 1,
                            );
                            assert(sessions_view(self.sessions@).subrange(0, k + 1) =~= sessions_view(
                                self.sessions@.subrange(0, k + 1),
                            ));
                            assert(sum_spent(self@.sessions, task_id@) > u32::MAX);
                        }
                        return Err(StoreError::CounterOverflow);
                    }
                    spent = spent + sess.duration_minutes;
                }
                linked.push(sess.duplicate());
                proof {
                    assert(linked@ =~= linked_filter(
                        self.sessions@.subrange(0, k + 1 as int),
                        task_id@,
                    ));
                }
            }
            k = k + 1;
        }
        proof {
            assert(self.sessions@.subrange(0, n as int) =~= self.sessions@);
        }
        let sorted = sort_rows(linked);
        Ok(TaskWithStats { task: task, pomodoro_sessions: sorted, total_time_spent: spent })
    }

    /// The newest thirty daily-statistics rows, newest-first: every listed
    /// row is a row of the store, and every unlisted row is no newer than
    /// any listed one.
    pub fn get_daily_stats(&self) -> (r: Vec<DailyStats>)
        ensures
            r@.len() == if self.stats@.len() < 30 {
                self.stats@.len()
            } else {
                30nat
            },
            ordered::<DailyStats>(r@),
            forall|i: int| 0 <= i < r@.len() ==> self.stats@.contains(#[trigger] r@[i]),
            forall|j: int|
                0 <= j < self.stats@.len() && !r@.contains(#[trigger] self.stats@[j]) ==> forall|
                    i: int,
                |
                    0 <= i < r@.len() ==> lex_le(self.stats@[j].date@, #[trigger] r@[i].date@),
            exists|whole: Seq<DailyStats>|
                (#[trigger] whole.to_multiset()) == self.stats@.to_multiset()
                    && ordered::<DailyStats>(whole) && r@ == whole.subrange(
                    0,
                    if self.stats@.len() < 30 {
                        self.stats@.len() as int
                    } else {
                        30
                    },
                ),
    {
        let n = self.stats.len();
        let mut all: Vec<DailyStats> = Vec::new();
        let mut k: usize = 0;
        while k < n
            invariant
                k <= n,
                n == self.stats@.len(),
                all@ == self.stats@.subrange(0, k as int),
            decreases n - k,
        {
            all.push(self.stats[k].duplicate());
            proof {
                assert(all@ =~= self.stats@.subrange(0, k + 1 as int));
            }
            k = k + 1;
        }
        proof {
            assert(all@ =~= self.stats@);
        }
        let mut sorted = sort_rows(all);
        let ghost full = sorted@;
        if sorted.len() > 30 {
            sorted.truncate(30);
        }
        proof {
            assert(sorted@ =~= full.subrange(0, if full.len() < 30 { full.len() as int } else { 30 }));
            assert forall|i: int| 0 <= i < sorted@.len() implies self.stats@.contains(
                #[trigger] sorted@[i],
            ) by {
                assert(sorted@[i] == full[i]);
                assert(full.contains(full[i]));
                assert(full.to_multiset().count(full[i]) > 0);
            }
            assert forall|j: int|
                0 <= j < self.stats@.len() && !sorted@.contains(#[trigger] self.stats@[j]) implies
                forall|i: int|
                    0 <= i < sorted@.len() ==> lex_le(
                        self.stats@[j].date@,
                        #[trigger] sorted@[i].date@,
                    ) by {
                let srow = self.stats@[j];
                assert(self.stats@.contains(srow));
                assert(full.to_multiset().count(srow) > 0);
                assert(full.contains(srow));
                let w = choose|w: int| 0 <= w < full.len() && full[w] == srow;
                assert(0 <= w < full.len() && full[w] == srow);
                if w < sorted@.len() {
                    assert(sorted@[w] == srow);
                    assert(sorted@.contains(srow));
                }
                assert(w >= sorted@.len());
                assert forall|i: int| 0 <= i < sorted@.len() implies lex_le(
                    self.stats@[j].date@,
                    #[trigger] sorted@[i].date@,
                ) by {
                    assert(<DailyStats as ListOrder>::before(full[i], full[w]));
                }
            }
            // the result is the 30-prefix of one sorted permutation: `full`
            assert(full.len() == self.stats@.len());
            assert(full.to_multiset() == self.stats@.to_multiset());
            assert(ordered::<DailyStats>(full));
            assert(sorted@ == full.subrange(
                0,
                if self.stats@.len() < 30 {
                    self.stats@.len() as int
                } else {
                    30
                },
            ));
        }
        sorted
    }

    /// The statistics row for a date, or a zero-valued row for a date that
    /// has none — a designed default, not an error.
    pub fn get_daily_stats_by_date(&self, date: String) -> (r: DailyStats)
        requires
            self.wf(),
        ensures
            has_stat(self@.stats, date@) ==> r@ == self@.stats[stat_idx(self@.stats, date@)],
            !has_stat(self@.stats, date@) ==> r@ == (StatV {
                date: date@,
                pomodoros_completed: 0,
                total_work_time: 0,
                tasks_completed: 0,
            }),
    {
        match self.find_stat(&date) {
            Some(i) => {
                proof {
                    lemma_stat_idx_unique(self@, i as int);
                }
                self.stats[i].duplicate()
            },
            None => DailyStats {
                date: date,
                pomodoros_completed: 0,
                total_work_time: 0,
                tasks_completed: 0,
            },
        }
    }

    /// A full snapshot with the given export timestamp, each list ordered
    /// as in its own listing operation.
    pub fn export_data_at(&self, exported_at: String) -> (r: ExportData)
        ensures
            r.tasks@.to_multiset() == self.tasks@.to_multiset(),
            ordered::<Task>(r.tasks@),
            r.pomodoro_sessions@.to_multiset() == self.sessions@.to_multiset(),
            ordered::<PomodoroSession>(r.pomodoro_sessions@),
            r.daily_stats@.to_multiset() == self.stats@.to_multiset(),
            ordered::<DailyStats>(r.daily_stats@),
            r.exported_at@ == exported_at@,
    {
        let tasks = self.get_tasks();
        let n = self.sessions.len();
        let mut all_sessions: Vec<PomodoroSession> = Vec::new();
        let mut k: usize = 0;
        while k < n
            invariant
                k <= n,
                n == self.sessions@.len(),
                all_sessions@ == self.sessions@.subrange(0, k as int),
            decreases n - k,
        {
            all_sessions.push(self.sessions[k].duplicate());
            proof {
                assert(all_sessions@ =~= self.sessions@.subrange(0, k + 1 as int));
            }
            k = k + 1;
        }
        proof {
            assert(all_sessions@ =~= self.sessions@);
        }
        let sessions = sort_rows(all_sessions);
        let m = self.stats.len();
        let mut all_stats: Vec<DailyStats> = Vec::new();
        let mut v: usize = 0;
        while v < m
            invariant
                v <= m,
                m == self.stats@.len(),
                all_stats@ == self.stats@.subrange(0, v as int),
            decreases m - v,
        {
            all_stats.push(self.stats[v].duplicate());
            proof {
                assert(all_stats@ =~= self.stats@.subrange(0, v + 1 as int));
            }
            v = v + 1;
        }
        proof {
            assert(all_stats@ =~= self.stats@);
        }
        let daily_stats = sort_rows(all_stats);
        ExportData {
            tasks: tasks,
            pomodoro_sessions: sessions,
            daily_stats: daily_stats,
            exported_at: exported_at,
        }
    }

    /// A full snapshot stamped with the clock's current instant.
    pub fn export_data(&self) -> (r: ExportData)
        ensures
            r.tasks@.to_multiset() == self.tasks@.to_multiset(),
            ordered::<Task>(r.tasks@),
            r.pomodoro_sessions@.to_multiset() == self.sessions@.to_multiset(),
            ordered::<PomodoroSession>(r.pomodoro_sessions@),
            r.daily_stats@.to_multiset() == self.stats@.to_multiset(),
            ordered::<DailyStats>(r.daily_stats@),
    {
        self.export_data_at(now_rfc3339())
    }
}


/// What a heatmap is: points with strictly ascending distinct dates, one
/// for each date in the window (at or after `start`) on which at least one
/// qualifying work session started, carrying that day's session count and
/// its intensity bucket.
pub open spec fn heatmap_spec(
    sessions: Seq<PomodoroSession>,
    start: Seq<char>,
    pts: Seq<HeatmapPoint>,
) -> bool {
    &&& (forall|i: int, j: int|
        #![trigger pts[i], pts[j]]
        0 <= i < j < pts.len() ==> lex_le(pts[i].date@, pts[j].date@) && pts[i].date@
            != pts[j].date@)
    &&& (forall|i: int|
        #![trigger pts[i]]
        0 <= i < pts.len() ==> {
            &&& lex_le(start, pts[i].date@)
            &&& pts[i].count as int == count_heat(sessions_view(sessions), pts[i].date@)
            &&& pts[i].count >= 1
            &&& pts[i].level as int == spec_level_of(pts[i].count as int)
        })
    &&& (forall|k: int|
        #![trigger sessions[k]]
        0 <= k < sessions.len() && qualifying(sessions[k]@) && lex_le(
            start,
            heatmap_date(sessions[k]@),
        ) ==> exists|i: int| 0 <= i < pts.len() && (#[trigger] pts[i]).date@ == heatmap_date(
            sessions[k]@,
        ))
}

/// A date in the window has more qualifying sessions than the count can hold.
pub open spec fn heatmap_overflows(sessions: Seq<PomodoroSession>, start: Seq<char>) -> bool {
    exists|k: int|
        0 <= k < sessions.len() && qualifying((#[trigger] sessions[k])@) && lex_le(
            start,
            heatmap_date(sessions[k]@),
        ) && count_heat(sessions_view(sessions), heatmap_date(sessions[k]@)) > u32::MAX
}

fn find_point(acc: &Vec<HeatmapPoint>, d: &String) -> (r: Option<usize>)
    ensures
        match r {
            Some(i) => i < acc@.len() && acc@[i as int].date@ == d@,
            None => forall|a: int| 0 <= a < acc@.len() ==> (#[trigger] acc@[a]).date@ != d@,
        },
{
    let n = acc.len();
    let mut k: usize = 0;
    while k < n
        invariant
            k <= n,
            n == acc@.len(),
            forall|a: int| 0 <= a < k ==> (#[trigger] acc@[a]).date@ != d@,
        decreases n - k,
    {
        if acc[k].date == *d {
            return Some(k);
        }
        k = k + 1;
    }
    None
}

impl Store {
    /// The focus heatmap from a given start date: one point per date in the
    /// window with at least one qualifying work session started on it,
    /// ascending by date, with the day's count and intensity bucket. Dates
    /// with no qualifying session are omitted, not zero-filled.
    pub fn get_focus_heatmap_from(&self, start_date: &String) -> (r: Result<
        Vec<HeatmapPoint>,
        StoreError,
    >)
        ensures
            r is Ok ==> heatmap_spec(self.sessions@, start_date@, r->Ok_0@),
            (r is Err) <==> heatmap_overflows(self.sessions@, start_date@),
            r is Err ==> r == Err::<Vec<HeatmapPoint>, StoreError>(StoreError::CounterOverflow),
    {
        let n = self.sessions.len();
        let mut acc: Vec<HeatmapPoint> = Vec::new();
        let mut k: usize = 0;
        proof {
            assert(self.sessions@.subrange(0, 0) =~= Seq::<PomodoroSession>::empty());
        }
        while k < n
            invariant
                k <= n,
                n == self.sessions@.len(),
                forall|a: int, b: int|
                    #![trigger acc@[a], acc@[b]]
                    0 <= a < b < acc@.len() ==> acc@[a].date@ != acc@[b].date@,
                forall|a: int|
                    #![trigger acc@[a]]
                    0 <= a < acc@.len() ==> {
                        &&& lex_le(start_date@, acc@[a].date@)
                        &&& acc@[a].count as int == count_heat(
                            sessions_view(self.sessions@.subrange(0, k as int)),
                            acc@[a].date@,
                        )
                        &&& acc@[a].count >= 1
                    },
                forall|v: int|
                    #![trigger self.sessions@[v]]
                    0 <= v < k && qualifying(self.sessions@[v]@) && lex_le(
                        start_date@,
                        heatmap_date(self.sessions@[v]@),
                    ) ==> exists|a: int|
                        0 <= a < acc@.len() && (#[trigger] acc@[a]).date@ == heatmap_date(
                            self.sessions@[v]@,
                        ),
            decreases n - k,
        {
            let sess = &self.sessions[k];
            let is_qualifying = kind_is_work(&sess.session_type) && !sess.interrupted
                && sess.completed_at.is_some();
            let key = date_of_timestamp(sess.started_at.as_str());
            let in_window = lex_le_exec(start_date.as_str(), key.as_str());
            let ghost pre = sessions_view(self.sessions@.subrange(0, k as int));
            proof {
                assert(is_qualifying == qualifying(sess@));
                assert(key@ == heatmap_date(sess@));
                assert(sessions_view(self.sessions@.subrange(0, k + 1 as int)) =~= pre.push(sess@));
            }
            if is_qualifying && in_window {
                match find_point(&acc, &key) {
                    Some(a) => {
                        if acc[a].count == u32::MAX {
                            proof {
                                lemma_sum_by_push(pre, heat_ind(key@), sess@);
                                lemma_sum_by_prefix_bound(
                                    sessions_view(self.sessions@),
                                    heat_ind(key@),
                                    k + 1,
                                );
                                assert(sessions_view(self.sessions@).subrange(0, k + 1)
                                    =~= sessions_view(self.sessions@.subrange(0, k + 1)));
                                assert(count_heat(sessions_view(self.sessions@), key@)
                                    > u32::MAX);
                            }
                            return Err(StoreError::CounterOverflow);
                        }
                        let ghost pre_acc = acc@;
                        let p = HeatmapPoint {
                            date: acc[a].date.clone(),
                            count: acc[a].count + 1,
                            level: 0,
                        };
                        acc[a] = p;
                        proof {
                            assert forall|t: int| 0 <= t < acc@.len() implies {
                                &&& lex_le(start_date@, (#[trigger] acc@[t]).date@)
                                &&& acc@[t].count as int == count_heat(
                                    sessions_view(self.sessions@.subrange(0, k + 1 as int)),
                                    acc@[t].date@,
                                )
                                &&& acc@[t].count >= 1
                            } by {
                                lemma_sum_by_push(pre, heat_ind(pre_acc[t].date@), sess@);
                                if t != a {
                                    assert(acc@[t] == pre_acc[t]);
                                    assert(pre_acc[t].date@ != key@);
                                    assert(heat_ind(pre_acc[t].date@)(sess@) == 0);
                                } else {
                                    assert(acc@[t].date@ == pre_acc[a as int].date@);
                                    assert(heat_ind(pre_acc[a as int].date@)(sess@) == 1);
                                }
                            }
                            assert forall|t: int| 0 <= t < acc@.len() implies (
                            #[trigger] acc@[t]).date@ == pre_acc[t].date@ by {
                                if t != a {
                                    assert(acc@[t] == pre_acc[t]);
                                }
                            }
                            assert forall|v: int|
                                0 <= v < k + 1 && qualifying((#[trigger] self.sessions@[v])@)
                                    && lex_le(start_date@, heatmap_date(self.sessions@[v]@))
                                implies exists|t: int|
                                0 <= t < acc@.len() && (#[trigger] acc@[t]).date@ == heatmap_date(
                                    self.sessions@[v]@,
                                ) by {
                                if v < k {
                                    let t0 = choose|t0: int|
                                        0 <= t0 < pre_acc.len() && (#[trigger] pre_acc[t0]).date@
                                            == heatmap_date(self.sessions@[v]@);
                                    assert(acc@[t0].date@ == heatmap_date(self.sessions@[v]@));
                                } else {
                                    assert(acc@[a as int].date@ == key@);
                                }
                            }
                        }
                    },
                    None => {
                        let ghost pre_acc = acc@;
                        proof {
                            assert forall|v: int|
                                0 <= v < pre.len() implies heat_ind(key@)(#[trigger] pre[v])
                                == 0 by {
                                assert(pre[v] == self.sessions@[v]@);
                                if qualifying(self.sessions@[v]@) && heatmap_date(
                                    self.sessions@[v]@,
                                ) == key@ {
                                    assert(lex_le(start_date@, heatmap_date(self.sessions@[v]@)));
                                }
                            }
                            lemma_sum_by_zero(pre, heat_ind(key@));
                            lemma_sum_by_push(pre, heat_ind(key@), sess@);
                        }
                        acc.push(HeatmapPoint { date: key, count: 1, level: 0 });
                        proof {
                            assert forall|t: int| 0 <= t < acc@.len() implies {
                                &&& lex_le(start_date@, (#[trigger] acc@[t]).date@)
                                &&& acc@[t].count as int == count_heat(
                                    sessions_view(self.sessions@.subrange(0, k + 1 as int)),
                                    acc@[t].date@,
                                )
                                &&& acc@[t].count >= 1
                            } by {
                                if t < pre_acc.len() {
                                    assert(acc@[t] == pre_acc[t]);
                                    lemma_sum_by_push(pre, heat_ind(pre_acc[t].date@), sess@);
                                    assert(pre_acc[t].date@ != key@);
                                    assert(heat_ind(pre_acc[t].date@)(sess@) == 0);
                                }
                            }
                            assert forall|v: int|
                                0 <= v < k + 1 && qualifying((#[trigger] self.sessions@[v])@)
                                    && lex_le(start_date@, heatmap_date(self.sessions@[v]@))
                                implies exists|t: int|
                                0 <= t < acc@.len() && (#[trigger] acc@[t]).date@ == heatmap_date(
                                    self.sessions@[v]@,
                                ) by {
                                if v < k {
                                    let t0 = choose|t0: int|
                                        0 <= t0 < pre_acc.len() && (#[trigger] pre_acc[t0]).date@
                                            == heatmap_date(self.sessions@[v]@);
                                    assert(acc@[t0] == pre_acc[t0]);
                                    assert(acc@[t0].date@ == heatmap_date(self.sessions@[v]@));
                                } else {
                                    assert(acc@[pre_acc.len() as int].date@ == key@);
                                }
                            }
                        }
                    },
                }
            } else {
                proof {
                    assert forall|t: int| 0 <= t < acc@.len() implies acc@[t].count as int
                        == count_heat(
                        sessions_view(self.sessions@.subrange(0, k + 1 as int)),
                        (#[trigger] acc@[t]).date@,
                    ) by {
                        lemma_sum_by_push(pre, heat_ind(acc@[t].date@), sess@);
                        if qualifying(sess@) {
                            assert(!lex_le(start_date@, key@));
                            assert(lex_le(start_date@, acc@[t].date@));
                            assert(acc@[t].date@ != key@);
                        }
                        assert(heat_ind(acc@[t].date@)(sess@) == 0);
                    }
                }
            }
            k = k + 1;
        }
        proof {
            assert(self.sessions@.subrange(0, n as int) =~= self.sessions@);
        }
        // order the points by date
        let ghost pre_sort = acc@;
        let sorted = sort_rows(acc);
        proof {
            assert forall|i: int, j: int|
                0 <= i < j < pre_sort.len() implies #[trigger] pre_sort[i] != #[trigger] pre_sort[j] by {
                assert(pre_sort[i].date@ != pre_sort[j].date@);
            }
            assert(pre_sort.no_duplicates());
            pre_sort.lemma_multiset_has_no_duplicates();
            sorted@.lemma_multiset_has_no_duplicates_conv();
            assert(sorted@.no_duplicates());
        }
        // derive the per-point facts of the ordered sequence
        proof {
            assert forall|i: int| 0 <= i < sorted@.len() implies {
                &&& lex_le(start_date@, (#[trigger] sorted@[i]).date@)
                &&& sorted@[i].count as int == count_heat(
                    sessions_view(self.sessions@),
                    sorted@[i].date@,
                )
                &&& sorted@[i].count >= 1
            } by {
                assert(sorted@.contains(sorted@[i]));
                assert(pre_sort.to_multiset().count(sorted@[i]) > 0);
                assert(pre_sort.contains(sorted@[i]));
                let a = choose|a: int| 0 <= a < pre_sort.len() && pre_sort[a] == sorted@[i];
                assert(pre_sort[a] == sorted@[i]);
            }
            assert forall|i: int, j: int|
                #![trigger sorted@[i], sorted@[j]]
                0 <= i < j < sorted@.len() implies sorted@[i].date@ != sorted@[j].date@ by {
                if sorted@[i].date@ == sorted@[j].date@ {
                    assert(sorted@.contains(sorted@[i]));
                    assert(pre_sort.to_multiset().count(sorted@[i]) > 0);
                    assert(pre_sort.contains(sorted@[i]));
                    assert(sorted@.contains(sorted@[j]));
                    assert(pre_sort.to_multiset().count(sorted@[j]) > 0);
                    assert(pre_sort.contains(sorted@[j]));
                    let a = choose|a: int| 0 <= a < pre_sort.len() && pre_sort[a] == sorted@[i];
                    let b = choose|b: int| 0 <= b < pre_sort.len() && pre_sort[b] == sorted@[j];
                    if a != b {
                        assert(pre_sort[a].date@ != pre_sort[b].date@);
                    } else {
                        assert(sorted@[i] == sorted@[j]);
                    }
                }
            }
        }
        // stamp each point with its intensity bucket
        let m = sorted.len();
        let mut out: Vec<HeatmapPoint> = Vec::new();
        let mut v: usize = 0;
        while v < m
            invariant
                v <= m,
                m == sorted@.len(),
                out@.len() == v,
                forall|t: int|
                    #![trigger out@[t]]
                    0 <= t < v ==> {
                        &&& out@[t].date@ == sorted@[t].date@
                        &&& out@[t].count == sorted@[t].count
                        &&& out@[t].level as int == spec_level_of(out@[t].count as int)
                    },
            decreases m - v,
        {
            let p = HeatmapPoint {
                date: sorted[v].date.clone(),
                count: sorted[v].count,
                level: heat_level(sorted[v].count),
            };
            out.push(p);
            v = v + 1;
        }
        proof {
            assert forall|a: int, b: int|
                #![trigger out@[a], out@[b]]
                0 <= a < b < out@.len() implies lex_le(out@[a].date@, out@[b].date@) && out@[a].date@
                != out@[b].date@ by {
                assert(<HeatmapPoint as ListOrder>::before(sorted@[a], sorted@[b]));
            }
            assert forall|w: int|
                #![trigger self.sessions@[w]]
                0 <= w < self.sessions@.len() && qualifying(self.sessions@[w]@) && lex_le(
                    start_date@,
                    heatmap_date(self.sessions@[w]@),
                ) implies exists|i: int|
                    0 <= i < out@.len() && (#[trigger] out@[i]).date@ == heatmap_date(
                        self.sessions@[w]@,
                    ) by {
                let a = choose|a: int|
                    0 <= a < pre_sort.len() && (#[trigger] pre_sort[a]).date@ == heatmap_date(
                        self.sessions@[w]@,
                    );
                assert(pre_sort.contains(pre_sort[a]));
                assert(sorted@.to_multiset().count(pre_sort[a]) > 0);
                assert(sorted@.contains(pre_sort[a]));
                let i = choose|i: int| 0 <= i < sorted@.len() && sorted@[i] == pre_sort[a];
                assert(out@[i].date@ == heatmap_date(self.sessions@[w]@));
            }
            assert(heatmap_spec(self.sessions@, start_date@, out@));
            assert(!heatmap_overflows(self.sessions@, start_date@)) by {
                if heatmap_overflows(self.sessions@, start_date@) {
                    let w = choose|k2: int|
                        0 <= k2 < self.sessions@.len() && qualifying(
                            (#[trigger] self.sessions@[k2])@,
                        ) && lex_le(start_date@, heatmap_date(self.sessions@[k2]@)) && count_heat(
                            sessions_view(self.sessions@),
                            heatmap_date(self.sessions@[k2]@),
                        ) > u32::MAX;
                    let i = choose|i: int|
                        0 <= i < out@.len() && (#[trigger] out@[i]).date@ == heatmap_date(
                            self.sessions@[w]@,
                        );
                    assert(out@[i].count as int <= u32::MAX);
                }
            }
        }
        Ok(out)
    }

    /// The focus heatmap for the trailing window of the given number of
    /// days (365 when absent), measured back from the clock's current date.
    pub fn get_focus_heatmap(&self, days: Option<u32>) -> (r: Result<Vec<HeatmapPoint>, StoreError>)
        ensures
            r is Ok ==> exists|start: Seq<char>|
                #[trigger] heatmap_spec(self.sessions@, start, r->Ok_0@),
            r is Err ==> r == Err::<Vec<HeatmapPoint>, StoreError>(StoreError::CounterOverflow),
            (forall|st: Seq<char>| !#[trigger] heatmap_overflows(self.sessions@, st)) ==> r is Ok,
    {
        let days_limit = match days {
            Some(d) => d,
            None => 365,
        };
        let start = crate::ambient::date_days_back(days_limit);
        let r = self.get_focus_heatmap_from(&start);
        proof {
            if r is Ok {
                assert(heatmap_spec(self.sessions@, start@, r->Ok_0@));
            }
        }
        r
    }
}

} // verus!
