//! Proofs that every operation's effect preserves the store's invariant.

use vstd::prelude::*;
use crate::counts::{
    sum_by, lemma_sum_by_push, lemma_sum_by_update, lemma_sum_by_pointwise, lemma_sum_by_zero,
};
use crate::model::{
    StoreV, wf, schema_current, has_task, has_session, has_stat, task_idx, session_idx, stat_idx,
    count_poms, sum_work, count_actual, count_events, pom_ind, work_ind, actual_ind, event_ind,
    migrate_model, create_task_model, update_task_model, bump_task_done_model, set_completed_model,
    start_session_model, complete_session_model, delete_task_model, session_unfinished, keys_distinct,
    bump_work_model,
};
use crate::text::spec_date_of;
use crate::types::{TaskV, SessionV, qualifying, qualifying_on, completion_date, is_valid_kind};

verus! {

/// A date without a statistics row has nothing attributed to it: no
/// qualifying session finished on it and no task completion fell on it.
pub proof fn lemma_no_stat_zero(m: StoreV, d: Seq<char>)
    requires
        wf(m),
        !has_stat(m.stats, d),
    ensures
        count_poms(m.sessions, d) == 0,
        sum_work(m.sessions, d) == 0,
        count_events(m.task_events, d) == 0,
{
    assert forall|i: int| 0 <= i < m.sessions.len() implies pom_ind(d)(m.sessions[i]) == 0 by {
        if qualifying_on(m.sessions[i], d) {
            assert(has_stat(m.stats, completion_date(m.sessions[i])));
        }
    }
    assert forall|i: int| 0 <= i < m.sessions.len() implies work_ind(d)(m.sessions[i]) == 0 by {
        if qualifying_on(m.sessions[i], d) {
            assert(has_stat(m.stats, completion_date(m.sessions[i])));
        }
    }
    assert forall|i: int| 0 <= i < m.task_events.len() implies event_ind(d)(m.task_events[i])
        == 0 by {
        if m.task_events[i] == d {
            assert(has_stat(m.stats, m.task_events[i]));
        }
    }
    lemma_sum_by_zero(m.sessions, pom_ind(d));
    lemma_sum_by_zero(m.sessions, work_ind(d));
    lemma_sum_by_zero(m.task_events, event_ind(d));
}

/// In a store with distinct task ids, any index holding `id` is the chosen one.
pub proof fn lemma_task_idx_unique(m: StoreV, i: int)
    requires
        wf(m),
        0 <= i < m.tasks.len(),
    ensures
        has_task(m.tasks, m.tasks[i].id),
        task_idx(m.tasks, m.tasks[i].id) == i,
{
    let id = m.tasks[i].id;
    assert(has_task(m.tasks, id));
    let j = task_idx(m.tasks, id);
    assert(0 <= j < m.tasks.len() && m.tasks[j].id == id);
    if i != j {
        assert(m.tasks[i].id != m.tasks[j].id);
    }
}

/// In a store with distinct session ids, any index holding `id` is the chosen one.
pub proof fn lemma_session_idx_unique(m: StoreV, i: int)
    requires
        wf(m),
        0 <= i < m.sessions.len(),
    ensures
        has_session(m.sessions, m.sessions[i].id),
        session_idx(m.sessions, m.sessions[i].id) == i,
{
    let id = m.sessions[i].id;
    assert(has_session(m.sessions, id));
    let j = session_idx(m.sessions, id);
    assert(0 <= j < m.sessions.len() && m.sessions[j].id == id);
    if i != j {
        assert(m.sessions[i].id != m.sessions[j].id);
    }
}

/// In a store with distinct statistics dates, any index holding `d` is the chosen one.
pub proof fn lemma_stat_idx_unique(m: StoreV, i: int)
    requires
        wf(m),
        0 <= i < m.stats.len(),
    ensures
        has_stat(m.stats, m.stats[i].date),
        stat_idx(m.stats, m.stats[i].date) == i,
{
    let d = m.stats[i].date;
    assert(has_stat(m.stats, d));
    let j = stat_idx(m.stats, d);
    assert(0 <= j < m.stats.len() && m.stats[j].date == d);
    if i != j {
        assert(m.stats[i].date != m.stats[j].date);
    }
}

/// Migration preserves the invariant, reaches the current version, and
/// never touches a row.
pub proof fn lemma_migrate_wf(m: StoreV)
    requires
        wf(m),
    ensures
        wf(migrate_model(m)),
        schema_current(migrate_model(m)),
        migrate_model(m).tasks == m.tasks,
        migrate_model(m).sessions == m.sessions,
        migrate_model(m).stats == m.stats,
        migrate_model(m).task_events == m.task_events,
{
}

/// Recording a fresh task preserves the invariant: the new row's actual
/// count of zero is exactly what the log attributes to an id no session
/// can reference yet.
pub proof fn lemma_create_task_wf(m: StoreV, id: Seq<char>, text: Seq<char>, now: Seq<char>)
    requires
        wf(m),
        m.tasks_table,
        !has_task(m.tasks, id),
    ensures
        wf(create_task_model(m, id, text, now)),
{
    let r = create_task_model(m, id, text, now);
    let n = m.tasks.len() as int;
    assert forall|k: int| 0 <= k < m.sessions.len() implies actual_ind(id)(m.sessions[k])
        == 0 by {
        if m.sessions[k].task_id == Some(id) {
            assert(has_task(m.tasks, id));
        }
    }
    lemma_sum_by_zero(m.sessions, actual_ind(id));
    assert(r.tasks[n].actual_pomodoros == count_actual(r.sessions, r.tasks[n].id));
    assert forall|i: int| 0 <= i < r.sessions.len() implies (match #[trigger] r.sessions[i].task_id {
        Some(t) => has_task(r.tasks, t),
        None => true,
    }) by {
        match m.sessions[i].task_id {
            Some(t) => {
                let w = choose|k: int| 0 <= k < m.tasks.len() && m.tasks[k].id == t;
                assert(r.tasks[w].id == t);
            },
            None => {},
        }
    }
}

/// The in-place field update preserves the invariant: identity, completion
/// state and the actual count are untouched.
pub proof fn lemma_update_task_wf(
    m: StoreV,
    tid: Seq<char>,
    text: Seq<char>,
    priority: int,
    estimated: int,
)
    requires
        wf(m),
    ensures
        wf(update_task_model(m, tid, text, priority, estimated)),
{
    let r = update_task_model(m, tid, text, priority, estimated);
    if has_task(m.tasks, tid) {
        let i = task_idx(m.tasks, tid);
        assert forall|k: int| 0 <= k < r.sessions.len() implies (match #[trigger] r.sessions[k].task_id {
            Some(t) => has_task(r.tasks, t),
            None => true,
        }) by {
            match m.sessions[k].task_id {
                Some(t) => {
                    let w = choose|j: int| 0 <= j < m.tasks.len() && m.tasks[j].id == t;
                    assert(r.tasks[w].id == t);
                },
                None => {},
            }
        }
    }
}

/// The task-completed upsert preserves the invariant: the event is logged
/// together with the counter bump.
pub proof fn lemma_bump_task_done_wf(m: StoreV, d: Seq<char>)
    requires
        wf(m),
        m.stats_table,
    ensures
        wf(bump_task_done_model(m, d)),
{
    let r = bump_task_done_model(m, d);
    assert forall|i: int| 0 <= i < r.stats.len() implies {
        &&& r.stats[i].pomodoros_completed == count_poms(r.sessions, r.stats[i].date)
        &&& r.stats[i].total_work_time == sum_work(r.sessions, r.stats[i].date)
        &&& r.stats[i].tasks_completed == count_events(r.task_events, r.stats[i].date)
    } by {
        lemma_sum_by_push(m.task_events, event_ind(r.stats[i].date), d);
        if i < m.stats.len() {
            assert(count_poms(r.sessions, r.stats[i].date) == count_poms(
                m.sessions,
                m.stats[i].date,
            ));
        } else {
            // the pushed row for a date that had none
            assert(!has_stat(m.stats, d));
            lemma_no_stat_zero(m, d);
        }
    }
    // every attributed date still has its row
    assert forall|i: int|
        0 <= i < r.sessions.len() && qualifying(r.sessions[i]) implies has_stat(
        r.stats,
        completion_date(r.sessions[i]),
    ) by {
        assert(has_stat(m.stats, completion_date(m.sessions[i])));
        let w = stat_idx(m.stats, completion_date(m.sessions[i]));
        assert(r.stats[w].date == m.stats[w].date);
    }
    assert forall|i: int| 0 <= i < r.task_events.len() implies has_stat(r.stats, r.task_events[i]) by {
        if i < m.task_events.len() {
            assert(has_stat(m.stats, m.task_events[i]));
            let w = stat_idx(m.stats, m.task_events[i]);
            assert(r.stats[w].date == m.stats[w].date);
        } else {
            assert(r.task_events[i] == d);
            if has_stat(m.stats, d) {
                let w = stat_idx(m.stats, d);
                assert(r.stats[w].date == d);
            } else {
                assert(r.stats[m.stats.len() as int].date == d);
            }
        }
    }
    // distinct dates
    assert forall|i: int, j: int| 0 <= i < j < r.stats.len() implies r.stats[i].date
        != r.stats[j].date by {
        if j < m.stats.len() {
            assert(m.stats[i].date != m.stats[j].date);
        } else {
            assert(!has_stat(m.stats, d));
            assert(r.stats[i].date == m.stats[i].date);
        }
    }
}

/// Setting a task's completion flag preserves the invariant.
pub proof fn lemma_set_completed_wf(m: StoreV, tid: Seq<char>, completed: bool, now: Seq<char>)
    requires
        wf(m),
        m.stats_table,
    ensures
        wf(set_completed_model(m, tid, completed, now)),
{
    if has_task(m.tasks, tid) {
        let i = task_idx(m.tasks, tid);
        let t = m.tasks[i];
        let t2 = TaskV {
            completed: completed,
            completed_at: if completed { Some(now) } else { None },
            ..t
        };
        let m1 = StoreV { tasks: m.tasks.update(i, t2), ..m };
        assert forall|k: int| 0 <= k < m1.sessions.len() implies (match #[trigger] m1.sessions[k].task_id {
            Some(x) => has_task(m1.tasks, x),
            None => true,
        }) by {
            match m.sessions[k].task_id {
                Some(x) => {
                    let w = choose|j: int| 0 <= j < m.tasks.len() && m.tasks[j].id == x;
                    assert(m1.tasks[w].id == x);
                },
                None => {},
            }
        }
        assert(wf(m1));
        if completed && !t.completed {
            lemma_bump_task_done_wf(m1, spec_date_of(now));
        }
    }
}

/// Appending a freshly started session preserves the invariant: a running
/// session contributes to no aggregate.
pub proof fn lemma_start_session_wf(
    m: StoreV,
    id: Seq<char>,
    task_id: Option<Seq<char>>,
    kind: Seq<char>,
    duration: int,
    now: Seq<char>,
)
    requires
        wf(m),
        m.sessions_table,
        !has_session(m.sessions, id),
        is_valid_kind(kind),
        match task_id {
            Some(t) => has_task(m.tasks, t),
            None => true,
        },
    ensures
        wf(start_session_model(m, id, task_id, kind, duration, now)),
{
    let r = start_session_model(m, id, task_id, kind, duration, now);
    let s = r.sessions.last();
    assert(!qualifying(s));
    assert forall|i: int| 0 <= i < r.tasks.len() implies r.tasks[i].actual_pomodoros
        == count_actual(r.sessions, r.tasks[i].id) by {
        lemma_sum_by_push(m.sessions, actual_ind(r.tasks[i].id), s);
    }
    assert forall|i: int| 0 <= i < r.stats.len() implies {
        &&& r.stats[i].pomodoros_completed == count_poms(r.sessions, r.stats[i].date)
        &&& r.stats[i].total_work_time == sum_work(r.sessions, r.stats[i].date)
        &&& r.stats[i].tasks_completed == count_events(r.task_events, r.stats[i].date)
    } by {
        lemma_sum_by_push(m.sessions, pom_ind(r.stats[i].date), s);
        lemma_sum_by_push(m.sessions, work_ind(r.stats[i].date), s);
    }
    assert forall|i: int|
        0 <= i < r.sessions.len() && qualifying(r.sessions[i]) implies has_stat(
        r.stats,
        completion_date(r.sessions[i]),
    ) by {
        assert(i < m.sessions.len());
    }
}

/// Finishing a session preserves the invariant: on the qualifying path the
/// session row, the linked task's counter and the day's statistics move
/// together; on every other path no aggregate changes.
pub proof fn lemma_complete_session_wf(
    m: StoreV,
    sid: Seq<char>,
    wc: bool,
    wi: bool,
    now: Seq<char>,
)
    requires
        wf(m),
        m.stats_table,
        session_unfinished(m.sessions, sid),
    ensures
        wf(complete_session_model(m, sid, wc, wi, now)),
{
    if !has_session(m.sessions, sid) {
        return ;
    }
    let i = session_idx(m.sessions, sid);
    let s = m.sessions[i];
    assert(s.completed_at is None);
    assert(!qualifying(s));
    let s2 = SessionV {
        completed_at: if wc { Some(now) } else { None },
        interrupted: wi,
        ..s
    };
    let m1 = StoreV { sessions: m.sessions.update(i, s2), ..m };
    assert forall|k: int| 0 <= k < m1.sessions.len() implies (match #[trigger] m1.sessions[k].task_id {
        Some(t) => has_task(m1.tasks, t),
        None => true,
    }) by {
        if k != i {
            assert(m1.sessions[k] == m.sessions[k]);
        } else {
            assert(m1.sessions[k].task_id == s.task_id);
        }
    }
    if !(s.session_type == "work"@ && wc && !wi) {
        // no aggregate moves: the row stays non-qualifying
        assert(!qualifying(s2));
        let r = complete_session_model(m, sid, wc, wi, now);
        assert(r == m1);
        assert forall|k: int| 0 <= k < r.tasks.len() implies r.tasks[k].actual_pomodoros
            == count_actual(r.sessions, r.tasks[k].id) by {
            lemma_sum_by_update(m.sessions, actual_ind(r.tasks[k].id), i, s2);
        }
        assert forall|k: int| 0 <= k < r.stats.len() implies {
            &&& r.stats[k].pomodoros_completed == count_poms(r.sessions, r.stats[k].date)
            &&& r.stats[k].total_work_time == sum_work(r.sessions, r.stats[k].date)
            &&& r.stats[k].tasks_completed == count_events(r.task_events, r.stats[k].date)
        } by {
            lemma_sum_by_update(m.sessions, pom_ind(r.stats[k].date), i, s2);
            lemma_sum_by_update(m.sessions, work_ind(r.stats[k].date), i, s2);
        }
        assert forall|k: int|
            0 <= k < r.sessions.len() && qualifying(r.sessions[k]) implies has_stat(
            r.stats,
            completion_date(r.sessions[k]),
        ) by {
            assert(k != i);
            assert(r.sessions[k] == m.sessions[k]);
        }
        return ;
    }
    // the qualifying path
    let d = spec_date_of(now);
    assert(qualifying(s2));
    assert(completion_date(s2) == d);
    let m2 = match s.task_id {
        Some(tid) => if has_task(m1.tasks, tid) {
            let j = task_idx(m1.tasks, tid);
            let t = m1.tasks[j];
            StoreV {
                tasks: m1.tasks.update(j, TaskV { actual_pomodoros: t.actual_pomodoros + 1, ..t }),
                ..m1
            }
        } else {
            m1
        },
        None => m1,
    };
    let r = complete_session_model(m, sid, wc, wi, now);
    assert(r == bump_work_model(m2, d, s.duration_minutes));

    // each task's counter matches the updated log
    assert forall|k: int| 0 <= k < m2.tasks.len() implies m2.tasks[k].actual_pomodoros
        == count_actual(m2.sessions, m2.tasks[k].id) by {
        lemma_sum_by_update(m.sessions, actual_ind(m2.tasks[k].id), i, s2);
        match s.task_id {
            Some(tid) => {
                assert(has_task(m.tasks, tid));
                let j = task_idx(m.tasks, tid);
                assert(0 <= j < m.tasks.len() && m.tasks[j].id == tid);
                if k == j {
                    assert(m2.tasks[k].id == tid);
                    assert(actual_ind(tid)(s2) == 1);
                    assert(actual_ind(tid)(s) == 0);
                } else {
                    assert(m2.tasks[k] == m.tasks[k]);
                    assert(m.tasks[k].id != tid);
                    assert(actual_ind(m.tasks[k].id)(s2) == 0);
                }
            },
            None => {
                assert(actual_ind(m.tasks[k].id)(s2) == 0);
                assert(m2.tasks[k] == m.tasks[k]);
            },
        }
    }
    // session rows keep their ids and links
    assert forall|k: int| 0 <= k < m2.sessions.len() implies (match #[trigger] m2.sessions[k].task_id {
        Some(t) => has_task(m2.tasks, t),
        None => true,
    }) by {
        match m1.sessions[k].task_id {
            Some(t) => {
                let w = choose|v: int| 0 <= v < m1.tasks.len() && m1.tasks[v].id == t;
                assert(m2.tasks[w].id == t);
            },
            None => {},
        }
    }
    assert(keys_distinct(m2));
    // the statistics rows after the upsert
    assert forall|k: int| 0 <= k < r.stats.len() implies {
        &&& r.stats[k].pomodoros_completed == count_poms(r.sessions, r.stats[k].date)
        &&& r.stats[k].total_work_time == sum_work(r.sessions, r.stats[k].date)
        &&& r.stats[k].tasks_completed == count_events(r.task_events, r.stats[k].date)
    } by {
        let dd = r.stats[k].date;
        lemma_sum_by_update(m.sessions, pom_ind(dd), i, s2);
        lemma_sum_by_update(m.sessions, work_ind(dd), i, s2);
        if has_stat(m.stats, d) {
            let w = stat_idx(m.stats, d);
            assert(0 <= w < m.stats.len() && m.stats[w].date == d);
            if k == w {
                assert(dd == d);
                assert(pom_ind(d)(s2) == 1);
            } else {
                assert(r.stats[k] == m.stats[k]);
                assert(m.stats[k].date != d);
                assert(pom_ind(dd)(s2) == 0);
                assert(work_ind(dd)(s2) == 0);
            }
        } else {
            if k < m.stats.len() {
                assert(r.stats[k] == m.stats[k]);
                assert(m.stats[k].date != d);
                assert(pom_ind(dd)(s2) == 0);
                assert(work_ind(dd)(s2) == 0);
            } else {
                assert(dd == d);
                lemma_no_stat_zero(m, d);
                assert(pom_ind(d)(s2) == 1);
            }
        }
    }
    // every attributed date keeps a row
    assert forall|k: int|
        0 <= k < r.sessions.len() && qualifying(r.sessions[k]) implies has_stat(
        r.stats,
        completion_date(r.sessions[k]),
    ) by {
        let dd = if k == i { d } else { completion_date(m.sessions[k]) };
        assert(completion_date(r.sessions[k]) == dd);
        if has_stat(m.stats, d) {
            let w = stat_idx(m.stats, d);
            if k == i {
                assert(r.stats[w].date == d);
            } else {
                let w2 = stat_idx(m.stats, dd);
                assert(r.stats[w2].date == dd);
            }
        } else {
            if k == i {
                assert(r.stats[m.stats.len() as int].date == d);
            } else {
                let w2 = stat_idx(m.stats, dd);
                assert(r.stats[w2].date == dd);
            }
        }
    }
    assert forall|k: int| 0 <= k < r.task_events.len() implies has_stat(r.stats, r.task_events[k]) by {
        assert(has_stat(m.stats, m.task_events[k]));
        let w2 = stat_idx(m.stats, m.task_events[k]);
        if has_stat(m.stats, d) {
            assert(r.stats[w2].date == m.stats[w2].date);
        } else {
            assert(r.stats[w2].date == m.stats[w2].date);
        }
    }
    // distinct statistics dates
    assert forall|a: int, b: int| 0 <= a < b < r.stats.len() implies r.stats[a].date
        != r.stats[b].date by {
        if b < m.stats.len() {
            assert(m.stats[a].date != m.stats[b].date);
        } else {
            assert(!has_stat(m.stats, d));
            assert(r.stats[a].date == m.stats[a].date);
        }
    }
}

/// Deleting a task preserves the invariant: its sessions keep running with
/// their link cleared, so no aggregate and no other task's counter moves.
pub proof fn lemma_delete_task_wf(m: StoreV, tid: Seq<char>)
    requires
        wf(m),
    ensures
        wf(delete_task_model(m, tid)),
{
    if !has_task(m.tasks, tid) {
        return ;
    }
    let i = task_idx(m.tasks, tid);
    assert(0 <= i < m.tasks.len() && m.tasks[i].id == tid);
    let r = delete_task_model(m, tid);
    assert(r.sessions.len() == m.sessions.len());
    assert forall|k: int| 0 <= k < r.sessions.len() implies #[trigger] r.sessions[k] == (
        if m.sessions[k].task_id == Some(tid) {
            SessionV { task_id: None, ..m.sessions[k] }
        } else {
            m.sessions[k]
        }) by {}
    assert forall|k: int| 0 <= k < r.tasks.len() implies #[trigger] r.tasks[k] == (
        if k < i { m.tasks[k] } else { m.tasks[k + 1] }) by {}
    // remaining links still resolve
    assert forall|k: int| 0 <= k < r.sessions.len() implies (match #[trigger] r.sessions[k].task_id {
        Some(t) => has_task(r.tasks, t),
        None => true,
    }) by {
        match r.sessions[k].task_id {
            Some(t) => {
                assert(m.sessions[k].task_id == Some(t));
                assert(t != tid);
                let w = choose|v: int| 0 <= v < m.tasks.len() && m.tasks[v].id == t;
                assert(w != i);
                if w < i {
                    assert(r.tasks[w].id == t);
                } else {
                    assert(r.tasks[w - 1].id == t);
                }
            },
            None => {},
        }
    }
    // kinds survive the mapping
    assert forall|k: int| 0 <= k < r.sessions.len() implies is_valid_kind(
        #[trigger] r.sessions[k].session_type,
    ) by {
        assert(r.sessions[k].session_type == m.sessions[k].session_type);
    }
    // remaining tasks keep counters that match the remapped log
    assert forall|k: int| 0 <= k < r.tasks.len() implies r.tasks[k].actual_pomodoros
        == count_actual(r.sessions, r.tasks[k].id) by {
        let x = r.tasks[k].id;
        let orig: int = if k < i { k } else { k + 1 };
        assert(r.tasks[k] == m.tasks[orig]);
        assert(orig != i);
        assert(x != tid);
        assert forall|v: int| 0 <= v < m.sessions.len() implies actual_ind(x)(r.sessions[v])
            == actual_ind(x)(m.sessions[v]) by {
            if m.sessions[v].task_id == Some(tid) {
                assert(r.sessions[v].task_id is None);
                assert(m.sessions[v].task_id != Some(x));
            }
        }
        lemma_sum_by_pointwise(r.sessions, m.sessions, actual_ind(x));
    }
    // statistics are untouched by the link change
    assert forall|k: int| 0 <= k < r.stats.len() implies {
        &&& r.stats[k].pomodoros_completed == count_poms(r.sessions, r.stats[k].date)
        &&& r.stats[k].total_work_time == sum_work(r.sessions, r.stats[k].date)
        &&& r.stats[k].tasks_completed == count_events(r.task_events, r.stats[k].date)
    } by {
        let dd = r.stats[k].date;
        assert forall|v: int| 0 <= v < m.sessions.len() implies pom_ind(dd)(r.sessions[v])
            == pom_ind(dd)(m.sessions[v]) && work_ind(dd)(r.sessions[v]) == work_ind(dd)(
            m.sessions[v],
        ) by {
            assert(qualifying(r.sessions[v]) == qualifying(m.sessions[v]));
            assert(r.sessions[v].completed_at == m.sessions[v].completed_at);
        }
        lemma_sum_by_pointwise(r.sessions, m.sessions, pom_ind(dd));
        lemma_sum_by_pointwise(r.sessions, m.sessions, work_ind(dd));
    }
    assert forall|k: int|
        0 <= k < r.sessions.len() && qualifying(r.sessions[k]) implies has_stat(
        r.stats,
        completion_date(r.sessions[k]),
    ) by {
        assert(qualifying(m.sessions[k]));
        assert(completion_date(r.sessions[k]) == completion_date(m.sessions[k]));
    }
    // distinct remaining ids
    assert forall|a: int, b: int| 0 <= a < b < r.tasks.len() implies r.tasks[a].id
        != r.tasks[b].id by {
        let oa: int = if a < i { a } else { a + 1 };
        let ob: int = if b < i { b } else { b + 1 };
        assert(r.tasks[a] == m.tasks[oa]);
        assert(r.tasks[b] == m.tasks[ob]);
        assert(oa < ob);
        assert(m.tasks[oa].id != m.tasks[ob].id);
    }
    assert forall|a: int, b: int| 0 <= a < b < r.sessions.len() implies r.sessions[a].id
        != r.sessions[b].id by {
        assert(r.sessions[a].id == m.sessions[a].id);
        assert(r.sessions[b].id == m.sessions[b].id);
    }
}

} // verus!
