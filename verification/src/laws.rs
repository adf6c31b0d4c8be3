//! The store's laws, stated and proved over the model: daily statistics
//! always equal the aggregation of the log; a task's actual count always
//! equals its qualifying completions; serialized batches of distinct
//! session completions are all counted, none lost; and migration is
//! idempotent and convergent.

use vstd::prelude::*;
use crate::counts::lemma_sum_by_update;
use crate::model::{
    StoreV, wf, schema_current, has_task, has_session, has_stat, task_idx, session_idx, stat_idx,
    count_poms, sum_work, count_actual, count_events, pom_ind, work_ind, actual_ind,
    complete_session_model, session_unfinished, migrate_model,
};
use crate::preservation::{
    lemma_no_stat_zero, lemma_migrate_wf, lemma_complete_session_wf, lemma_task_idx_unique,
    lemma_session_idx_unique,
};
use crate::text::spec_date_of;
use crate::types::{SessionV, qualifying, qualifying_on};

verus! {

/// The pomodoro count the store reports for a date: its row's value, or
/// zero for a date with no row.
pub open spec fn daily_pomodoros(m: StoreV, d: Seq<char>) -> int {
    if has_stat(m.stats, d) {
        m.stats[stat_idx(m.stats, d)].pomodoros_completed
    } else {
        0
    }
}

/// The work minutes the store reports for a date.
pub open spec fn daily_work_time(m: StoreV, d: Seq<char>) -> int {
    if has_stat(m.stats, d) {
        m.stats[stat_idx(m.stats, d)].total_work_time
    } else {
        0
    }
}

/// The completed-task count the store reports for a date.
pub open spec fn daily_tasks_completed(m: StoreV, d: Seq<char>) -> int {
    if has_stat(m.stats, d) {
        m.stats[stat_idx(m.stats, d)].tasks_completed
    } else {
        0
    }
}

/// Law: for every date, the reported daily statistics equal the aggregation
/// of the log — the pomodoro count is the number of sessions of the work
/// kind, not interrupted, with a completion timestamp whose date is that
/// date; the work time is the sum of their durations; the completed-task
/// count is the number of task-completion events on that date. A date with
/// no row reports zeros, and indeed nothing in the log falls on it.
pub proof fn law_daily_stats_match_log(m: StoreV, d: Seq<char>)
    requires
        wf(m),
    ensures
        daily_pomodoros(m, d) == count_poms(m.sessions, d),
        daily_work_time(m, d) == sum_work(m.sessions, d),
        daily_tasks_completed(m, d) == count_events(m.task_events, d),
{
    if has_stat(m.stats, d) {
        let i = stat_idx(m.stats, d);
        assert(0 <= i < m.stats.len() && m.stats[i].date == d);
    } else {
        lemma_no_stat_zero(m, d);
    }
}

/// Law: every task's actual pomodoro count equals the number of qualifying
/// sessions linked to it in the log.
pub proof fn law_actual_matches_log(m: StoreV, i: int)
    requires
        wf(m),
        0 <= i < m.tasks.len(),
    ensures
        m.tasks[i].actual_pomodoros == count_actual(m.sessions, m.tasks[i].id),
{
}

/// The effect of one qualifying completion on the log's aggregations: the
/// completed session's date gains exactly one pomodoro and its duration in
/// work minutes, its linked task exactly one actual pomodoro, and every
/// other date, task and session row is untouched.
pub proof fn lemma_one_completion_effect(m: StoreV, sid: Seq<char>, now: Seq<char>)
    requires
        wf(m),
        m.stats_table,
        has_session(m.sessions, sid),
        session_unfinished(m.sessions, sid),
        m.sessions[session_idx(m.sessions, sid)].session_type == "work"@,
    ensures
        ({
            let r = complete_session_model(m, sid, true, false, now);
            &&& wf(r)
            &&& r.stats_table
            &&& r.sessions.len() == m.sessions.len()
            &&& r.tasks.len() == m.tasks.len()
            &&& (forall|k: int|
                0 <= k < m.tasks.len() ==> (#[trigger] r.tasks[k]).id == m.tasks[k].id)
            &&& (forall|k: int|
                0 <= k < m.sessions.len() ==> (#[trigger] r.sessions[k]).id == m.sessions[k].id
                    && r.sessions[k].task_id == m.sessions[k].task_id
                    && r.sessions[k].session_type == m.sessions[k].session_type)
            &&& (forall|k: int|
                0 <= k < m.sessions.len() && (#[trigger] m.sessions[k]).id != sid ==> r.sessions[k]
                    == m.sessions[k])
            &&& count_poms(r.sessions, spec_date_of(now)) == count_poms(
                m.sessions,
                spec_date_of(now),
            ) + 1
            &&& (forall|dd: Seq<char>|
                dd != spec_date_of(now) ==> #[trigger] count_poms(r.sessions, dd) == count_poms(
                    m.sessions,
                    dd,
                ))
            &&& sum_work(r.sessions, spec_date_of(now)) == sum_work(m.sessions, spec_date_of(now))
                + m.sessions[session_idx(m.sessions, sid)].duration_minutes
            &&& (forall|dd: Seq<char>|
                dd != spec_date_of(now) ==> #[trigger] sum_work(r.sessions, dd) == sum_work(
                    m.sessions,
                    dd,
                ))
            &&& (match m.sessions[session_idx(m.sessions, sid)].task_id {
                Some(t) => count_actual(r.sessions, t) == count_actual(m.sessions, t) + 1 && (
                forall|t2: Seq<char>|
                    t2 != t ==> #[trigger] count_actual(r.sessions, t2) == count_actual(
                        m.sessions,
                        t2,
                    )),
                None => forall|t2: Seq<char>|
                    #[trigger] count_actual(r.sessions, t2) == count_actual(m.sessions, t2),
            })
        }),
{
    lemma_complete_session_wf(m, sid, true, false, now);
    let r = complete_session_model(m, sid, true, false, now);
    let i = session_idx(m.sessions, sid);
    let s = m.sessions[i];
    assert(s.completed_at is None);
    let s2 = SessionV { completed_at: Some(now), interrupted: false, ..s };
    assert(r.sessions == m.sessions.update(i, s2));
    assert(qualifying_on(s2, spec_date_of(now)));
    lemma_sum_by_update(m.sessions, pom_ind(spec_date_of(now)), i, s2);
    lemma_sum_by_update(m.sessions, work_ind(spec_date_of(now)), i, s2);
    assert forall|dd: Seq<char>| dd != spec_date_of(now) implies #[trigger] count_poms(
        r.sessions,
        dd,
    ) == count_poms(m.sessions, dd) by {
        lemma_sum_by_update(m.sessions, pom_ind(dd), i, s2);
        assert(pom_ind(dd)(s) == 0);
        assert(pom_ind(dd)(s2) == 0);
    }
    assert forall|dd: Seq<char>| dd != spec_date_of(now) implies #[trigger] sum_work(
        r.sessions,
        dd,
    ) == sum_work(m.sessions, dd) by {
        lemma_sum_by_update(m.sessions, work_ind(dd), i, s2);
        assert(work_ind(dd)(s) == 0);
        assert(work_ind(dd)(s2) == 0);
    }
    match s.task_id {
        Some(t) => {
            lemma_sum_by_update(m.sessions, actual_ind(t), i, s2);
            assert(actual_ind(t)(s) == 0);
            assert(actual_ind(t)(s2) == 1);
            assert forall|t2: Seq<char>| t2 != t implies #[trigger] count_actual(r.sessions, t2)
                == count_actual(m.sessions, t2) by {
                lemma_sum_by_update(m.sessions, actual_ind(t2), i, s2);
                assert(actual_ind(t2)(s) == 0);
                assert(actual_ind(t2)(s2) == 0);
            }
        },
        None => {
            assert forall|t2: Seq<char>| #[trigger] count_actual(r.sessions, t2) == count_actual(
                m.sessions,
                t2,
            ) by {
                lemma_sum_by_update(m.sessions, actual_ind(t2), i, s2);
                assert(actual_ind(t2)(s) == 0);
                assert(actual_ind(t2)(s2) == 0);
            }
        },
    }
}

/// The store after finishing each listed session in turn, each as a
/// completed, uninterrupted run at its own instant.
pub open spec fn complete_all(m: StoreV, sids: Seq<Seq<char>>, nows: Seq<Seq<char>>) -> StoreV
    decreases sids.len(),
{
    if sids.len() == 0 {
        m
    } else {
        complete_session_model(
            complete_all(m, sids.drop_last(), nows.drop_last()),
            sids.last(),
            true,
            false,
            nows.last(),
        )
    }
}

/// The planned minutes of a batch of sessions, summed in batch order.
pub open spec fn batch_minutes(m: StoreV, sids: Seq<Seq<char>>) -> int
    decreases sids.len(),
{
    if sids.len() == 0 {
        0
    } else {
        batch_minutes(m, sids.drop_last()) + m.sessions[session_idx(
            m.sessions,
            sids.last(),
        )].duration_minutes
    }
}

/// The listed sessions are distinct, present, still running, and of the
/// work kind: a batch of completions that may race.
pub open spec fn runnable_batch(m: StoreV, sids: Seq<Seq<char>>) -> bool {
    &&& (forall|a: int, b: int|
        0 <= a < b < sids.len() ==> #[trigger] sids[a] != #[trigger] sids[b])
    &&& (forall|k: int|
        0 <= k < sids.len() ==> {
            &&& has_session(m.sessions, #[trigger] sids[k])
            &&& session_unfinished(m.sessions, sids[k])
            &&& m.sessions[session_idx(m.sessions, sids[k])].session_type == "work"@
        })
}

/// Serialized completions of a batch: the invariant holds throughout, each
/// session's date gains its completion, and a common linked task gains one
/// actual pomodoro per completion.
pub proof fn lemma_serialized_completions(
    m: StoreV,
    sids: Seq<Seq<char>>,
    nows: Seq<Seq<char>>,
    d: Option<Seq<char>>,
    link: Option<Seq<char>>,
)
    requires
        wf(m),
        m.stats_table,
        sids.len() == nows.len(),
        runnable_batch(m, sids),
        match d {
            Some(dv) => forall|k: int| 0 <= k < nows.len() ==> spec_date_of(#[trigger] nows[k])
                == dv,
            None => true,
        },
        match link {
            Some(tid) => forall|k: int|
                0 <= k < sids.len() ==> m.sessions[session_idx(
                    m.sessions,
                    #[trigger] sids[k],
                )].task_id == Some(tid),
            None => true,
        },
    ensures
        ({
            let r = complete_all(m, sids, nows);
            &&& wf(r)
            &&& r.stats_table
            &&& r.sessions.len() == m.sessions.len()
            &&& r.tasks.len() == m.tasks.len()
            &&& (forall|k: int|
                0 <= k < m.tasks.len() ==> (#[trigger] r.tasks[k]).id == m.tasks[k].id)
            &&& (forall|k: int|
                0 <= k < m.sessions.len() ==> (#[trigger] r.sessions[k]).id == m.sessions[k].id
                    && r.sessions[k].task_id == m.sessions[k].task_id
                    && r.sessions[k].session_type == m.sessions[k].session_type)
            &&& (forall|k: int|
                0 <= k < m.sessions.len() && (forall|v: int|
                    0 <= v < sids.len() ==> (#[trigger] m.sessions[k]).id != #[trigger] sids[v])
                    ==> r.sessions[k] == m.sessions[k])
            &&& (match d {
                Some(dv) => count_poms(r.sessions, dv) == count_poms(m.sessions, dv) + sids.len()
                    && sum_work(r.sessions, dv) == sum_work(m.sessions, dv) + batch_minutes(
                    m,
                    sids,
                ),
                None => true,
            })
            &&& (match link {
                Some(tid) => count_actual(r.sessions, tid) == count_actual(m.sessions, tid)
                    + sids.len(),
                None => true,
            })
        }),
    decreases sids.len(),
{
    if sids.len() == 0 {
        return ;
    }
    let front = sids.drop_last();
    let nfront = nows.drop_last();
    let last = sids.last();
    assert(runnable_batch(m, front)) by {
        assert forall|k: int| 0 <= k < front.len() implies {
            &&& has_session(m.sessions, #[trigger] front[k])
            &&& session_unfinished(m.sessions, front[k])
            &&& m.sessions[session_idx(m.sessions, front[k])].session_type == "work"@
        } by {
            assert(front[k] == sids[k]);
        }
        assert forall|a: int, b: int| 0 <= a < b < front.len() implies #[trigger] front[a]
            != #[trigger] front[b] by {
            assert(front[a] == sids[a] && front[b] == sids[b]);
        }
    }
    match d {
        Some(dv) => {
            assert(forall|k: int| 0 <= k < nfront.len() ==> spec_date_of(#[trigger] nfront[k])
                == dv);
        },
        None => {},
    }
    match link {
        Some(tid) => {
            assert forall|k: int|
                0 <= k < front.len() implies m.sessions[session_idx(
                m.sessions,
                #[trigger] front[k],
            )].task_id == Some(tid) by {
                assert(front[k] == sids[k]);
            }
        },
        None => {},
    }
    lemma_serialized_completions(m, front, nfront, d, link);
    let m1 = complete_all(m, front, nfront);
    // the last session is untouched by the earlier completions
    let i = session_idx(m.sessions, last);
    assert(has_session(m.sessions, last) && m.sessions[i].id == last) by {
        assert(sids[sids.len() - 1] == last);
    }
    assert(forall|v: int| 0 <= v < front.len() ==> (#[trigger] m.sessions[i]).id != front[v]) by {
        assert forall|v: int| 0 <= v < front.len() implies m.sessions[i].id != #[trigger] front[v] by {
            assert(front[v] == sids[v] && sids[sids.len() - 1] == last);
        }
    }
    assert(m1.sessions[i] == m.sessions[i]);
    assert(has_session(m1.sessions, last));
    assert(session_idx(m1.sessions, last) == i) by {
        lemma_session_idx_unique(m1, i);
    }
    assert(session_unfinished(m1.sessions, last)) by {
        assert forall|v: int|
            0 <= v < m1.sessions.len() && #[trigger] m1.sessions[v].id == last implies
            m1.sessions[v].completed_at is None by {
            lemma_session_idx_unique(m1, v);
        }
    }
    lemma_one_completion_effect(m1, last, nows.last());
    let r = complete_session_model(m1, last, true, false, nows.last());
    assert(r == complete_all(m, sids, nows));
    // carry the preservation facts through the last step
    assert forall|k: int|
        0 <= k < m.sessions.len() && (forall|v: int|
            0 <= v < sids.len() ==> (#[trigger] m.sessions[k]).id != #[trigger] sids[v]) implies
        r.sessions[k] == m.sessions[k] by {
        assert forall|v: int| 0 <= v < front.len() implies m.sessions[k].id != #[trigger] front[v] by {
            assert(front[v] == sids[v]);
        }
        assert(m1.sessions[k] == m.sessions[k]);
        assert(m.sessions[k].id != sids[sids.len() - 1]);
        assert(m1.sessions[k].id != last);
    }
    match d {
        Some(dv) => {
            assert(spec_date_of(nows.last()) == dv) by {
                assert(nows[nows.len() - 1] == nows.last());
            }
            assert(count_poms(r.sessions, dv) == count_poms(m1.sessions, dv) + 1);
            assert(m1.sessions[session_idx(m1.sessions, last)].duration_minutes
                == m.sessions[i].duration_minutes);
            assert(batch_minutes(m, sids) == batch_minutes(m, front)
                + m.sessions[i].duration_minutes);
            assert(sum_work(r.sessions, dv) == sum_work(m1.sessions, dv)
                + m.sessions[i].duration_minutes);
        },
        None => {},
    }
    match link {
        Some(tid) => {
            assert(m1.sessions[i].task_id == Some(tid)) by {
                assert(sids[sids.len() - 1] == last);
            }
            assert(count_actual(r.sessions, tid) == count_actual(m1.sessions, tid) + 1);
        },
        None => {},
    }
}

/// Law: serialized completions of distinct running work sessions, each
/// attributed to the same date, each increase that date's reported pomodoro
/// count by exactly one and its work time by the session's minutes — none
/// is lost, however the batch interleaves.
pub proof fn law_no_lost_updates(m: StoreV, sids: Seq<Seq<char>>, nows: Seq<Seq<char>>, d: Seq<char>)
    requires
        wf(m),
        m.stats_table,
        sids.len() == nows.len(),
        runnable_batch(m, sids),
        forall|k: int| 0 <= k < nows.len() ==> spec_date_of(#[trigger] nows[k]) == d,
    ensures
        wf(complete_all(m, sids, nows)),
        daily_pomodoros(complete_all(m, sids, nows), d) == daily_pomodoros(m, d) + sids.len(),
        daily_work_time(complete_all(m, sids, nows), d) == daily_work_time(m, d) + batch_minutes(
            m,
            sids,
        ),
{
    lemma_serialized_completions(m, sids, nows, Some(d), None);
    let r = complete_all(m, sids, nows);
    law_daily_stats_match_log(m, d);
    law_daily_stats_match_log(r, d);
}

/// Law: completing a batch of distinct running work sessions all linked to
/// one task raises that task's actual pomodoro count by exactly the batch's
/// size; a task fresh from creation thus reads exactly the number of its
/// completed, uninterrupted work sessions.
pub proof fn law_actual_counts_completions(
    m: StoreV,
    sids: Seq<Seq<char>>,
    nows: Seq<Seq<char>>,
    tid: Seq<char>,
)
    requires
        wf(m),
        m.stats_table,
        sids.len() == nows.len(),
        runnable_batch(m, sids),
        has_task(m.tasks, tid),
        forall|k: int|
            0 <= k < sids.len() ==> m.sessions[session_idx(m.sessions, #[trigger] sids[k])].task_id
                == Some(tid),
    ensures
        wf(complete_all(m, sids, nows)),
        has_task(complete_all(m, sids, nows).tasks, tid),
        complete_all(m, sids, nows).tasks[task_idx(
            complete_all(m, sids, nows).tasks,
            tid,
        )].actual_pomodoros == m.tasks[task_idx(m.tasks, tid)].actual_pomodoros + sids.len(),
{
    lemma_serialized_completions(m, sids, nows, None, Some(tid));
    let r = complete_all(m, sids, nows);
    let i = task_idx(m.tasks, tid);
    assert(0 <= i < m.tasks.len() && m.tasks[i].id == tid);
    assert(r.tasks[i].id == tid);
    assert(has_task(r.tasks, tid));
    lemma_task_idx_unique(r, i);
    law_actual_matches_log(m, i);
    law_actual_matches_log(r, i);
}

/// Law: migration is idempotent — a store already at the current version is
/// left exactly as it is, and a second run changes nothing more.
pub proof fn law_migration_idempotent(m: StoreV)
    requires
        wf(m),
    ensures
        schema_current(m) ==> migrate_model(m) == m,
        migrate_model(migrate_model(m)) == migrate_model(m),
{
    lemma_migrate_wf(m);
}

/// Law: migration converges — two stores holding the same rows, whatever
/// schema version or partial migration state each is in, migrate to the
/// same store, rows untouched.
pub proof fn law_migration_converges(a: StoreV, b: StoreV)
    requires
        wf(a),
        wf(b),
        a.tasks == b.tasks,
        a.sessions == b.sessions,
        a.stats == b.stats,
        a.task_events == b.task_events,
    ensures
        migrate_model(a) == migrate_model(b),
        migrate_model(a).tasks == a.tasks,
        migrate_model(a).sessions == a.sessions,
        migrate_model(a).stats == a.stats,
        schema_current(migrate_model(a)),
{
    lemma_migrate_wf(a);
    lemma_migrate_wf(b);
    assert(migrate_model(a) =~= migrate_model(b));
}

} // verus!
