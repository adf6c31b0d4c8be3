//! The listing orders of the store's read paths, and one verified sort
//! used by all of them: the result is a permutation of the input, ordered
//! by the type's own listing order.

use vstd::prelude::*;
use vstd::multiset::Multiset;
use crate::text::{lex_le, lex_le_exec, lemma_lex_le_total, lemma_lex_le_trans};
use crate::types::{Task, PomodoroSession, DailyStats, HeatmapPoint};

verus! {

broadcast use {vstd::seq_lib::group_to_multiset_ensures, vstd::multiset::group_multiset_axioms};

/// A total preorder: the order a listing presents its rows in.
pub trait ListOrder: Sized {
    /// Row `a` may stand before row `b`.
    spec fn before(a: Self, b: Self) -> bool;

    proof fn lemma_total(a: Self, b: Self)
        ensures
            Self::before(a, b) || Self::before(b, a),
    ;

    proof fn lemma_trans(a: Self, b: Self, c: Self)
        requires
            Self::before(a, b),
            Self::before(b, c),
        ensures
            Self::before(a, c),
    ;

    /// Decides the order.
    fn le_exec(&self, other: &Self) -> (r: bool)
        ensures
            r == Self::before(*self, *other),
    ;
}

/// Rows pairwise in listing order.
pub open spec fn ordered<T: ListOrder>(s: Seq<T>) -> bool {
    forall|i: int, j: int| 0 <= i < j < s.len() ==> T::before(#[trigger] s[i], #[trigger] s[j])
}

/// Tasks list by priority descending, ties by creation time descending.
impl ListOrder for Task {
    open spec fn before(a: Task, b: Task) -> bool {
        a.priority > b.priority || (a.priority == b.priority && lex_le(b.created_at@, a.created_at@))
    }

    proof fn lemma_total(a: Task, b: Task) {
        if a.priority == b.priority {
            lemma_lex_le_total(a.created_at@, b.created_at@);
        }
    }

    proof fn lemma_trans(a: Task, b: Task, c: Task) {
        if a.priority == b.priority && b.priority == c.priority {
            lemma_lex_le_trans(c.created_at@, b.created_at@, a.created_at@);
        }
    }

    fn le_exec(&self, other: &Self) -> (r: bool) {
        if self.priority > other.priority {
            true
        } else if self.priority < other.priority {
            false
        } else {
            lex_le_exec(other.created_at.as_str(), self.created_at.as_str())
        }
    }
}

/// Sessions list newest-first by start timestamp.
impl ListOrder for PomodoroSession {
    open spec fn before(a: PomodoroSession, b: PomodoroSession) -> bool {
        lex_le(b.started_at@, a.started_at@)
    }

    proof fn lemma_total(a: PomodoroSession, b: PomodoroSession) {
        lemma_lex_le_total(a.started_at@, b.started_at@);
    }

    proof fn lemma_trans(a: PomodoroSession, b: PomodoroSession, c: PomodoroSession) {
        lemma_lex_le_trans(c.started_at@, b.started_at@, a.started_at@);
    }

    fn le_exec(&self, other: &Self) -> (r: bool) {
        lex_le_exec(other.started_at.as_str(), self.started_at.as_str())
    }
}

/// Daily statistics list newest-first by date.
impl ListOrder for DailyStats {
    open spec fn before(a: DailyStats, b: DailyStats) -> bool {
        lex_le(b.date@, a.date@)
    }

    proof fn lemma_total(a: DailyStats, b: DailyStats) {
        lemma_lex_le_total(a.date@, b.date@);
    }

    proof fn lemma_trans(a: DailyStats, b: DailyStats, c: DailyStats) {
        lemma_lex_le_trans(c.date@, b.date@, a.date@);
    }

    fn le_exec(&self, other: &Self) -> (r: bool) {
        lex_le_exec(other.date.as_str(), self.date.as_str())
    }
}

/// Heatmap points list oldest-first by date.
impl ListOrder for HeatmapPoint {
    open spec fn before(a: HeatmapPoint, b: HeatmapPoint) -> bool {
        lex_le(a.date@, b.date@)
    }

    proof fn lemma_total(a: HeatmapPoint, b: HeatmapPoint) {
        lemma_lex_le_total(a.date@, b.date@);
    }

    proof fn lemma_trans(a: HeatmapPoint, b: HeatmapPoint, c: HeatmapPoint) {
        lemma_lex_le_trans(a.date@, b.date@, c.date@);
    }

    fn le_exec(&self, other: &Self) -> (r: bool) {
        lex_le_exec(self.date.as_str(), other.date.as_str())
    }
}

/// Sorts the rows into listing order: the result holds exactly the given
/// rows, pairwise ordered.
pub fn sort_rows<T: ListOrder>(v: Vec<T>) -> (r: Vec<T>)
    ensures
        r@.to_multiset() == v@.to_multiset(),
        r@.len() == v@.len(),
        ordered(r@),
{
    let mut rest = v;
    let mut out: Vec<T> = Vec::new();
    proof {
        assert(out@.to_multiset().add(rest@.to_multiset()) =~= v@.to_multiset());
    }
    while rest.len() > 0
        invariant
            out@.len() + rest@.len() == v@.len(),
            out@.to_multiset().add(rest@.to_multiset()) == v@.to_multiset(),
            ordered(out@),
            forall|a: int, b: int|
                0 <= a < out@.len() && 0 <= b < rest@.len() ==> T::before(
                    #[trigger] out@[a],
                    #[trigger] rest@[b],
                ),
        decreases rest.len(),
    {
        // select a row that may stand before every remaining row
        let mut best: usize = 0;
        let mut k: usize = 1;
        proof {
            T::lemma_total(rest@[0], rest@[0]);
        }
        while k < rest.len()
            invariant
                best < k,
                1 <= k <= rest@.len(),
                rest@.len() > 0,
                forall|t: int| 0 <= t < k ==> T::before(rest@[best as int], #[trigger] rest@[t]),
            decreases rest@.len() - k,
        {
            let keep = rest[best].le_exec(&rest[k]);
            proof {
                T::lemma_total(rest@[best as int], rest@[k as int]);
            }
            if !keep {
                proof {
                    assert forall|t: int| 0 <= t < k + 1 implies T::before(
                        rest@[k as int],
                        #[trigger] rest@[t],
                    ) by {
                        if t < k {
                            T::lemma_trans(rest@[k as int], rest@[best as int], rest@[t]);
                        } else {
                            T::lemma_total(rest@[k as int], rest@[k as int]);
                        }
                    }
                }
                best = k;
            }
            k = k + 1;
        }
        let ghost pre_out = out@;
        let ghost pre_rest = rest@;
        let x = rest.remove(best);
        out.push(x);
        proof {
            assert(out@.to_multiset().add(rest@.to_multiset()) =~= pre_out.to_multiset().add(
                pre_rest.to_multiset(),
            ));
            assert forall|a: int, b: int|
                0 <= a < out@.len() && 0 <= b < rest@.len() implies T::before(
                #[trigger] out@[a],
                #[trigger] rest@[b],
            ) by {
                let ob: int = if b < best { b } else { b + 1 };
                assert(rest@[b] == pre_rest[ob]);
                if a < pre_out.len() {
                    assert(out@[a] == pre_out[a]);
                } else {
                    assert(out@[a] == x);
                }
            }
            assert forall|i: int, j: int| 0 <= i < j < out@.len() implies T::before(
                #[trigger] out@[i],
                #[trigger] out@[j],
            ) by {
                if j < pre_out.len() {
                    assert(out@[i] == pre_out[i] && out@[j] == pre_out[j]);
                } else {
                    assert(out@[j] == x);
                    assert(pre_rest[best as int] == x);
                    assert(out@[i] == pre_out[i]);
                }
            }
        }
    }
    proof {
        assert(rest@.to_multiset() =~= Multiset::empty());
        assert(out@.to_multiset() =~= v@.to_multiset());
    }
    out
}

} // verus!
