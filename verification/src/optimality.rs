use vstd::prelude::*;
use crate::viterbi::{candidates, first_max, is_first_max, lemma_first_max_exists, max_of, Model};
use crate::weight::Ext;

verus! {

/// Every state of a path is one of the 24 keys.
pub open spec fn is_path(path: Seq<int>) -> bool {
    forall|i: int| 0 <= i < path.len() ==> 0 <= #[trigger] path[i] < 24
}

impl Model {
    /// The joint log-probability of a path of states and the observations
    /// made along it: the start weight of the first state, the transition
    /// weight of each step, and the emission weight of each observation.
    pub open spec fn path_score(self, obs: Seq<u8>, path: Seq<int>) -> Ext
        decreases path.len(),
    {
        if path.len() == 0 {
            Ext::Fin(0)
        } else if path.len() == 1 {
            self.start[path[0]]@.plus(self.emit[path[0]][obs[0] as int]@)
        } else {
            let t = path.len() - 1;
            self.path_score(obs, path.drop_last()).plus(self.trans[path[t - 1]][path[t]]@).plus(
                self.emit[path[t]][obs[t] as int]@,
            )
        }
    }

    /// The path that ends in state `s` at step `t` and follows the best
    /// predecessors back to step 0.
    pub open spec fn best_path_into(self, obs: Seq<u8>, t: int, s: int) -> Seq<int> {
        Seq::new((t + 1) as nat, |i: int| self.path_state(obs, t, s, i))
    }

    /// The best predecessor of a state is a state.
    pub proof fn lemma_back_in_range(self, obs: Seq<u8>, t: int, s: int)
        ensures
            0 <= self.back(obs, t, s) < 24,
            is_first_max(candidates(self.column(obs, t - 1), self.trans, s), self.back(obs, t, s)),
    {
        lemma_first_max_exists(candidates(self.column(obs, t - 1), self.trans, s));
    }

    /// The states of a path that follows best predecessors are states.
    pub proof fn lemma_path_state_in_range(self, obs: Seq<u8>, t_end: int, s_end: int, t: int)
        requires
            0 <= s_end < 24,
        ensures
            0 <= self.path_state(obs, t_end, s_end, t) < 24,
        decreases t_end - t,
    {
        if t < t_end {
            self.lemma_path_state_in_range(obs, t_end, s_end, t + 1);
            self.lemma_back_in_range(obs, t + 1, self.path_state(obs, t_end, s_end, t + 1));
        }
    }

    /// Before its last step, the best path into a state is the best path
    /// into the best predecessor of that state.
    pub proof fn lemma_path_prefix(self, obs: Seq<u8>, t: int, s: int, i: int)
        requires
            i < t,
        ensures
            self.path_state(obs, t, s, i) == self.path_state(obs, t - 1, self.back(obs, t, s), i),
        decreases t - i,
    {
        let p = self.back(obs, t, s);
        if i < t - 1 {
            self.lemma_path_prefix(obs, t, s, i + 1);
            assert(self.path_state(obs, t, s, i) == self.back(obs, i + 1, self.path_state(obs, t, s, i + 1)));
            assert(self.path_state(obs, t - 1, p, i) == self.back(
                obs,
                i + 1,
                self.path_state(obs, t - 1, p, i + 1),
            ));
        } else {
            assert(self.path_state(obs, t, s, t) == s);
            assert(self.path_state(obs, t, s, i) == self.back(obs, t, self.path_state(obs, t, s, t)));
            assert(self.path_state(obs, t - 1, p, i) == p);
        }
    }

    /// No path into a cell of the trellis scores higher than the cell.
    pub proof fn lemma_cell_bounds_paths(self, obs: Seq<u8>, path: Seq<int>)
        requires
            path.len() >= 1,
            is_path(path),
        ensures
            self.path_score(obs, path).le(self.column(obs, path.len() - 1)[path.last()]),
        decreases path.len(),
    {
        if path.len() > 1 {
            let t = path.len() - 1;
            let before = path.drop_last();
            assert(is_path(before));
            self.lemma_cell_bounds_paths(obs, before);
            let cands = candidates(self.column(obs, t - 1), self.trans, path[t]);
            lemma_first_max_exists(cands);
            assert(before.last() == path[t - 1]);
            assert(cands[path[t - 1]].le(max_of(cands)));
        }
    }

    /// The best path into a cell of the trellis scores what the cell holds.
    pub proof fn lemma_best_path_attains(self, obs: Seq<u8>, t: int, s: int)
        requires
            0 <= t,
            0 <= s < 24,
        ensures
            is_path(self.best_path_into(obs, t, s)),
            self.path_score(obs, self.best_path_into(obs, t, s)) == self.column(obs, t)[s],
        decreases t,
    {
        let path = self.best_path_into(obs, t, s);
        assert forall|i: int| 0 <= i < path.len() implies 0 <= #[trigger] path[i] < 24 by {
            self.lemma_path_state_in_range(obs, t, s, i);
        }
        if t > 0 {
            let p = self.back(obs, t, s);
            self.lemma_back_in_range(obs, t, s);
            self.lemma_best_path_attains(obs, t - 1, p);
            let before = self.best_path_into(obs, t - 1, p);
            assert forall|i: int| 0 <= i < t implies path.drop_last()[i] == before[i] by {
                self.lemma_path_prefix(obs, t, s, i);
            }
            assert(path.drop_last() =~= before);
            assert(path[t - 1] == p);
            assert(path[t] == s);
        }
    }

    /// The trellis of a non-empty sequence of observations has a best cell.
    pub proof fn lemma_best_cell_exists(self, obs: Seq<u8>)
        requires
            obs.len() >= 1,
        ensures
            self.is_best_cell(obs, self.best_cell(obs).0, self.best_cell(obs).1),
    {
        let cells = Seq::new(24 * obs.len(), |i: int| self.column(obs, i / 24)[i % 24]);
        lemma_first_max_exists(cells);
        let i = first_max(cells);
        let t = i / 24;
        let s = i % 24;
        assert forall|t1: int, s1: int|
            0 <= t1 && 0 <= s1 < 24 && (t1 < obs.len() || (t1 == obs.len() && s1 < 0)) implies ({
            &&& (#[trigger] self.column(obs, t1)[s1]).le(self.column(obs, t)[s])
            &&& (t1 < t || (t1 == t && s1 < s)) ==> self.column(obs, t1)[s1].lt(self.column(obs, t)[s])
        }) by {
            let i1 = 24 * t1 + s1;
            assert(i1 / 24 == t1 && i1 % 24 == s1);
            assert(cells[i1] == self.column(obs, t1)[s1]);
            assert(cells[i1].le(cells[i]));
            if t1 < t || (t1 == t && s1 < s) {
                assert(i1 < i);
                assert(cells[i1].lt(cells[i]));
            }
        }
        assert(self.is_best_cell(obs, t, s));
    }

    /// The decoded path has one state per observation, and each is a key.
    pub proof fn lemma_viterbi_path_shape(self, obs: Seq<u8>)
        requires
            obs.len() >= 1,
        ensures
            self.viterbi_path(obs).len() == obs.len(),
            forall|t: int| 0 <= t < obs.len() ==> (#[trigger] self.viterbi_path(obs)[t]) < 24,
    {
        self.lemma_best_cell_exists(obs);
        let (t_end, s_end) = self.best_cell(obs);
        assert forall|t: int| 0 <= t < obs.len() implies (#[trigger] self.viterbi_path(obs)[t]) < 24 by {
            self.lemma_path_state_in_range(obs, t_end, s_end, t);
        }
    }

    /// The decoded score is the greatest joint log-probability of any path
    /// over a beginning of the observations.
    pub proof fn lemma_viterbi_score_is_greatest(self, obs: Seq<u8>, path: Seq<int>)
        requires
            1 <= path.len() <= obs.len(),
            is_path(path),
        ensures
            self.path_score(obs, path).le(self.viterbi_score(obs)),
    {
        self.lemma_best_cell_exists(obs);
        self.lemma_cell_bounds_paths(obs, path);
        let (t, s) = self.best_cell(obs);
        assert(self.column(obs, path.len() - 1)[path.last()].le(self.column(obs, t)[s]));
    }

    /// The decoded path attains the decoded score: up to the step of the
    /// best cell it is the best path into that cell, whose joint
    /// log-probability is the decoded score.
    pub proof fn lemma_viterbi_path_attains_score(self, obs: Seq<u8>)
        requires
            obs.len() >= 1,
        ensures
            ({
                let (t, s) = self.best_cell(obs);
                let best = self.best_path_into(obs, t, s);
                &&& 0 <= t < obs.len()
                &&& self.path_score(obs, best) == self.viterbi_score(obs)
                &&& forall|i: int| 0 <= i <= t ==> #[trigger] self.viterbi_path(obs)[i] as int == best[i]
                &&& forall|i: int| t <= i < obs.len() ==> #[trigger] self.viterbi_path(obs)[i] as int == s
            }),
    {
        self.lemma_best_cell_exists(obs);
        let (t, s) = self.best_cell(obs);
        self.lemma_best_path_attains(obs, t, s);
        assert forall|i: int| 0 <= i < obs.len() implies 0 <= #[trigger] self.path_state(obs, t, s, i) < 24 by {
            self.lemma_path_state_in_range(obs, t, s, i);
        }
    }

    /// Where the best cell lies in the last step, the decoded path is the
    /// best path into that cell, and no path over all the observations
    /// scores higher than it.
    pub proof fn lemma_last_step_optimal(self, obs: Seq<u8>, path: Seq<int>)
        requires
            obs.len() >= 1,
            self.best_cell(obs).0 == obs.len() - 1,
            path.len() == obs.len(),
            is_path(path),
        ensures
            ({
                let (t, s) = self.best_cell(obs);
                let best = self.best_path_into(obs, t, s);
                &&& best.len() == obs.len()
                &&& forall|i: int| 0 <= i < obs.len() ==> #[trigger] self.viterbi_path(obs)[i] as int == best[i]
                &&& self.path_score(obs, path).le(self.path_score(obs, best))
            }),
    {
        self.lemma_viterbi_path_attains_score(obs);
        self.lemma_viterbi_score_is_greatest(obs, path);
    }

    /// No transition weight is positive and no observation is emitted with a
    /// positive weight, as is so where the tables hold logarithms of
    /// probabilities.
    pub open spec fn nowhere_positive(self, obs: Seq<u8>) -> bool {
        &&& forall|p: int, s: int|
            0 <= p < 24 && 0 <= s < 24 ==> (#[trigger] self.trans[p][s])@.le(Ext::Fin(0))
        &&& forall|s: int, t: int|
            0 <= s < 24 && 0 <= t < obs.len() ==> (#[trigger] self.emit[s][obs[t] as int])@.le(
                Ext::Fin(0),
            )
    }

    /// With tables that are nowhere positive no cell of the trellis holds
    /// more than the greatest cell of step 0.
    pub proof fn lemma_scores_do_not_grow(self, obs: Seq<u8>, t: int, s: int)
        requires
            self.nowhere_positive(obs),
            0 <= t < obs.len(),
            0 <= s < 24,
        ensures
            self.column(obs, t)[s].le(max_of(self.column(obs, 0))),
        decreases t,
    {
        lemma_first_max_exists(self.column(obs, 0));
        if t > 0 {
            let cands = candidates(self.column(obs, t - 1), self.trans, s);
            lemma_first_max_exists(cands);
            let p = first_max(cands);
            self.lemma_scores_do_not_grow(obs, t - 1, p);
            assert(self.trans[p][s]@.le(Ext::Fin(0)));
            assert(self.emit[s][obs[t] as int]@.le(Ext::Fin(0)));
            assert(cands[p] == self.column(obs, t - 1)[p].plus(self.trans[p][s]@));
        }
    }

    /// With tables that are nowhere positive the best cell lies in step 0:
    /// the decoded path stays in the state whose start weight plus emission
    /// of the first observation is greatest, whatever is observed later.
    pub proof fn lemma_nowhere_positive_path(self, obs: Seq<u8>)
        requires
            self.nowhere_positive(obs),
            obs.len() >= 1,
        ensures
            self.best_cell(obs) == (0int, first_max(self.column(obs, 0))),
            forall|t: int|
                0 <= t < obs.len() ==> #[trigger] self.viterbi_path(obs)[t] as int == first_max(
                    self.column(obs, 0),
                ),
    {
        let first = self.column(obs, 0);
        lemma_first_max_exists(first);
        let s = first_max(first);
        assert forall|t1: int, s1: int|
            0 <= t1 && 0 <= s1 < 24 && (t1 < obs.len() || (t1 == obs.len() && s1 < 0)) implies ({
            &&& (#[trigger] self.column(obs, t1)[s1]).le(first[s])
            &&& (t1 < 0 || (t1 == 0 && s1 < s)) ==> self.column(obs, t1)[s1].lt(first[s])
        }) by {
            self.lemma_scores_do_not_grow(obs, t1, s1);
        }
        assert(self.is_best_cell(obs, 0, s));
        self.lemma_best_cell_unique(obs, 0, s);
        assert forall|t: int| 0 <= t < obs.len() implies #[trigger] self.viterbi_path(obs)[t] as int
            == s by {
            assert(self.path_state(obs, 0, s, t) == s);
        }
    }
}

} // verus!
