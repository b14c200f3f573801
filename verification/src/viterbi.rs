use vstd::prelude::*;
use crate::weight::{entry_bound, lemma_plus_within, score_bound, Ext, LogProb, LogScore};

verus! {

/// The rows of a table held as a vector of vectors.
pub open spec fn rows<T>(m: Seq<Vec<T>>) -> Seq<Seq<T>> {
    Seq::new(m.len(), |i: int| m[i]@)
}

/// A cell of the trellis: the log-probability of the best path that ends in
/// a state at a step, and the state before it on that path.
#[derive(Clone, Copy, Debug, PartialEq, Eq)]
pub struct Key {
    pub prob: LogScore,
    pub prev: u8,
}

/// The scores of a column of cells.
pub open spec fn scores(col: Seq<Key>) -> Seq<Ext> {
    Seq::new(col.len(), |i: int| col[i].prob@)
}

/// `i` is the smallest index at which `v` takes its greatest value.
pub open spec fn is_first_max(v: Seq<Ext>, i: int) -> bool {
    &&& 0 <= i < v.len()
    &&& forall|j: int| 0 <= j < v.len() ==> (#[trigger] v[j]).le(v[i])
    &&& forall|j: int| 0 <= j < i ==> (#[trigger] v[j]).lt(v[i])
}

/// The smallest index at which a non-empty `v` takes its greatest value.
pub open spec fn first_max(v: Seq<Ext>) -> int {
    choose|i: int| is_first_max(v, i)
}

/// The greatest value of a non-empty `v`.
pub open spec fn max_of(v: Seq<Ext>) -> Ext {
    v[first_max(v)]
}

/// A sequence has at most one first maximum, so finding one finds `first_max`.
pub proof fn lemma_first_max_unique(v: Seq<Ext>, i: int)
    requires
        is_first_max(v, i),
    ensures
        first_max(v) == i,
{
    let j = first_max(v);
    assert(is_first_max(v, j));
    if j < i {
        assert(v[j].lt(v[i]));
        assert(v[i].le(v[j]));
    }
    if i < j {
        assert(v[i].lt(v[j]));
        assert(v[j].le(v[i]));
    }
}

/// Every non-empty sequence has a first maximum.
pub proof fn lemma_first_max_exists(v: Seq<Ext>)
    requires
        v.len() > 0,
    ensures
        is_first_max(v, first_max(v)),
    decreases v.len(),
{
    if v.len() == 1 {
        assert(is_first_max(v, 0));
    } else {
        let w = v.drop_last();
        lemma_first_max_exists(w);
        let i = first_max(w);
        assert forall|j: int| 0 <= j < w.len() implies #[trigger] v[j] == w[j] by {}
        if w[i].lt(v.last()) {
            let n = v.len() - 1;
            assert forall|j: int| 0 <= j < v.len() implies (#[trigger] v[j]).le(v[n]) by {
                if j < n {
                    assert(w[j].le(w[i]));
                }
            }
            assert forall|j: int| 0 <= j < n implies (#[trigger] v[j]).lt(v[n]) by {
                assert(w[j].le(w[i]));
            }
            assert(is_first_max(v, n));
        } else {
            assert forall|j: int| 0 <= j < v.len() implies (#[trigger] v[j]).le(v[i]) by {
                if j < w.len() {
                    assert(w[j].le(w[i]));
                }
            }
            assert forall|j: int| 0 <= j < i implies (#[trigger] v[j]).lt(v[i]) by {
                assert(w[j].lt(w[i]));
            }
            assert(is_first_max(v, i));
        }
    }
}

/// The score of reaching state `s` from each previous state, given the
/// scores `col` of the previous step.
pub open spec fn candidates(col: Seq<Ext>, trans: Seq<Seq<LogProb>>, s: int) -> Seq<Ext> {
    Seq::new(24, |p: int| col[p].plus(trans[p][s]@))
}

/// `(t, s)` comes before `(t2, s2)` when the cells are read step by step and,
/// within a step, state by state.
pub open spec fn precedes(t: int, s: int, t2: int, s2: int) -> bool {
    t < t2 || (t == t2 && s < s2)
}

/// A hidden Markov model over the 24 keys with log-domain tables: a start
/// vector, a transition matrix indexed `[from][to]` and an emission matrix
/// indexed `[key][symbol]`.
pub struct Model {
    pub start: Seq<LogProb>,
    pub trans: Seq<Seq<LogProb>>,
    pub emit: Seq<Seq<LogProb>>,
}

impl Model {
    /// The number of symbols that an observation can take.
    pub open spec fn alphabet(self) -> nat {
        self.emit[0].len()
    }

    /// The tables have 24 rows, the transition rows 24 entries, and the
    /// emission rows one entry per symbol.
    pub open spec fn wf(self) -> bool {
        &&& self.start.len() == 24
        &&& self.trans.len() == 24
        &&& forall|k: int| 0 <= k < 24 ==> (#[trigger] self.trans[k]).len() == 24
        &&& self.emit.len() == 24
        &&& forall|k: int| 0 <= k < 24 ==> (#[trigger] self.emit[k]).len() == self.alphabet()
    }

    /// Every observation is a symbol of the model.
    pub open spec fn admits(self, obs: Seq<u8>) -> bool {
        forall|t: int| 0 <= t < obs.len() ==> (#[trigger] obs[t]) < self.alphabet()
    }

    /// The scores of step 0: start weight plus emission of the first observation.
    pub open spec fn first_column(self, o: int) -> Seq<Ext> {
        Seq::new(24, |s: int| self.start[s]@.plus(self.emit[s][o]@))
    }

    /// The scores of a step from those of the step before it: for each state
    /// the best way to reach it, plus the emission of the observation `o`.
    pub open spec fn next_column(self, col: Seq<Ext>, o: int) -> Seq<Ext> {
        Seq::new(24, |s: int| max_of(candidates(col, self.trans, s)).plus(self.emit[s][o]@))
    }

    /// The trellis column of step `t`: for each state the log-probability of
    /// the best path that ends in it at that step.
    pub open spec fn column(self, obs: Seq<u8>, t: int) -> Seq<Ext>
        decreases t,
    {
        if t <= 0 {
            self.first_column(obs[0] as int)
        } else {
            self.next_column(self.column(obs, t - 1), obs[t] as int)
        }
    }

    /// The best predecessor of state `s` at step `t >= 1`; of several equally
    /// good ones the smallest.
    pub open spec fn back(self, obs: Seq<u8>, t: int, s: int) -> int {
        first_max(candidates(self.column(obs, t - 1), self.trans, s))
    }

    /// Among the cells before `(t_end, s_end)`, `(t, s)` holds the greatest
    /// score, and is the first that does.
    pub open spec fn is_best_before(self, obs: Seq<u8>, t_end: int, s_end: int, t: int, s: int) -> bool {
        &&& 0 <= t
        &&& 0 <= s < 24
        &&& precedes(t, s, t_end, s_end)
        &&& forall|t1: int, s1: int|
            0 <= t1 && 0 <= s1 < 24 && precedes(t1, s1, t_end, s_end) ==> {
                &&& (#[trigger] self.column(obs, t1)[s1]).le(self.column(obs, t)[s])
                &&& precedes(t1, s1, t, s) ==> self.column(obs, t1)[s1].lt(self.column(obs, t)[s])
            }
    }

    /// Among all cells of the trellis, `(t, s)` holds the greatest score, and
    /// is the first that does.
    pub open spec fn is_best_cell(self, obs: Seq<u8>, t: int, s: int) -> bool {
        self.is_best_before(obs, obs.len() as int, 0, t, s)
    }

    /// The first cell that holds the greatest score of the trellis.
    pub open spec fn best_cell(self, obs: Seq<u8>) -> (int, int) {
        choose|t: int, s: int| self.is_best_cell(obs, t, s)
    }

    /// The state at step `t` of the path that ends in state `s_end` at step
    /// `t_end`: before `t_end` the best predecessor of the next state, from
    /// `t_end` on `s_end` itself.
    pub open spec fn path_state(self, obs: Seq<u8>, t_end: int, s_end: int, t: int) -> int
        decreases t_end - t,
    {
        if t >= t_end {
            s_end
        } else {
            self.back(obs, t + 1, self.path_state(obs, t_end, s_end, t + 1))
        }
    }

    /// The decoded path: one state per observation, ending in the best cell.
    pub open spec fn viterbi_path(self, obs: Seq<u8>) -> Seq<u8> {
        let (t_end, s_end) = self.best_cell(obs);
        Seq::new(obs.len(), |t: int| self.path_state(obs, t_end, s_end, t) as u8)
    }

    /// The greatest score of the trellis.
    pub open spec fn viterbi_score(self, obs: Seq<u8>) -> Ext {
        let (t_end, s_end) = self.best_cell(obs);
        self.column(obs, t_end)[s_end]
    }

    /// With a single observation the path is the one state whose start
    /// weight plus emission is greatest, the first of several, and the score
    /// is that greatest sum.
    pub proof fn lemma_single_observation(self, obs: Seq<u8>)
        requires
            obs.len() == 1,
        ensures
            0 <= first_max(self.first_column(obs[0] as int)) < 24,
            self.viterbi_path(obs) == seq![first_max(self.first_column(obs[0] as int)) as u8],
            self.viterbi_score(obs) == max_of(self.first_column(obs[0] as int)),
    {
        let col = self.first_column(obs[0] as int);
        lemma_first_max_exists(col);
        let i = first_max(col);
        assert(self.column(obs, 0) == col);
        assert(self.is_best_cell(obs, 0, i));
        self.lemma_best_cell_unique(obs, 0, i);
        assert(self.path_state(obs, 0, i, 0) == i);
        assert(self.viterbi_path(obs) =~= seq![i as u8]);
    }

    /// A trellis has at most one best cell, so finding one finds `best_cell`.
    pub proof fn lemma_best_cell_unique(self, obs: Seq<u8>, t: int, s: int)
        requires
            self.is_best_cell(obs, t, s),
        ensures
            self.best_cell(obs) == (t, s),
    {
        let (t2, s2) = self.best_cell(obs);
        assert(self.is_best_cell(obs, t2, s2));
        let a = self.column(obs, t)[s];
        let b = self.column(obs, t2)[s2];
        if precedes(t, s, t2, s2) {
            assert(a.lt(b));
            assert(b.le(a));
        }
        if precedes(t2, s2, t, s) {
            assert(b.lt(a));
            assert(a.le(b));
        }
    }
}

/// The model that three tables stand for.
pub open spec fn model_of(sp: &Vec<LogProb>, tp: &Vec<Vec<LogProb>>, ep: &Vec<Vec<LogProb>>) -> Model {
    Model { start: sp@, trans: rows(tp@), emit: rows(ep@) }
}

/// The column of step 0. Its cells have no predecessor: `prev` is 0.
pub(crate) fn first_column(sp: &Vec<LogProb>, ep: &Vec<Vec<LogProb>>, o: u8, Ghost(m): Ghost<Model>) -> (col: Vec<Key>)
    requires
        m.wf(),
        m.start == sp@,
        m.emit == rows(ep@),
        o < m.alphabet(),
    ensures
        col.len() == 24,
        scores(col@) == m.first_column(o as int),
        forall|s: int| 0 <= s < 24 ==> (#[trigger] col@[s]).prob@.within(2 * entry_bound()),
{
    let mut col: Vec<Key> = Vec::new();
    let mut s: usize = 0;
    while s < 24
        invariant
            m.wf(),
            m.start == sp@,
            m.emit == rows(ep@),
            o < m.alphabet(),
            s <= 24,
            col.len() == s,
            forall|i: int| 0 <= i < s ==> (#[trigger] col@[i]).prob@ == m.first_column(o as int)[i],
            forall|i: int| 0 <= i < s ==> (#[trigger] col@[i]).prob@.within(2 * entry_bound()),
        decreases 24 - s,
    {
        assert(m.emit[s as int] == ep@[s as int]@);
        let e = ep[s][o as usize];
        let v = LogScore::of(sp[s]).plus(e);
        proof {
            lemma_plus_within(sp@[s as int]@, e, entry_bound());
        }
        col.push(Key { prob: v, prev: 0 });
        s += 1;
    }
    assert(scores(col@) =~= m.first_column(o as int));
    col
}

/// The best predecessor of state `s` and the score of coming from it.
fn best_predecessor(prev: &Vec<Key>, tp: &Vec<Vec<LogProb>>, s: usize, Ghost(m): Ghost<Model>) -> (res: Key)
    requires
        m.wf(),
        m.trans == rows(tp@),
        prev.len() == 24,
        s < 24,
        forall|p: int| 0 <= p < 24 ==> (#[trigger] prev@[p]).prob@.within(score_bound()),
    ensures
        res.prev < 24,
        res.prev == first_max(candidates(scores(prev@), m.trans, s as int)),
        res.prob@ == max_of(candidates(scores(prev@), m.trans, s as int)),
        res.prob@ == prev@[res.prev as int].prob@.plus(m.trans[res.prev as int][s as int]@),
{
    let ghost cands = candidates(scores(prev@), m.trans, s as int);
    assert(m.trans[0] == tp@[0]@);
    let mut best: u8 = 0;
    let mut best_score = prev[0].prob.plus(tp[0][s]);
    let mut p: usize = 1;
    while p < 24
        invariant
            m.wf(),
            m.trans == rows(tp@),
            prev.len() == 24,
            s < 24,
            forall|q: int| 0 <= q < 24 ==> (#[trigger] prev@[q]).prob@.within(score_bound()),
            cands == candidates(scores(prev@), m.trans, s as int),
            1 <= p <= 24,
            best < p,
            best_score@ == cands[best as int],
            is_first_max(cands.take(p as int), best as int),
        decreases 24 - p,
    {
        assert(m.trans[p as int] == tp@[p as int]@);
        let c = prev[p].prob.plus(tp[p][s]);
        assert(c@ == cands[p as int]);
        let ghost before = cands.take(p as int);
        let ghost after = cands.take(p as int + 1);
        if c.exceeds(best_score) {
            assert forall|j: int| 0 <= j < after.len() implies (#[trigger] after[j]).le(after[p as int]) by {
                if j < p {
                    assert(before[j].le(before[best as int]));
                }
            }
            assert forall|j: int| 0 <= j < p implies (#[trigger] after[j]).lt(after[p as int]) by {
                assert(before[j].le(before[best as int]));
            }
            best = p as u8;
            best_score = c;
        } else {
            assert forall|j: int| 0 <= j < after.len() implies (#[trigger] after[j]).le(after[best as int]) by {
                if j < p {
                    assert(before[j].le(before[best as int]));
                }
            }
            assert forall|j: int| 0 <= j < best implies (#[trigger] after[j]).lt(after[best as int]) by {
                assert(before[j].lt(before[best as int]));
            }
        }
        p += 1;
    }
    proof {
        assert(cands.take(24) =~= cands);
        lemma_first_max_unique(cands, best as int);
    }
    Key { prob: best_score, prev: best }
}

/// The column of a step from the column of the step before: each cell with
/// its score and the best predecessor of its state.
pub(crate) fn next_column(prev: &Vec<Key>, tp: &Vec<Vec<LogProb>>, ep: &Vec<Vec<LogProb>>, o: u8, Ghost(m): Ghost<Model>, Ghost(bound): Ghost<int>) -> (col: Vec<Key>)
    requires
        m.wf(),
        m.trans == rows(tp@),
        m.emit == rows(ep@),
        o < m.alphabet(),
        prev.len() == 24,
        0 <= bound <= score_bound() - 2 * entry_bound(),
        forall|p: int| 0 <= p < 24 ==> (#[trigger] prev@[p]).prob@.within(bound),
    ensures
        col.len() == 24,
        scores(col@) == m.next_column(scores(prev@), o as int),
        forall|s: int| 0 <= s < 24 ==> (#[trigger] col@[s]).prob@.within(bound + 2 * entry_bound()),
        forall|s: int| 0 <= s < 24 ==> (#[trigger] col@[s]).prev < 24,
        forall|s: int| 0 <= s < 24 ==> (#[trigger] col@[s]).prev == first_max(candidates(scores(prev@), m.trans, s)),
{
    let mut col: Vec<Key> = Vec::new();
    let mut s: usize = 0;
    while s < 24
        invariant
            m.wf(),
            m.trans == rows(tp@),
            m.emit == rows(ep@),
            o < m.alphabet(),
            prev.len() == 24,
            0 <= bound <= score_bound() - 2 * entry_bound(),
            forall|p: int| 0 <= p < 24 ==> (#[trigger] prev@[p]).prob@.within(bound),
            s <= 24,
            col.len() == s,
            forall|i: int| 0 <= i < s ==> (#[trigger] col@[i]).prob@ == m.next_column(scores(prev@), o as int)[i],
            forall|i: int| 0 <= i < s ==> (#[trigger] col@[i]).prob@.within(bound + 2 * entry_bound()),
            forall|i: int| 0 <= i < s ==> (#[trigger] col@[i]).prev < 24,
            forall|i: int| 0 <= i < s ==> (#[trigger] col@[i]).prev == first_max(candidates(scores(prev@), m.trans, i)),
        decreases 24 - s,
    {
        assert forall|p: int| 0 <= p < 24 implies (#[trigger] prev@[p]).prob@.within(score_bound()) by {
            assert(prev@[p].prob@.within(bound));
        }
        let reach = best_predecessor(prev, tp, s, Ghost(m));
        assert(m.emit[s as int] == ep@[s as int]@);
        let e = ep[s][o as usize];
        proof {
            assert(prev@[reach.prev as int].prob@.within(bound));
            lemma_plus_within(prev@[reach.prev as int].prob@, tp@[reach.prev as int]@[s as int], bound);
            lemma_plus_within(reach.prob@, e, bound + entry_bound());
        }
        col.push(Key { prob: reach.prob.plus(e), prev: reach.prev });
        s += 1;
    }
    assert(scores(col@) =~= m.next_column(scores(prev@), o as int));
    col
}

/// Reads the column of step `t` from state `from_s` on and moves the best
/// cell to the first cell of it that beats the best one so far.
pub(crate) fn scan_column(
    col: &Vec<Key>,
    t: usize,
    from_s: usize,
    best: (usize, u8, LogScore),
    Ghost(m): Ghost<Model>,
    Ghost(obs): Ghost<Seq<u8>>,
) -> (res: (usize, u8, LogScore))
    requires
        col.len() == 24,
        from_s <= 24,
        scores(col@) == m.column(obs, t as int),
        m.is_best_before(obs, t as int, from_s as int, best.0 as int, best.1 as int),
        best.2@ == m.column(obs, best.0 as int)[best.1 as int],
    ensures
        m.is_best_before(obs, t as int + 1, 0, res.0 as int, res.1 as int),
        res.2@ == m.column(obs, res.0 as int)[res.1 as int],
{
    let mut best_t: usize = best.0;
    let mut best_s: u8 = best.1;
    let mut best_score: LogScore = best.2;
    let mut s: usize = from_s;
    while s < 24
        invariant
            col.len() == 24,
            s <= 24,
            scores(col@) == m.column(obs, t as int),
            m.is_best_before(obs, t as int, s as int, best_t as int, best_s as int),
            best_score@ == m.column(obs, best_t as int)[best_s as int],
        decreases 24 - s,
    {
        let c = col[s].prob;
        assert(c@ == scores(col@)[s as int]);
        if c.exceeds(best_score) {
            best_t = t;
            best_s = s as u8;
            best_score = c;
        }
        s += 1;
    }
    (best_t, best_s, best_score)
}

} // verus!
