use vstd::prelude::*;
use crate::error::AnalyzerError;
use crate::tables::{
    create_emission_probabilities, create_transition_probabilities, emission_matrix,
    transition_matrix,
};
use crate::viterbi::{first_column, model_of, next_column, rows, scan_column, scores, Key, Model};
use crate::weight::{entry_bound, LogProb, LogScore, LOG_UNIFORM_START};

verus! {

/// A two-pass key estimator: four log-domain tables, fixed once built.
pub struct Analyzer {
    ep: Vec<Vec<LogProb>>,
    tp: Vec<Vec<LogProb>>,
    ntp: Vec<Vec<LogProb>>,
    sp: Vec<LogProb>,
}

/// The four tables of an analyzer, all in the log domain.
pub struct Tables {
    /// The start weight of each key.
    pub start: Seq<LogProb>,
    /// The weight of going from one key to another, indexed `[from][to]`.
    pub transition: Seq<Seq<LogProb>>,
    /// The transition matrix of the second pass.
    pub null_transition: Seq<Seq<LogProb>>,
    /// The weight with which a key emits a pitch class, indexed `[key][pitch class]`.
    pub emission: Seq<Seq<LogProb>>,
}

impl Tables {
    /// The tables built from a key-transition vector, the key-transition
    /// vector of the second pass, and a major and a minor profile, all given
    /// in the log domain. Every key starts with the weight of 1/24.
    pub open spec fn of(
        transitions: Seq<LogProb>,
        null_transitions: Seq<LogProb>,
        major: Seq<LogProb>,
        minor: Seq<LogProb>,
    ) -> Tables {
        Tables {
            start: Seq::new(24, |s: int| LogProb::Finite(LOG_UNIFORM_START)),
            transition: transition_matrix(transitions),
            null_transition: transition_matrix(null_transitions),
            emission: emission_matrix(major, minor),
        }
    }

    /// The model of the first pass: keys emit pitch classes.
    pub open spec fn local_model(self) -> Model {
        Model { start: self.start, trans: self.transition, emit: self.emission }
    }

    /// The model of the second pass: global keys emit local keys. The
    /// transition matrix serves as its emission matrix, and the null
    /// transition matrix lets the global key move freely.
    pub open spec fn global_model(self) -> Model {
        Model { start: self.start, trans: self.null_transition, emit: self.transition }
    }

    /// Both models are well formed, over 12 pitch classes and 24 local keys.
    pub open spec fn wf(self) -> bool {
        &&& self.local_model().wf()
        &&& self.local_model().alphabet() == 12
        &&& self.global_model().wf()
    }

    /// The local key at each observation: the path of the first pass.
    pub open spec fn local_keys(self, notes: Seq<u8>) -> Seq<u8> {
        self.local_model().viterbi_path(notes)
    }

    /// The global key: the first state of the second pass over the local keys.
    pub open spec fn global_key(self, notes: Seq<u8>) -> u8 {
        self.global_model().viterbi_path(self.local_keys(notes))[0]
    }
}

impl View for Analyzer {
    type V = Tables;

    closed spec fn view(&self) -> Tables {
        Tables {
            start: self.sp@,
            transition: rows(self.tp@),
            null_transition: rows(self.ntp@),
            emission: rows(self.ep@),
        }
    }
}

/// Built tables are well formed, whatever they are built from.
pub proof fn lemma_built_tables_wf(
    transitions: Seq<LogProb>,
    null_transitions: Seq<LogProb>,
    major: Seq<LogProb>,
    minor: Seq<LogProb>,
)
    ensures
        Tables::of(transitions, null_transitions, major, minor).wf(),
{
    let t = Tables::of(transitions, null_transitions, major, minor);
    assert(t.emission[0].len() == 12);
    assert(t.transition[0].len() == 24);
}

/// Building twice from the same four vectors gives the same tables, and so
/// the same key for every sequence of observations.
pub proof fn lemma_init_repeatable(
    a: Analyzer,
    b: Analyzer,
    transitions: Seq<LogProb>,
    null_transitions: Seq<LogProb>,
    major: Seq<LogProb>,
    minor: Seq<LogProb>,
)
    requires
        a@ == Tables::of(transitions, null_transitions, major, minor),
        b@ == Tables::of(transitions, null_transitions, major, minor),
    ensures
        a@ == b@,
        forall|notes: Seq<u8>| a@.global_key(notes) == b@.global_key(notes),
{
}

impl Analyzer {
    /// The tables hold two well-formed models.
    pub open spec fn wf(&self) -> bool {
        self@.wf()
    }

    /// The emission matrix, indexed `[key][pitch class]`.
    pub fn emission(&self) -> (res: &Vec<Vec<LogProb>>)
        ensures
            rows(res@) == self@.emission,
    {
        &self.ep
    }

    /// The transition matrix, indexed `[from][to]`.
    pub fn transition(&self) -> (res: &Vec<Vec<LogProb>>)
        ensures
            rows(res@) == self@.transition,
    {
        &self.tp
    }

    /// The transition matrix of the second pass.
    pub fn null_transition(&self) -> (res: &Vec<Vec<LogProb>>)
        ensures
            rows(res@) == self@.null_transition,
    {
        &self.ntp
    }

    /// The start weight of each key.
    pub fn start(&self) -> (res: &Vec<LogProb>)
        ensures
            res@ == self@.start,
    {
        &self.sp
    }

    /// Builds an analyzer from a key-transition vector of 24 weights, the
    /// key-transition vector of the second pass, and a major and a minor
    /// profile of 12 weights each. The weights are log-domain values: the
    /// caller takes the logarithm, once, before the tables are built.
    pub fn init(
        transitions: &Vec<LogProb>,
        null_transitions: &Vec<LogProb>,
        major_profile: &Vec<LogProb>,
        minor_profile: &Vec<LogProb>,
    ) -> (res: Result<Analyzer, AnalyzerError>)
        ensures
            transitions.len() == 24 && null_transitions.len() == 24 && major_profile.len() == 12
                && minor_profile.len() == 12 ==> (res matches Ok(a) && a.wf() && a@ == Tables::of(
                transitions@,
                null_transitions@,
                major_profile@,
                minor_profile@,
            )),
            transitions.len() != 24 || null_transitions.len() != 24 || major_profile.len() != 12
                || minor_profile.len() != 12 ==> (res matches Err(e) && e == AnalyzerError::Shape),
    {
        let tp = match create_transition_probabilities(transitions) {
            Ok(tp) => tp,
            Err(e) => {
                return Err(e);
            },
        };
        let ep = match create_emission_probabilities(major_profile, minor_profile) {
            Ok(ep) => ep,
            Err(e) => {
                return Err(e);
            },
        };
        let ntp = match create_transition_probabilities(null_transitions) {
            Ok(ntp) => ntp,
            Err(e) => {
                return Err(e);
            },
        };
        let mut sp: Vec<LogProb> = Vec::new();
        while sp.len() < 24
            invariant
                sp.len() <= 24,
                forall|s: int| 0 <= s < sp.len() ==> (#[trigger] sp@[s]) == LogProb::Finite(LOG_UNIFORM_START),
            decreases 24 - sp.len(),
        {
            sp.push(LogProb::Finite(LOG_UNIFORM_START));
        }
        let res = Analyzer { ep, tp, ntp, sp };
        proof {
            let built = Tables::of(transitions@, null_transitions@, major_profile@, minor_profile@);
            assert(res@.start =~= built.start);
            assert(res@ == built);
            lemma_built_tables_wf(transitions@, null_transitions@, major_profile@, minor_profile@);
        }
        Ok(res)
    }

    /// The global key of a non-empty sequence of pitch classes: the first
    /// pass decodes the local key at each observation, the second pass
    /// decodes the global keys behind the local keys, and the first of them
    /// is returned.
    pub fn analyze(&self, notes: &Vec<u8>) -> (res: Result<u8, AnalyzerError>)
        requires
            self.wf(),
            forall|i: int| 0 <= i < notes.len() ==> (#[trigger] notes@[i]) < 12,
        ensures
            notes.len() == 0 ==> res == Err::<u8, AnalyzerError>(AnalyzerError::EmptyObservation),
            notes.len() > 0 ==> res == Ok::<u8, AnalyzerError>(self@.global_key(notes@)),
            res matches Ok(key) ==> key < 24,
    {
        assert(model_of(&self.sp, &self.tp, &self.ep) == self@.local_model());
        assert(model_of(&self.sp, &self.ntp, &self.tp) == self@.global_model());
        let local_keys = match Analyzer::viterbi(notes, &self.sp, &self.tp, &self.ep) {
            Ok((path, _)) => path,
            Err(e) => {
                return Err(e);
            },
        };
        assert(self@.global_model().alphabet() == 24);
        match Analyzer::viterbi(&local_keys, &self.sp, &self.ntp, &self.tp) {
            Ok((path, _)) => Ok(path[0]),
            Err(e) => Err(e),
        }
    }

    /// The most likely sequence of keys behind a sequence of observations,
    /// and the greatest log-probability that any cell of the trellis holds.
    ///
    /// The path ends in the first cell that holds that greatest score and
    /// follows the best predecessors back from it; where that cell is not in
    /// the last step, the path stays in its state to the end.
    pub fn viterbi(
        notes: &Vec<u8>,
        sp: &Vec<LogProb>,
        tp: &Vec<Vec<LogProb>>,
        ep: &Vec<Vec<LogProb>>,
    ) -> (res: Result<(Vec<u8>, LogScore), AnalyzerError>)
        requires
            model_of(sp, tp, ep).wf(),
            model_of(sp, tp, ep).admits(notes@),
        ensures
            notes.len() == 0 ==> res == Err::<(Vec<u8>, LogScore), AnalyzerError>(
                AnalyzerError::EmptyObservation,
            ),
            notes.len() > 0 ==> res is Ok,
            res matches Ok((path, score)) ==> {
                &&& path@ == model_of(sp, tp, ep).viterbi_path(notes@)
                &&& score@ == model_of(sp, tp, ep).viterbi_score(notes@)
                &&& path.len() == notes.len()
                &&& forall|t: int| 0 <= t < path.len() ==> (#[trigger] path@[t]) < 24
            },
    {
        let ghost m = model_of(sp, tp, ep);
        let ghost obs = notes@;
        let n: usize = notes.len();
        if n == 0 {
            return Err(AnalyzerError::EmptyObservation);
        }
        let mut trellis: Vec<Vec<Key>> = Vec::new();
        trellis.push(first_column(sp, ep, notes[0], Ghost(m)));
        let mut best: (usize, u8, LogScore) = (0, 0, trellis[0][0].prob);
        assert(best.2@ == scores(trellis@[0]@)[0]);
        best = scan_column(&trellis[0], 0, 1, best, Ghost(m), Ghost(obs));
        let mut t: usize = 1;
        while t < n
            invariant
                m == model_of(sp, tp, ep),
                m.wf(),
                m.admits(obs),
                obs == notes@,
                n == notes.len(),
                1 <= t <= n,
                trellis.len() == t,
                forall|t1: int| 0 <= t1 < t ==> (#[trigger] trellis@[t1]).len() == 24,
                scores(trellis@[t - 1]@) == m.column(obs, t - 1),
                forall|p: int|
                    0 <= p < 24 ==> (#[trigger] trellis@[t - 1]@[p]).prob@.within(2 * t * entry_bound()),
                forall|t1: int, s: int|
                    1 <= t1 < t && 0 <= s < 24 ==> (#[trigger] trellis@[t1]@[s]).prev == m.back(obs, t1, s)
                        && trellis@[t1]@[s].prev < 24,
                m.is_best_before(obs, t as int, 0, best.0 as int, best.1 as int),
                best.2@ == m.column(obs, best.0 as int)[best.1 as int],
            decreases n - t,
        {
            let cur = next_column(
                &trellis[t - 1],
                tp,
                ep,
                notes[t],
                Ghost(m),
                Ghost(2 * t * entry_bound()),
            );
            best = scan_column(&cur, t, 0, best, Ghost(m), Ghost(obs));
            trellis.push(cur);
            t += 1;
        }
        let best_t: usize = best.0;
        let best_s: u8 = best.1;
        let mut path: Vec<u8> = Vec::new();
        while path.len() < n
            invariant
                best_s < 24,
                path.len() <= n,
                forall|i: int| 0 <= i < path.len() ==> (#[trigger] path@[i]) == best_s,
            decreases n - path.len(),
        {
            path.push(best_s);
        }
        let mut t: usize = best_t;
        while t > 0
            invariant
                t <= best_t < n,
                best_s < 24,
                path.len() == n,
                trellis.len() == n,
                forall|t1: int| 0 <= t1 < n ==> (#[trigger] trellis@[t1]).len() == 24,
                forall|t1: int, s: int|
                    1 <= t1 < n && 0 <= s < 24 ==> (#[trigger] trellis@[t1]@[s]).prev == m.back(obs, t1, s)
                        && trellis@[t1]@[s].prev < 24,
                forall|i: int| t <= i < n ==> (#[trigger] path@[i]) < 24,
                forall|i: int|
                    t <= i < n ==> (#[trigger] path@[i]) == m.path_state(obs, best_t as int, best_s as int, i),
            decreases t,
        {
            let cur: u8 = path[t];
            let p: u8 = trellis[t][cur as usize].prev;
            path.set(t - 1, p);
            t -= 1;
        }
        proof {
            m.lemma_best_cell_unique(obs, best_t as int, best_s as int);
            assert(path@ =~= m.viterbi_path(obs));
        }
        Ok((path, best.2))
    }
}

} // verus!
