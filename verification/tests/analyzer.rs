use keyfinder::analyze::Analyzer;
use keyfinder::error::AnalyzerError;
use keyfinder::tables::{create_emission_probabilities, create_transition_probabilities};
use keyfinder::weight::{LogProb, LogScore, LOG_UNIFORM_START, UNITS_PER_NAT};

fn log_weight(x: f64) -> LogProb {
    if x > 0.0 {
        LogProb::Finite((x.ln() * 1.0e6).round() as i32)
    } else {
        LogProb::NegInf
    }
}

fn log_weights(v: &[f64]) -> Vec<LogProb> {
    v.iter().map(|x| log_weight(*x)).collect()
}

fn dirac(n: usize) -> Vec<LogProb> {
    let mut v = vec![0.0; n];
    v[0] = 1.0;
    log_weights(&v)
}

fn uniform_null() -> Vec<LogProb> {
    log_weights(&[1.0 / 24.0; 24])
}

fn dirac_analyzer() -> Analyzer {
    Analyzer::init(&dirac(24), &uniform_null(), &dirac(12), &dirac(12)).unwrap()
}

fn sapp_major() -> Vec<LogProb> {
    log_weights(&[0.222, 0.0, 0.111, 0.0, 0.111, 0.111, 0.0, 0.222, 0.0, 0.111, 0.0, 0.111])
}

fn sapp_minor() -> Vec<LogProb> {
    log_weights(&[0.222, 0.0, 0.111, 0.111, 0.0, 0.111, 0.0, 0.222, 0.111, 0.0, 0.056, 0.056])
}

/// Weights that fall by a factor of ten with each step on the circle of fifths.
fn exponential_transitions() -> Vec<LogProb> {
    let steps = [0, 5, 2, 3, 4, 1, 6, 1, 4, 3, 2, 5];
    let mut v: Vec<f64> = Vec::new();
    for half in 0..2 {
        for interval in 0..12 {
            let distance = steps[interval] + half;
            v.push(0.5 * 10f64.powi(-(distance as i32)));
        }
    }
    log_weights(&v)
}

fn value(w: LogProb) -> Option<i64> {
    match w {
        LogProb::NegInf => None,
        LogProb::Finite(v) => Some(v as i64),
    }
}

fn plus(a: Option<i64>, b: Option<i64>) -> Option<i64> {
    match (a, b) {
        (Some(a), Some(b)) => Some(a + b),
        _ => None,
    }
}

fn as_score(a: Option<i64>) -> LogScore {
    match a {
        Some(a) => LogScore::Finite(a as i128),
        None => LogScore::NegInf,
    }
}

fn first_max(v: &[Option<i64>]) -> usize {
    let mut best = 0;
    for i in 1..v.len() {
        if v[i] > v[best] {
            best = i;
        }
    }
    best
}

/// Tables of finite weights from a fixed sequence of numbers in `[low, low + span)`.
fn scrambled(rows: usize, columns: usize, seed: u64, low: i32, span: u64) -> Vec<Vec<LogProb>> {
    let mut state = seed;
    let mut table = Vec::new();
    for _ in 0..rows {
        let mut row = Vec::new();
        for _ in 0..columns {
            state = state.wrapping_mul(6364136223846793005).wrapping_add(1442695040888963407);
            row.push(LogProb::Finite(low + ((state >> 33) % span) as i32));
        }
        table.push(row);
    }
    table
}

/// The joint log-probability of each of the 24 paths over the first
/// observation, and of each of the 576 paths over both, by `[s0 * 24 + s1]`.
fn all_paths(
    sp: &Vec<LogProb>,
    tp: &Vec<Vec<LogProb>>,
    ep: &Vec<Vec<LogProb>>,
    obs: [u8; 2],
) -> (Vec<Option<i64>>, Vec<Option<i64>>) {
    let mut one: Vec<Option<i64>> = Vec::new();
    let mut two: Vec<Option<i64>> = Vec::new();
    for s0 in 0..24 {
        let first = plus(value(sp[s0]), value(ep[s0][obs[0] as usize]));
        one.push(first);
        for s1 in 0..24 {
            let step = plus(first, value(tp[s0][s1]));
            two.push(plus(step, value(ep[s1][obs[1] as usize])));
        }
    }
    (one, two)
}

fn scrambled_tables(low: i32, seed: u64) -> (Vec<LogProb>, Vec<Vec<LogProb>>, Vec<Vec<LogProb>>) {
    (
        scrambled(1, 24, seed, low, 1000).remove(0),
        scrambled(24, 24, seed + 1, low, 1000),
        scrambled(24, 12, seed + 2, low, 1000),
    )
}

#[test]
fn fixed_point_constants() {
    assert_eq!(UNITS_PER_NAT, 1_000_000);
    assert_eq!(LOG_UNIFORM_START, -3_178_054);
    assert_eq!(log_weight(1.0 / 24.0), LogProb::Finite(LOG_UNIFORM_START));
}

#[test]
fn score_arithmetic() {
    assert_eq!(LogScore::of(LogProb::Finite(5)), LogScore::Finite(5));
    assert_eq!(LogScore::of(LogProb::NegInf), LogScore::NegInf);
    assert_eq!(LogScore::Finite(5).plus(LogProb::Finite(-7)), LogScore::Finite(-2));
    assert_eq!(LogScore::Finite(5).plus(LogProb::NegInf), LogScore::NegInf);
    assert_eq!(LogScore::NegInf.plus(LogProb::Finite(3)), LogScore::NegInf);
    assert_eq!(
        LogScore::Finite(1i128 << 100).plus(LogProb::Finite(i32::MAX)),
        LogScore::Finite((1i128 << 100) + i32::MAX as i128)
    );
    assert!(LogScore::Finite(-1).exceeds(LogScore::Finite(-2)));
    assert!(!LogScore::Finite(-2).exceeds(LogScore::Finite(-2)));
    assert!(LogScore::Finite(i128::MIN).exceeds(LogScore::NegInf));
    assert!(!LogScore::NegInf.exceeds(LogScore::NegInf));
    assert!(!LogScore::NegInf.exceeds(LogScore::Finite(0)));
}

#[test]
fn error_messages() {
    assert_eq!(AnalyzerError::Shape.message(), "a profile needs 12 entries and a transition vector 24");
    assert_eq!(AnalyzerError::EmptyObservation.message(), "the observation sequence is empty");
}

#[test]
fn init_builds_the_four_tables() {
    let transitions = exponential_transitions();
    let a = Analyzer::init(&transitions, &uniform_null(), &sapp_major(), &sapp_minor()).unwrap();
    assert_eq!(a.start(), &vec![LogProb::Finite(-3_178_054); 24]);
    assert_eq!(a.transition(), &create_transition_probabilities(&transitions).unwrap());
    assert_eq!(a.null_transition(), &vec![vec![LogProb::Finite(-3_178_054); 24]; 24]);
    assert_eq!(a.emission(), &create_emission_probabilities(&sapp_major(), &sapp_minor()).unwrap());
    assert_eq!(a.emission()[0][0], LogProb::Finite(-1_505_078));
    assert_eq!(a.emission()[0][1], LogProb::NegInf);
    assert_eq!(a.emission()[7][7], LogProb::Finite(-1_505_078));
}

#[test]
fn init_twice_gives_the_same_tables() {
    let a = Analyzer::init(&exponential_transitions(), &uniform_null(), &sapp_major(), &sapp_minor()).unwrap();
    let b = Analyzer::init(&exponential_transitions(), &uniform_null(), &sapp_major(), &sapp_minor()).unwrap();
    assert_eq!(a.start(), b.start());
    assert_eq!(a.transition(), b.transition());
    assert_eq!(a.null_transition(), b.null_transition());
    assert_eq!(a.emission(), b.emission());
}

#[test]
fn init_rejects_profile_of_length_11() {
    let short = vec![LogProb::Finite(0); 11];
    assert_eq!(Analyzer::init(&dirac(24), &uniform_null(), &short, &dirac(12)).err(), Some(AnalyzerError::Shape));
    assert_eq!(Analyzer::init(&dirac(24), &uniform_null(), &dirac(12), &short).err(), Some(AnalyzerError::Shape));
}

#[test]
fn init_rejects_transitions_of_wrong_length() {
    assert_eq!(Analyzer::init(&dirac(23), &uniform_null(), &dirac(12), &dirac(12)).err(), Some(AnalyzerError::Shape));
    assert_eq!(Analyzer::init(&dirac(24), &dirac(25), &dirac(12), &dirac(12)).err(), Some(AnalyzerError::Shape));
}

#[test]
fn empty_observation_is_rejected() {
    let a = dirac_analyzer();
    assert_eq!(a.analyze(&Vec::new()), Err(AnalyzerError::EmptyObservation));
    assert_eq!(
        Analyzer::viterbi(&Vec::new(), a.start(), a.transition(), a.emission()),
        Err(AnalyzerError::EmptyObservation)
    );
}

#[test]
fn single_c_is_c_major() {
    assert_eq!(dirac_analyzer().analyze(&vec![0]), Ok(0));
}

#[test]
fn four_g_are_g_major() {
    let a = dirac_analyzer();
    let (local, score) = Analyzer::viterbi(&vec![7, 7, 7, 7], a.start(), a.transition(), a.emission()).unwrap();
    assert_eq!(local, vec![7, 7, 7, 7]);
    assert_eq!(score, LogScore::Finite(-3_178_054));
    let (global, _) = Analyzer::viterbi(&local, a.start(), a.null_transition(), a.transition()).unwrap();
    assert_eq!(global, vec![7, 7, 7, 7]);
    assert_eq!(a.analyze(&vec![7, 7, 7, 7]), Ok(7));
}

#[test]
fn c_major_triad_with_sapp_profiles_is_c_major() {
    let a = Analyzer::init(&exponential_transitions(), &uniform_null(), &sapp_major(), &sapp_minor()).unwrap();
    assert_eq!(a.analyze(&vec![0, 4, 7]), Ok(0));
}

#[test]
fn single_observation_takes_the_first_best_state() {
    let sp = scrambled(1, 24, 11, -5000, 1000).remove(0);
    let tp = scrambled(24, 24, 12, -5000, 1000);
    let ep = scrambled(24, 12, 13, -5000, 1000);
    for o in 0..12u8 {
        let column: Vec<Option<i64>> =
            (0..24).map(|s| plus(value(sp[s]), value(ep[s][o as usize]))).collect();
        let best = first_max(&column);
        let (path, score) = Analyzer::viterbi(&vec![o], &sp, &tp, &ep).unwrap();
        assert_eq!(path, vec![best as u8]);
        assert_eq!(score, as_score(column[best]));
    }
}

#[test]
fn single_observation_with_equal_states_takes_the_smallest() {
    let sp = vec![LogProb::Finite(-10); 24];
    let tp = vec![vec![LogProb::Finite(-1); 24]; 24];
    let mut ep = vec![vec![LogProb::Finite(-7); 12]; 24];
    ep[5][3] = LogProb::Finite(-2);
    ep[9][3] = LogProb::Finite(-2);
    let (path, score) = Analyzer::viterbi(&vec![3], &sp, &tp, &ep).unwrap();
    assert_eq!(path, vec![5]);
    assert_eq!(score, LogScore::Finite(-12));
}

#[test]
fn two_observations_with_positive_weights_give_the_best_of_all_paths() {
    for seed in 0..20u64 {
        let obs = [3, (seed % 12) as u8];
        let (sp, tp, ep) = scrambled_tables(1, 300 + seed);
        let (one, two) = all_paths(&sp, &tp, &ep, obs);
        let best = *two.iter().max().unwrap();
        assert!(one.iter().all(|score| *score < best));
        let (path, score) = Analyzer::viterbi(&obs.to_vec(), &sp, &tp, &ep).unwrap();
        assert_eq!(score, as_score(best));
        assert_eq!(path.len(), 2);
        assert_eq!(two[path[0] as usize * 24 + path[1] as usize], best);
        // Of several best paths the one with the smallest last state, and
        // then the smallest first state, is taken.
        for s0 in 0..24 {
            for s1 in 0..24 {
                if two[s0 * 24 + s1] == best {
                    assert!((path[1] as usize, path[0] as usize) <= (s1, s0));
                }
            }
        }
    }
}

#[test]
fn two_observations_with_negative_weights_end_in_the_first_step() {
    for seed in 0..20u64 {
        let obs = [(seed % 12) as u8, 11];
        let (sp, tp, ep) = scrambled_tables(-5000, 100 + seed);
        let (one, two) = all_paths(&sp, &tp, &ep, obs);
        let best = first_max(&one);
        assert!(two.iter().all(|score| *score < one[best]));
        let (path, score) = Analyzer::viterbi(&obs.to_vec(), &sp, &tp, &ep).unwrap();
        assert_eq!(score, as_score(one[best]));
        assert_eq!(path, vec![best as u8, best as u8]);
    }
}

#[test]
fn best_cell_in_the_first_step_stops_the_path_there() {
    // The best path over both observations is 5, 5; the greatest cell is
    // key 4 at the first step, and the path stays there.
    let mut sp = vec![LogProb::Finite(-3000); 24];
    sp[4] = LogProb::Finite(-1);
    sp[5] = LogProb::Finite(-2);
    let mut tp = vec![vec![LogProb::Finite(-1); 24]; 24];
    tp[4] = vec![LogProb::Finite(-1000); 24];
    let ep = vec![vec![LogProb::Finite(0); 12]; 24];
    let (one, two) = all_paths(&sp, &tp, &ep, [0, 0]);
    assert_eq!(first_max(&two), 5 * 24);
    assert_eq!(two[5 * 24], Some(-3));
    assert_eq!(first_max(&one), 4);
    let (path, score) = Analyzer::viterbi(&vec![0, 0], &sp, &tp, &ep).unwrap();
    assert_eq!(path, vec![4, 4]);
    assert_eq!(score, LogScore::Finite(-1));
}

#[test]
fn path_follows_best_predecessors_back_from_the_best_cell() {
    // Two states matter: the best cell is state 2 at the last step, and its
    // best predecessor at each step is state 1.
    let mut sp = vec![LogProb::Finite(-100); 24];
    sp[1] = LogProb::Finite(0);
    let mut tp = vec![vec![LogProb::Finite(-100); 24]; 24];
    tp[1][1] = LogProb::Finite(1);
    tp[1][2] = LogProb::Finite(5);
    let ep = vec![vec![LogProb::Finite(0); 12]; 24];
    let (path, score) = Analyzer::viterbi(&vec![0, 0, 0, 0], &sp, &tp, &ep).unwrap();
    assert_eq!(path, vec![1, 1, 1, 2]);
    assert_eq!(score, LogScore::Finite(7));
}

#[test]
fn path_stays_in_the_best_state_after_the_best_cell() {
    let mut sp = vec![LogProb::Finite(-100); 24];
    sp[4] = LogProb::Finite(-1);
    let tp = vec![vec![LogProb::Finite(-3); 24]; 24];
    let ep = vec![vec![LogProb::Finite(-2); 12]; 24];
    let (path, score) = Analyzer::viterbi(&vec![1, 2, 3], &sp, &tp, &ep).unwrap();
    assert_eq!(path, vec![4, 4, 4]);
    assert_eq!(score, LogScore::Finite(-3));
}

#[test]
fn path_has_one_key_per_observation() {
    let a = Analyzer::init(&exponential_transitions(), &uniform_null(), &sapp_major(), &sapp_minor()).unwrap();
    for n in 1..40usize {
        let notes: Vec<u8> = (0..n).map(|i| ((i * 7 + n) % 12) as u8).collect();
        let (path, _) = Analyzer::viterbi(&notes, a.start(), a.transition(), a.emission()).unwrap();
        assert_eq!(path.len(), n);
        assert!(path.iter().all(|k| *k < 24));
        let key = a.analyze(&notes).unwrap();
        assert!(key < 24);
    }
}

#[test]
fn all_zero_profiles_give_infinite_scores_and_a_fixed_path() {
    let zero = vec![LogProb::NegInf; 12];
    let a = Analyzer::init(&exponential_transitions(), &uniform_null(), &zero, &zero).unwrap();
    for row in a.emission().iter() {
        assert!(row.iter().all(|w| *w == LogProb::NegInf));
    }
    let notes = vec![0, 4, 7];
    let (path, score) = Analyzer::viterbi(&notes, a.start(), a.transition(), a.emission()).unwrap();
    assert_eq!(score, LogScore::NegInf);
    assert_eq!(path, vec![0, 0, 0]);
    let again = Analyzer::viterbi(&notes, a.start(), a.transition(), a.emission()).unwrap();
    assert_eq!(again, (path, score));
    assert_eq!(a.analyze(&notes), a.analyze(&notes));
}

#[test]
fn long_sequences_do_not_overflow() {
    let sp = vec![LogProb::Finite(i32::MIN); 24];
    let tp = vec![vec![LogProb::Finite(i32::MIN); 24]; 24];
    let ep = vec![vec![LogProb::Finite(i32::MIN); 12]; 24];
    let notes = vec![0u8; 3000];
    let (path, score) = Analyzer::viterbi(&notes, &sp, &tp, &ep).unwrap();
    assert_eq!(path, vec![0u8; 3000]);
    assert_eq!(score, LogScore::Finite(2 * (i32::MIN as i128)));
}
