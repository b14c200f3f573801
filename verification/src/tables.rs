use vstd::prelude::*;
use crate::error::AnalyzerError;
use crate::viterbi::rows;
use crate::weight::{LogProb, LOG_UNIFORM_START};

verus! {

/// The interval in semitones by which the minor targets of a major key are
/// shifted: the minor third between a major key and its relative minor.
pub const MINOR_OFFSET: usize = 3;

/// `v` turned right by `r` places: the entry at `i` moves to `i + r`, modulo the length.
pub open spec fn rotate_right<T>(v: Seq<T>, r: int) -> Seq<T> {
    Seq::new(v.len(), |i: int| v[(i - r) % (v.len() as int)])
}

/// The weight with which key `k` emits pitch class `p`: the profile of the
/// key's mode, read at the interval of `p` above the key's tonic.
pub open spec fn emission_entry<T>(major: Seq<T>, minor: Seq<T>, k: int, p: int) -> T {
    let base = if k < 12 { major } else { minor };
    base[(p - k % 12) % 12]
}

/// The interval of pitch class `p` above the tonic of key `k`.
fn interval_above_tonic(k: usize, p: usize) -> (d: usize)
    requires
        k < 24,
        p < 12,
    ensures
        d < 12,
        d == (p - k % 12) % 12,
{
    let r: usize = if k < 12 { k } else { k - 12 };
    let x: usize = p + 12 - r;
    let d: usize = if x >= 12 { x - 12 } else { x };
    proof {
        lemma_remainder(k as int, r as int, if k < 12 { 0 } else { 1 });
        lemma_remainder(p - r, d as int, if x >= 12 { 0 } else { -1 });
    }
    d
}

/// The 24 by 12 emission matrix of two profiles.
pub open spec fn emission_matrix<T>(major: Seq<T>, minor: Seq<T>) -> Seq<Seq<T>> {
    Seq::new(24, |k: int| Seq::new(12, |p: int| emission_entry(major, minor, k, p)))
}

/// The place in a key-transition vector of the weight of going from key `k`
/// to key `j`. The first half of the vector holds the weights between keys of
/// one mode, the second half those between keys of different modes, both by
/// the interval from the tonic of `k`; from a major to a minor key the
/// interval is counted from a minor third higher.
pub open spec fn transition_source(k: int, j: int) -> int {
    let r = k % 12;
    if j < 12 {
        if k < 12 {
            (j - r) % 12
        } else {
            12 + (j - r) % 12
        }
    } else {
        if k < 12 {
            12 + ((j - r) - MINOR_OFFSET as int) % 12
        } else {
            (j - r) % 12
        }
    }
}

/// The weight of going from key `k` to key `j`.
pub open spec fn transition_entry<T>(v: Seq<T>, k: int, j: int) -> T {
    v[transition_source(k, j)]
}

/// A number that differs from `d` in `[0, 12)` by a multiple of 12 has the remainder `d`.
proof fn lemma_remainder(x: int, d: int, q: int)
    requires
        x == d + 12 * q,
        0 <= d < 12,
    ensures
        x % 12 == d,
{
    assert(x % 12 == d) by (nonlinear_arith)
        requires
            x == d + 12 * q,
            0 <= d < 12,
    ;
}

/// Computes `transition_source`.
fn transition_index(k: usize, j: usize) -> (idx: usize)
    requires
        k < 24,
        j < 24,
    ensures
        idx < 24,
        idx == transition_source(k as int, j as int),
{
    let r: usize = if k < 12 { k } else { k - 12 };
    let target: usize = if j < 12 { j } else { j - 12 };
    let shift: usize = if k < 12 && j >= 12 { r + MINOR_OFFSET } else { r };
    let x: usize = target + 24 - shift;
    let d: usize = if x >= 24 { x - 24 } else if x >= 12 { x - 12 } else { x };
    proof {
        lemma_remainder(k as int, r as int, if k < 12 { 0 } else { 1 });
        let wraps: int = if x >= 24 { 2 } else if x >= 12 { 1 } else { 0 };
        let upper: int = if j < 12 { 0 } else { 1 };
        let interval: int = if k < 12 && j >= 12 { j - r - MINOR_OFFSET as int } else { j - r };
        lemma_remainder(interval, d as int, wraps - 2 + upper);
    }
    if (j < 12) == (k < 12) {
        d
    } else {
        12 + d
    }
}

/// The 24 by 24 transition matrix of a key-transition vector.
pub open spec fn transition_matrix<T>(v: Seq<T>) -> Seq<Seq<T>> {
    Seq::new(24, |k: int| Seq::new(24, |j: int| transition_entry(v, k, j)))
}

/// The null key-transition vector in the log domain: the weight 1/24 at
/// every interval, so that the second pass may move between all keys alike.
pub fn null_transitions() -> (res: Vec<LogProb>)
    ensures
        res@ == Seq::new(24, |i: int| LogProb::Finite(LOG_UNIFORM_START)),
{
    let mut res: Vec<LogProb> = Vec::new();
    while res.len() < 24
        invariant
            res.len() <= 24,
            forall|i: int| 0 <= i < res.len() ==> (#[trigger] res@[i]) == LogProb::Finite(LOG_UNIFORM_START),
        decreases 24 - res.len(),
    {
        res.push(LogProb::Finite(LOG_UNIFORM_START));
    }
    assert(res@ =~= Seq::new(24, |i: int| LogProb::Finite(LOG_UNIFORM_START)));
    res
}

/// Builds the transition matrix of a key-transition vector of 24 weights.
pub fn create_transition_probabilities<T: Copy>(key_transitions: &Vec<T>) -> (res: Result<
    Vec<Vec<T>>,
    AnalyzerError,
>)
    ensures
        key_transitions.len() == 24 ==> (res matches Ok(t) && rows(t@) == transition_matrix(
            key_transitions@,
        )),
        res matches Ok(t) ==> t.len() == 24 && forall|k: int|
            0 <= k < 24 ==> (#[trigger] t@[k]).len() == 24,
        res matches Ok(t) ==> forall|k: int, j: int|
            0 <= k < 24 && 0 <= j < 24 ==> (#[trigger] t@[k]@[j]) == transition_entry(
                key_transitions@,
                k,
                j,
            ),
        key_transitions.len() != 24 ==> (res matches Err(e) && e == AnalyzerError::Shape),
{
    if key_transitions.len() != 24 {
        return Err(AnalyzerError::Shape);
    }
    let ghost v = key_transitions@;
    let mut res: Vec<Vec<T>> = Vec::new();
    let mut k: usize = 0;
    while k < 24
        invariant
            v == key_transitions@,
            v.len() == 24,
            k <= 24,
            res.len() == k,
            forall|i: int| 0 <= i < k ==> (#[trigger] res@[i])@ == transition_matrix(v)[i],
        decreases 24 - k,
    {
        let mut row: Vec<T> = Vec::new();
        let mut j: usize = 0;
        while j < 24
            invariant
                v == key_transitions@,
                v.len() == 24,
                k < 24,
                j <= 24,
                row.len() == j,
                forall|i: int| 0 <= i < j ==> (#[trigger] row@[i]) == transition_entry(v, k as int, i),
            decreases 24 - j,
        {
            let idx: usize = transition_index(k, j);
            row.push(key_transitions[idx]);
            j += 1;
        }
        assert(row@ =~= transition_matrix(v)[k as int]);
        res.push(row);
        k += 1;
    }
    assert(rows(res@) =~= transition_matrix(v));
    Ok(res)
}

/// Builds the emission matrix of a major and a minor profile of 12 weights each.
pub fn create_emission_probabilities<T: Copy>(major: &Vec<T>, minor: &Vec<T>) -> (res: Result<
    Vec<Vec<T>>,
    AnalyzerError,
>)
    ensures
        major.len() == 12 && minor.len() == 12 ==> (res matches Ok(e) && rows(e@)
            == emission_matrix(major@, minor@)),
        res matches Ok(e) ==> e.len() == 24 && forall|k: int|
            0 <= k < 24 ==> (#[trigger] e@[k]).len() == 12,
        res matches Ok(e) ==> forall|k: int, p: int|
            0 <= k < 24 && 0 <= p < 12 ==> (#[trigger] e@[k]@[p]) == emission_entry(
                major@,
                minor@,
                k,
                p,
            ),
        major.len() != 12 || minor.len() != 12 ==> (res matches Err(e) && e
            == AnalyzerError::Shape),
{
    if major.len() != 12 || minor.len() != 12 {
        return Err(AnalyzerError::Shape);
    }
    let mut res: Vec<Vec<T>> = Vec::new();
    let mut k: usize = 0;
    while k < 24
        invariant
            major.len() == 12,
            minor.len() == 12,
            k <= 24,
            res.len() == k,
            forall|i: int| 0 <= i < k ==> (#[trigger] res@[i])@ == emission_matrix(major@, minor@)[i],
        decreases 24 - k,
    {
        let base: &Vec<T> = if k < 12 { major } else { minor };
        let mut row: Vec<T> = Vec::new();
        let mut p: usize = 0;
        while p < 12
            invariant
                major.len() == 12,
                minor.len() == 12,
                base.len() == 12,
                base@ == (if k < 12 { major@ } else { minor@ }),
                k < 24,
                p <= 12,
                row.len() == p,
                forall|i: int| 0 <= i < p ==> (#[trigger] row@[i]) == emission_entry(major@, minor@, k as int, i),
            decreases 12 - p,
        {
            row.push(base[interval_above_tonic(k, p)]);
            p += 1;
        }
        assert(row@ =~= emission_matrix(major@, minor@)[k as int]);
        res.push(row);
        k += 1;
    }
    assert(rows(res@) =~= emission_matrix(major@, minor@));
    Ok(res)
}

/// A number is 12 times its quotient plus its remainder, which lies in `[0, 12)`.
proof fn lemma_split(x: int)
    ensures
        x == 12 * (x / 12) + x % 12,
        0 <= x % 12 < 12,
{
}

/// Adding 12 does not change the remainder.
proof fn lemma_octave(x: int)
    ensures
        (x + 12) % 12 == x % 12,
{
    lemma_split(x);
    lemma_remainder(x + 12, x % 12, x / 12 + 1);
}

/// Two shifts of a pitch class can be taken in either order.
proof fn lemma_shifts_commute(p: int, a: int, b: int)
    ensures
        ((p - a) % 12 - b) % 12 == ((p - b) % 12 - a) % 12,
{
    let first = (p - a) % 12;
    let second = (p - b) % 12;
    let d = (first - b) % 12;
    lemma_split(p - a);
    lemma_split(p - b);
    lemma_split(first - b);
    lemma_remainder(second - a, d, (first - b) / 12 + (p - a) / 12 - (p - b) / 12);
}

/// The tonic of a key below 24.
proof fn lemma_tonic(k: int)
    requires
        0 <= k < 24,
    ensures
        k % 12 == (if k < 12 { k } else { k - 12 }),
{
    lemma_remainder(k, if k < 12 { k } else { k - 12 }, if k < 12 { 0 } else { 1 });
}

/// Tonic alignment: every key emits its own tonic with the weight that its
/// profile gives to the tonic.
pub proof fn lemma_tonic_alignment<T>(major: Seq<T>, minor: Seq<T>, k: int)
    requires
        major.len() == 12,
        minor.len() == 12,
        0 <= k < 24,
    ensures
        emission_matrix(major, minor)[k][k % 12] == (if k < 12 { major[0] } else { minor[0] }),
{
    lemma_tonic(k);
    lemma_remainder(k % 12 - k % 12, 0, 0);
}

/// Staying in a key has the first weight of the key-transition vector.
pub proof fn lemma_self_transition<T>(v: Seq<T>, k: int)
    requires
        v.len() == 24,
        0 <= k < 24,
    ensures
        transition_matrix(v)[k][k] == v[0],
{
    lemma_tonic(k);
    lemma_remainder(k - k % 12, 0, if k < 12 { 0 } else { 1 });
}

/// The halves of each row of the transition matrix are rotations of the
/// halves of the key-transition vector. From a major key the major targets
/// are the first half turned right by the tonic and the minor targets the
/// second half turned right by the tonic and a minor third; from a minor key
/// the major targets are the second half and the minor targets the first
/// half, both turned right by the tonic.
pub proof fn lemma_row_rotations<T>(v: Seq<T>, k: int)
    requires
        v.len() == 24,
        0 <= k < 24,
    ensures
        k < 12 ==> transition_matrix(v)[k].subrange(0, 12) == rotate_right(v.subrange(0, 12), k % 12),
        k < 12 ==> transition_matrix(v)[k].subrange(12, 24) == rotate_right(
            v.subrange(12, 24),
            k % 12 + MINOR_OFFSET as int,
        ),
        k >= 12 ==> transition_matrix(v)[k].subrange(0, 12) == rotate_right(v.subrange(12, 24), k % 12),
        k >= 12 ==> transition_matrix(v)[k].subrange(12, 24) == rotate_right(v.subrange(0, 12), k % 12),
{
    let row = transition_matrix(v)[k];
    let r = k % 12;
    let lower = row.subrange(0, 12);
    let upper = row.subrange(12, 24);
    let tonic = v.subrange(0, 12);
    let relative = v.subrange(12, 24);
    lemma_tonic(k);
    assert forall|i: int| 0 <= i < 12 implies 0 <= #[trigger] ((i - r) % 12) < 12 && (i + 12 - r) % 12
        == (i - r) % 12 && 0 <= (i - r - 3) % 12 < 12 && (i + 12 - r - 3) % 12 == (i - r - 3) % 12 by {
        lemma_split(i - r);
        lemma_split(i - r - 3);
        lemma_octave(i - r);
        lemma_octave(i - r - 3);
    }
    if k < 12 {
        assert forall|i: int| 0 <= i < 12 implies lower[i] == rotate_right(tonic, r)[i] by {
            assert(0 <= (i - r) % 12 < 12);
            assert(lower[i] == row[i]);
        }
        assert(lower =~= rotate_right(tonic, r));
        assert forall|i: int| 0 <= i < 12 implies upper[i] == rotate_right(relative, r + 3)[i] by {
            assert(0 <= (i - r) % 12 < 12);
            assert(upper[i] == row[i + 12]);
            assert((i + 12 - r) - 3 == i + 12 - r - 3);
            assert(i - (r + 3) == i - r - 3);
        }
        assert(upper =~= rotate_right(relative, r + MINOR_OFFSET as int));
    } else {
        assert forall|i: int| 0 <= i < 12 implies lower[i] == rotate_right(relative, r)[i] by {
            assert(0 <= (i - r) % 12 < 12);
            assert(lower[i] == row[i]);
        }
        assert(lower =~= rotate_right(relative, r));
        assert forall|i: int| 0 <= i < 12 implies upper[i] == rotate_right(tonic, r)[i] by {
            assert(0 <= (i - r) % 12 < 12);
            assert(upper[i] == row[i + 12]);
        }
        assert(upper =~= rotate_right(tonic, r));
    }
}

/// The major targets of a row are the first half of the key-transition
/// vector turned right by the tonic of the source key, for a major source
/// key, and for a minor one where both halves of the vector are equal.
pub proof fn lemma_major_targets_rotation<T>(v: Seq<T>, k: int)
    requires
        v.len() == 24,
        0 <= k < 24,
        k < 12 || v.subrange(0, 12) == v.subrange(12, 24),
    ensures
        transition_matrix(v)[k].subrange(0, 12) == rotate_right(v.subrange(0, 12), k % 12),
{
    lemma_row_rotations(v, k);
}

/// Turning both profiles right by `r` turns every row of the emission matrix right by `r`.
pub proof fn lemma_emission_equivariance<T>(major: Seq<T>, minor: Seq<T>, r: nat, k: int)
    requires
        major.len() == 12,
        minor.len() == 12,
        0 <= k < 24,
    ensures
        emission_matrix(rotate_right(major, r as int), rotate_right(minor, r as int))[k]
            == rotate_right(emission_matrix(major, minor)[k], r as int),
{
    let base = if k < 12 { major } else { minor };
    let tonic = k % 12;
    let left = emission_matrix(rotate_right(major, r as int), rotate_right(minor, r as int))[k];
    let row = emission_matrix(major, minor)[k];
    let right = rotate_right(row, r as int);
    assert forall|p: int| 0 <= p < 12 implies left[p] == right[p] by {
        let a = (p - tonic) % 12;
        let b = (p - r) % 12;
        lemma_split(p - tonic);
        lemma_split(p - r);
        lemma_shifts_commute(p, tonic, r as int);
        assert(left[p] == rotate_right(base, r as int)[a]);
        assert(rotate_right(base, r as int)[a] == base[(a - r) % 12]);
        assert(right[p] == row[b]);
        assert(row[b] == base[(b - tonic) % 12]);
    }
    assert(left =~= right);
}

} // verus!
