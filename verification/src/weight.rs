use vstd::prelude::*;

verus! {

/// Fixed-point units per nat: a log-probability `x` is stored as `x` times this, rounded.
pub const UNITS_PER_NAT: i32 = 1_000_000;

/// The natural logarithm of 1/24 in fixed-point units: the uniform start weight of a key.
pub const LOG_UNIFORM_START: i32 = -3_178_054;

/// An integer extended with negative infinity: the model of a log-domain value.
pub enum Ext {
    NegInf,
    Fin(int),
}

impl Ext {
    /// Log-domain product: negative infinity absorbs, finite values add.
    pub open spec fn plus(self, other: Ext) -> Ext {
        match (self, other) {
            (Ext::Fin(a), Ext::Fin(b)) => Ext::Fin(a + b),
            _ => Ext::NegInf,
        }
    }

    /// `self <= other`, with negative infinity below every finite value.
    pub open spec fn le(self, other: Ext) -> bool {
        match (self, other) {
            (Ext::NegInf, _) => true,
            (Ext::Fin(_), Ext::NegInf) => false,
            (Ext::Fin(a), Ext::Fin(b)) => a <= b,
        }
    }

    /// `self < other`.
    pub open spec fn lt(self, other: Ext) -> bool {
        !other.le(self)
    }

    /// A finite value lies in `[-bound, bound]`; negative infinity always does.
    pub open spec fn within(self, bound: int) -> bool {
        match self {
            Ext::NegInf => true,
            Ext::Fin(a) => -bound <= a <= bound,
        }
    }
}

/// The largest magnitude a single table entry can have.
pub open spec fn entry_bound() -> int {
    0x8000_0000
}

/// The largest magnitude of a score to which one more table entry can be added.
pub open spec fn score_bound() -> int {
    0x4000_0000_0000_0000_0000_0000_0000_0000
}

/// One entry of a probability table in the log domain: the logarithm of a
/// weight in fixed-point units, or negative infinity for the weight zero.
#[derive(Clone, Copy, Debug, PartialEq, Eq)]
pub enum LogProb {
    NegInf,
    Finite(i32),
}

impl View for LogProb {
    type V = Ext;

    open spec fn view(&self) -> Ext {
        match *self {
            LogProb::NegInf => Ext::NegInf,
            LogProb::Finite(v) => Ext::Fin(v as int),
        }
    }
}

/// The log-probability of a path: a sum of table entries.
#[derive(Clone, Copy, Debug, PartialEq, Eq)]
pub enum LogScore {
    NegInf,
    Finite(i128),
}

impl View for LogScore {
    type V = Ext;

    open spec fn view(&self) -> Ext {
        match *self {
            LogScore::NegInf => Ext::NegInf,
            LogScore::Finite(v) => Ext::Fin(v as int),
        }
    }
}

impl LogScore {
    /// The score of a single table entry.
    pub fn of(w: LogProb) -> (res: LogScore)
        ensures
            res@ == w@,
    {
        match w {
            LogProb::NegInf => LogScore::NegInf,
            LogProb::Finite(v) => LogScore::Finite(v as i128),
        }
    }

    /// The score extended by one more table entry.
    pub fn plus(self, w: LogProb) -> (res: LogScore)
        requires
            self@.within(score_bound()),
        ensures
            res@ == self@.plus(w@),
    {
        match (self, w) {
            (LogScore::Finite(a), LogProb::Finite(b)) => LogScore::Finite(a + (b as i128)),
            _ => LogScore::NegInf,
        }
    }

    /// Whether this score is strictly greater than `other`.
    pub fn exceeds(self, other: LogScore) -> (res: bool)
        ensures
            res == other@.lt(self@),
    {
        match (self, other) {
            (LogScore::NegInf, _) => false,
            (LogScore::Finite(_), LogScore::NegInf) => true,
            (LogScore::Finite(a), LogScore::Finite(b)) => a > b,
        }
    }
}

/// Adding a table entry to a bounded score widens the bound by one entry.
pub proof fn lemma_plus_within(a: Ext, w: LogProb, bound: int)
    requires
        a.within(bound),
        bound >= 0,
    ensures
        a.plus(w@).within(bound + entry_bound()),
{
}

} // verus!
