//! Musical key estimation with a hidden Markov model over pitch classes.
//!
//! Probabilities are kept in the log domain as fixed-point integers, so that
//! every sum and comparison made while decoding is exact.

pub mod analyze;
pub mod args;
pub mod error;
pub mod notes;
pub mod optimality;
pub mod process;
pub mod tables;
pub mod viterbi;
pub mod weight;

pub use error::AnalyzerError;
pub use analyze::{Analyzer, Tables};
pub use args::{Args, Failure, FileSearch, ProfileMajor, ProfileMinor, Transition};
pub use notes::{get_normalized_notes, has_safe_headers, track_notes, NotesError};
pub use process::{key_name, process, JsonKey, SourceFile};
pub use tables::{create_emission_probabilities, create_transition_probabilities, null_transitions};
pub use viterbi::{Key, Model};
pub use weight::{Ext, LogProb, LogScore};
