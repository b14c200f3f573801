use vstd::prelude::*;
use vstd::string::StringExecFns;

verus! {

/// The major profiles that can be chosen.
#[derive(Clone, Copy, Debug, PartialEq, Eq, Structural)]
pub enum ProfileMajor {
    Sapp,
}

/// The minor profiles that can be chosen.
#[derive(Clone, Copy, Debug, PartialEq, Eq, Structural)]
pub enum ProfileMinor {
    Sapp,
}

/// The key-transition vectors that can be chosen.
#[derive(Clone, Copy, Debug, PartialEq, Eq, Structural)]
pub enum Transition {
    KeyTransitionsExponential10,
    KeyTransitionsExponential,
    KeyTransitionsNull,
}

/// What a run is asked to do.
#[derive(Debug)]
pub struct Args {
    /// Input path.
    pub input_path: String,
    /// Output file path.
    pub output_file: String,
    /// Major profile.
    pub major_profile: ProfileMajor,
    /// Minor profile.
    pub minor_profile: ProfileMinor,
    /// Transition profile.
    pub transition_profile: Transition,
    /// Major profile normalized.
    pub major_profile_normalized: bool,
    /// Minor profile normalized.
    pub minor_profile_normalized: bool,
    /// Profile normalized.
    pub profile_normalized: bool,
    /// Whether the input path is a directory to search for MIDI files.
    pub recursive: bool,
}

/// Where the files of a run are to be found.
#[derive(Debug, PartialEq, Eq)]
pub enum FileSearch {
    /// Every file that matches a glob pattern.
    Pattern(String),
    /// The one file at a path.
    Single(String),
}

/// Why a run ends early.
#[derive(Clone, Copy, Debug, PartialEq, Eq, Structural)]
pub enum Failure {
    /// The input path is a directory, and no search was asked for.
    DirectoryInput,
    /// A file could not be read.
    Unreadable,
    /// A file is not a MIDI file.
    Malformed,
}

impl Failure {
    /// The exit code of a run that ends with this failure.
    pub fn exit_code(&self) -> (code: u8)
        ensures
            code == match *self {
                Failure::DirectoryInput => 1u8,
                Failure::Unreadable => 2u8,
                Failure::Malformed => 3u8,
            },
    {
        match self {
            Failure::DirectoryInput => 1,
            Failure::Unreadable => 2,
            Failure::Malformed => 3,
        }
    }
}

impl Args {
    /// Where to look for the files: with `recursive`, every MIDI file in and
    /// below the input path; without it, the input path itself, which must
    /// then not be a directory.
    pub fn file_search(&self, input_is_directory: bool) -> (res: Result<FileSearch, Failure>)
        ensures
            self.recursive ==> (res matches Ok(FileSearch::Pattern(p)) && p@ == self.input_path@
                + "**/*.mid*"@),
            !self.recursive && input_is_directory ==> (res matches Err(e) && e
                == Failure::DirectoryInput),
            !self.recursive && !input_is_directory ==> (res matches Ok(FileSearch::Single(p)) && p@
                == self.input_path@),
    {
        if self.recursive {
            let mut pattern = self.input_path.clone();
            pattern.append("**/*.mid*");
            Ok(FileSearch::Pattern(pattern))
        } else if input_is_directory {
            Err(Failure::DirectoryInput)
        } else {
            Ok(FileSearch::Single(self.input_path.clone()))
        }
    }
}

} // verus!
