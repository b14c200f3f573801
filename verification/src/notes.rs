use vstd::prelude::*;
use crate::args::Failure;
use crate::viterbi::rows;

verus! {

/// Why no observations could be taken from the bytes of a file.
#[derive(Clone, Copy, Debug, PartialEq, Eq, Structural)]
pub enum NotesError {
    /// The bytes are not a standard MIDI file.
    Parse,
    /// The file has no second track to take the notes from.
    MissingTrack,
}

impl NotesError {
    /// The failure with which a run ends on this error: a file that is no
    /// MIDI file is malformed; for a file without a second track there is none.
    pub fn failure(&self) -> (res: Option<Failure>)
        ensures
            res == match *self {
                NotesError::Parse => Some(Failure::Malformed),
                NotesError::MissingTrack => None::<Failure>,
            },
    {
        match self {
            NotesError::Parse => Some(Failure::Malformed),
            NotesError::MissingTrack => None,
        }
    }
}

/// The place, among the tracks of a file, of the track that the notes are taken from.
pub const NOTE_TRACK: usize = 1;

/// The tracks that the MIDI parser finds in the bytes of a file, each as the
/// sequence of its events: the key of a note-on event, and nothing for any
/// other event. `None` where the parser rejects the bytes.
pub uninterp spec fn smf_tracks(bytes: Seq<u8>) -> Option<Seq<Seq<Option<u8>>>>;

/// The value of what the parser hands back.
pub open spec fn tracks_view(res: Option<Vec<Vec<Option<u8>>>>) -> Option<Seq<Seq<Option<u8>>>> {
    match res {
        Some(tracks) => Some(rows(tracks@)),
        None => None,
    }
}

/// The bytes from `i` on, read as a header chunk, have a time division with
/// the high byte `0x80`: the four letters `MThd`, a length of at least 6 in
/// four bytes, at least six bytes of data, of which the first two are the
/// format 0, 1 or 2 and the fifth is `0x80`.
pub open spec fn division_overflows_at(bytes: Seq<u8>, i: int) -> bool {
    &&& 0 <= i
    &&& i + 14 <= bytes.len()
    &&& bytes[i] == 0x4D
    &&& bytes[i + 1] == 0x54
    &&& bytes[i + 2] == 0x68
    &&& bytes[i + 3] == 0x64
    &&& (bytes[i + 4] != 0 || bytes[i + 5] != 0 || bytes[i + 6] != 0 || bytes[i + 7] >= 6)
    &&& bytes[i + 8] == 0
    &&& bytes[i + 9] <= 2
    &&& bytes[i + 12] == 0x80
}

/// Nowhere in the bytes stands a header chunk whose time division has the
/// high byte `0x80`. No MIDI file has such a division: the byte would stand
/// for 128 frames per second.
pub open spec fn safe_headers(bytes: Seq<u8>) -> bool {
    forall|i: int| 0 <= i < bytes.len() ==> !#[trigger] division_overflows_at(bytes, i)
}

/// Whether the bytes have safe headers.
pub fn has_safe_headers(bytes: &Vec<u8>) -> (res: bool)
    ensures
        res == safe_headers(bytes@),
{
    let n: usize = bytes.len();
    if n < 14 {
        return true;
    }
    let mut i: usize = 0;
    while i <= n - 14
        invariant
            n == bytes.len(),
            n >= 14,
            i <= n - 13,
            forall|j: int| 0 <= j < i ==> !#[trigger] division_overflows_at(bytes@, j),
        decreases n - i,
    {
        let letters: bool = bytes[i] == 0x4D && bytes[i + 1] == 0x54 && bytes[i + 2] == 0x68
            && bytes[i + 3] == 0x64;
        let long_enough: bool = bytes[i + 4] != 0 || bytes[i + 5] != 0 || bytes[i + 6] != 0
            || bytes[i + 7] >= 6;
        let format: bool = bytes[i + 8] == 0 && bytes[i + 9] <= 2;
        if letters && long_enough && format && bytes[i + 12] == 0x80 {
            assert(division_overflows_at(bytes@, i as int));
            return false;
        }
        i += 1;
    }
    true
}

/// Calls `midly::Smf::parse` on the bytes and copies, track by track and
/// event by event, the key of each note-on event. The contract gives the
/// result the name `smf_tracks`: it depends on the bytes alone. Nothing
/// else about the parser is claimed.
///
/// The parser negates the high byte of the time division of each header
/// chunk it reads as a signed byte, which overflows for `0x80`. It comes to
/// that byte only in a chunk that begins with the letters `MThd`, holds at
/// least six bytes of data and has the format 0, 1 or 2, and it reads a
/// chunk from consecutive bytes of the input. The precondition leaves out
/// every input in which such a chunk stands at any place, read or not.
#[verifier::external_body]
fn parse_tracks(bytes: &Vec<u8>) -> (res: Option<Vec<Vec<Option<u8>>>>)
    requires
        safe_headers(bytes@),
    ensures
        tracks_view(res) == smf_tracks(bytes@),
{
    let smf = match midly::Smf::parse(bytes) {
        Ok(smf) => smf,
        Err(_) => return None,
    };
    Some(smf.tracks.iter().map(|track| track.iter().map(|event| match event.kind {
        midly::TrackEventKind::Midi { message: midly::MidiMessage::NoteOn { key, .. }, .. } => Some(key.as_int()),
        _ => None,
    }).collect()).collect())
}

/// The pitch class of the key of a note-on event; nothing for any other event.
pub open spec fn pitch_class(event: Option<u8>) -> Option<u8> {
    match event {
        Some(key) => Some((key % 12) as u8),
        None => None,
    }
}

/// The pitch classes of the note-on events of a track, in the order of the events.
pub open spec fn pitch_classes(events: Seq<Option<u8>>) -> Seq<u8> {
    events.filter_map(|event: Option<u8>| pitch_class(event))
}

/// The observations of a parsed file: the pitch classes of its second track.
pub open spec fn notes_of_tracks(tracks: Seq<Seq<Option<u8>>>) -> Result<Seq<u8>, NotesError> {
    if tracks.len() <= NOTE_TRACK {
        Err(NotesError::MissingTrack)
    } else {
        Ok(pitch_classes(tracks[NOTE_TRACK as int]))
    }
}

/// The observations of a file, from its bytes. Bytes without safe headers
/// are no MIDI file, and are not handed to the parser.
pub open spec fn notes_of_bytes(bytes: Seq<u8>) -> Result<Seq<u8>, NotesError> {
    if !safe_headers(bytes) {
        Err(NotesError::Parse)
    } else {
        match smf_tracks(bytes) {
            None => Err(NotesError::Parse),
            Some(tracks) => notes_of_tracks(tracks),
        }
    }
}

/// What `res` holds, as a value.
pub open spec fn notes_view(res: Result<Vec<u8>, NotesError>) -> Result<Seq<u8>, NotesError> {
    match res {
        Ok(notes) => Ok(notes@),
        Err(e) => Err(e),
    }
}

/// Every pitch class is below 12.
pub proof fn lemma_pitch_classes_in_range(events: Seq<Option<u8>>)
    ensures
        forall|i: int| 0 <= i < pitch_classes(events).len() ==> (#[trigger] pitch_classes(events)[i]) < 12,
    decreases events.len(),
{
    if events.len() > 0 {
        lemma_pitch_classes_in_range(events.drop_last());
        let before = pitch_classes(events.drop_last());
        assert forall|i: int| 0 <= i < pitch_classes(events).len() implies (#[trigger] pitch_classes(
            events,
        )[i]) < 12 by {
            if i < before.len() {
                assert(pitch_classes(events)[i] == before[i]);
            }
        }
    }
}

/// The observations of a parsed file: the note-on events of its second
/// track, each reduced to its pitch class.
pub fn track_notes(tracks: &Vec<Vec<Option<u8>>>) -> (res: Result<Vec<u8>, NotesError>)
    ensures
        notes_view(res) == notes_of_tracks(rows(tracks@)),
        res matches Ok(notes) ==> forall|i: int| 0 <= i < notes.len() ==> (#[trigger] notes@[i]) < 12,
{
    if tracks.len() <= NOTE_TRACK {
        return Err(NotesError::MissingTrack);
    }
    let track = &tracks[NOTE_TRACK];
    let mut notes: Vec<u8> = Vec::new();
    let mut i: usize = 0;
    while i < track.len()
        invariant
            i <= track.len(),
            notes@ == pitch_classes(track@.take(i as int)),
        decreases track.len() - i,
    {
        assert(track@.take(i as int + 1).drop_last() =~= track@.take(i as int));
        let ghost before = notes@;
        match track[i] {
            Some(key) => {
                notes.push(key % 12);
                assert(notes@ =~= before + seq![(key % 12) as u8]);
            },
            None => {},
        }
        i += 1;
    }
    proof {
        assert(track@.take(track.len() as int) =~= track@);
        lemma_pitch_classes_in_range(track@);
    }
    Ok(notes)
}

/// The observations of a MIDI file, from its bytes.
pub fn get_normalized_notes(bytes: &Vec<u8>) -> (res: Result<Vec<u8>, NotesError>)
    ensures
        notes_view(res) == notes_of_bytes(bytes@),
        res matches Ok(notes) ==> forall|i: int| 0 <= i < notes.len() ==> (#[trigger] notes@[i]) < 12,
{
    if !has_safe_headers(bytes) {
        return Err(NotesError::Parse);
    }
    match parse_tracks(bytes) {
        None => Err(NotesError::Parse),
        Some(tracks) => track_notes(&tracks),
    }
}

} // verus!
