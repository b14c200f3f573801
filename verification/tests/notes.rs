use keyfinder::analyze::Analyzer;
use keyfinder::args::Failure;
use keyfinder::notes::{get_normalized_notes, has_safe_headers, track_notes, NotesError};
use keyfinder::process::{key_name, process, JsonKey, SourceFile};
use keyfinder::weight::LogProb;

fn header(format: u8, tracks: u8) -> Vec<u8> {
    let mut bytes = b"MThd".to_vec();
    bytes.extend_from_slice(&[0, 0, 0, 6, 0, format, 0, tracks, 0, 96]);
    bytes
}

fn track(events: &[u8]) -> Vec<u8> {
    let mut bytes = b"MTrk".to_vec();
    bytes.extend_from_slice(&(events.len() as u32).to_be_bytes());
    bytes.extend_from_slice(events);
    bytes
}

fn file_of(tracks: &[&[u8]]) -> Vec<u8> {
    let mut bytes = header(1, tracks.len() as u8);
    for events in tracks {
        bytes.extend(track(events));
    }
    bytes
}

const END: [u8; 4] = [0x00, 0xFF, 0x2F, 0x00];

fn melody(keys: &[u8]) -> Vec<u8> {
    let mut events: Vec<u8> = Vec::new();
    for key in keys {
        events.extend_from_slice(&[0x00, 0x90, *key, 0x40]);
        events.extend_from_slice(&[0x10, 0x80, *key, 0x40]);
    }
    events.extend_from_slice(&END);
    events
}

fn log_weight(x: f64) -> LogProb {
    if x > 0.0 {
        LogProb::Finite((x.ln() * 1.0e6).round() as i32)
    } else {
        LogProb::NegInf
    }
}

fn dirac_analyzer() -> Analyzer {
    let mut profile = vec![LogProb::NegInf; 12];
    profile[0] = log_weight(1.0);
    let mut transitions = vec![LogProb::NegInf; 24];
    transitions[0] = log_weight(1.0);
    let null = vec![log_weight(1.0 / 24.0); 24];
    Analyzer::init(&transitions, &null, &profile, &profile).unwrap()
}

#[test]
fn notes_come_from_the_second_track_in_order() {
    let second: Vec<u8> = vec![
        0x00, 0x90, 0x3C, 0x40, // note on, key 60
        0x10, 0x80, 0x3C, 0x40, // note off
        0x00, 0x90, 0x43, 0x40, // note on, key 67
        0x00, 0x40, 0x40, // running status: note on, key 64
        0x00, 0xB0, 0x07, 0x64, // controller
        0x00, 0xFF, 0x2F, 0x00,
    ];
    let bytes = file_of(&[&END, &second]);
    assert_eq!(get_normalized_notes(&bytes), Ok(vec![0, 7, 4]));
}

#[test]
fn notes_of_the_first_track_are_not_read() {
    let bytes = file_of(&[&melody(&[61, 62]), &melody(&[71]), &melody(&[65])]);
    assert_eq!(get_normalized_notes(&bytes), Ok(vec![11]));
}

#[test]
fn a_track_without_notes_gives_no_observations() {
    let bytes = file_of(&[&END, &END]);
    assert_eq!(get_normalized_notes(&bytes), Ok(vec![]));
}

#[test]
fn bytes_that_are_no_midi_file_are_rejected() {
    assert_eq!(get_normalized_notes(&b"not a midi file".to_vec()), Err(NotesError::Parse));
    assert_eq!(get_normalized_notes(&Vec::new()), Err(NotesError::Parse));
}

#[test]
fn a_file_with_one_track_has_no_note_track() {
    let mut bytes = header(0, 1);
    bytes.extend(track(&melody(&[60])));
    assert_eq!(get_normalized_notes(&bytes), Err(NotesError::MissingTrack));
}

#[test]
fn track_notes_keeps_note_on_keys_modulo_12() {
    let tracks = vec![
        vec![Some(1), Some(2)],
        vec![None, Some(60), None, Some(127), Some(0), None, Some(11), Some(12)],
    ];
    assert_eq!(track_notes(&tracks), Ok(vec![0, 7, 0, 11, 0]));
}

#[test]
fn track_notes_needs_two_tracks() {
    let none: Vec<Vec<Option<u8>>> = Vec::new();
    assert_eq!(track_notes(&none), Err(NotesError::MissingTrack));
    assert_eq!(track_notes(&vec![vec![Some(3)]]), Err(NotesError::MissingTrack));
}

#[test]
fn key_names_follow_the_fixed_table() {
    let names = [
        "C", "Db", "D", "Eb", "E", "F", "F#", "G", "Ab", "A", "Bb", "B", "c", "c#", "d", "eb",
        "e", "f", "f#", "g", "ab", "a", "bb", "b",
    ];
    for key in 0..24u8 {
        assert_eq!(key_name(key), names[key as usize]);
    }
}

#[test]
fn process_reports_one_record_per_file_with_notes() {
    let files = vec![
        SourceFile { file_name: "first.mid".to_string(), bytes: file_of(&[&END, &melody(&[60, 64, 67])]) },
        SourceFile { file_name: "silent.mid".to_string(), bytes: file_of(&[&END, &END]) },
        SourceFile { file_name: "third.midi".to_string(), bytes: file_of(&[&END, &melody(&[67, 67, 67, 67])]) },
    ];
    let found: Vec<JsonKey> = process(&dirac_analyzer(), &files).unwrap();
    assert_eq!(found.len(), 2);
    assert_eq!(found[0].key, 0);
    assert_eq!(found[0].name, "C");
    assert_eq!(found[0].file_name, "first.mid");
    assert_eq!(found[1].key, 7);
    assert_eq!(found[1].name, "G");
    assert_eq!(found[1].file_name, "third.midi");
}

#[test]
fn process_of_no_files_finds_nothing() {
    let found = process(&dirac_analyzer(), &Vec::new()).unwrap();
    assert!(found.is_empty());
}

#[test]
fn process_fails_with_the_error_of_the_first_bad_file() {
    let mut one_track = header(0, 1);
    one_track.extend(track(&melody(&[60])));
    let files = vec![
        SourceFile { file_name: "good.mid".to_string(), bytes: file_of(&[&END, &melody(&[60])]) },
        SourceFile { file_name: "single.mid".to_string(), bytes: one_track },
        SourceFile { file_name: "junk.mid".to_string(), bytes: vec![1, 2, 3] },
    ];
    assert_eq!(process(&dirac_analyzer(), &files).err(), Some(NotesError::MissingTrack));
    let files = vec![
        SourceFile { file_name: "junk.mid".to_string(), bytes: vec![1, 2, 3] },
        SourceFile { file_name: "good.mid".to_string(), bytes: file_of(&[&END, &melody(&[60])]) },
    ];
    assert_eq!(process(&dirac_analyzer(), &files).err(), Some(NotesError::Parse));
}

#[test]
fn header_with_division_byte_0x80_is_rejected() {
    let bytes: Vec<u8> =
        vec![0x4D, 0x54, 0x68, 0x64, 0x00, 0x00, 0x00, 0x06, 0x00, 0x01, 0x00, 0x02, 0x80, 0x00];
    assert!(!has_safe_headers(&bytes));
    assert_eq!(get_normalized_notes(&bytes), Err(NotesError::Parse));
}

#[test]
fn later_header_with_division_byte_0x80_is_rejected() {
    let mut bytes = file_of(&[&END, &melody(&[60])]);
    assert!(has_safe_headers(&bytes));
    bytes.extend_from_slice(&[0x4D, 0x54, 0x68, 0x64, 0, 0, 0, 6, 0, 1, 0, 2, 0x80, 0]);
    assert!(!has_safe_headers(&bytes));
    assert_eq!(get_normalized_notes(&bytes), Err(NotesError::Parse));
    let files = vec![SourceFile { file_name: "late.mid".to_string(), bytes }];
    assert_eq!(process(&dirac_analyzer(), &files).err(), Some(NotesError::Parse));
}

#[test]
fn headers_are_safe_where_the_parser_does_not_reach_the_byte() {
    let bad: Vec<u8> = vec![0x4D, 0x54, 0x68, 0x64, 0, 0, 0, 6, 0, 1, 0, 2, 0x80, 0];
    assert!(!has_safe_headers(&bad));
    assert!(has_safe_headers(&Vec::new()));
    assert!(has_safe_headers(&b"MThd".to_vec()));
    assert!(has_safe_headers(&vec![0x80; 40]));
    // Fewer than six bytes of data.
    assert!(has_safe_headers(&bad[..13].to_vec()));
    // Another division, other letters, a length below 6, a format above 2.
    for (place, byte) in [(12, 0x81), (12, 0x7F), (3, 0x65), (7, 5), (8, 1), (9, 3)] {
        let mut bytes = bad.clone();
        bytes[place] = byte;
        assert!(has_safe_headers(&bytes));
        assert_eq!(get_normalized_notes(&bytes).is_ok(), false);
    }
    // A length that is at least 6 in another of its bytes.
    for place in 4..7 {
        let mut bytes = bad.clone();
        bytes[place] = 1;
        bytes[7] = 0;
        assert!(!has_safe_headers(&bytes));
    }
    // Each format that the parser takes.
    for format in 0..3u8 {
        let mut bytes = bad.clone();
        bytes[9] = format;
        assert!(!has_safe_headers(&bytes));
        assert_eq!(get_normalized_notes(&bytes), Err(NotesError::Parse));
    }
    // A header that does not stand at the start.
    let mut shifted: Vec<u8> = vec![9, 9];
    shifted.extend_from_slice(&bad);
    shifted.push(7);
    assert!(!has_safe_headers(&shifted));
}

#[test]
fn timecode_division_is_parsed() {
    // 25 frames per second, 40 ticks per frame.
    let mut bytes = b"MThd".to_vec();
    bytes.extend_from_slice(&[0, 0, 0, 6, 0, 1, 0, 2, 0xE7, 40]);
    bytes.extend(track(&END));
    bytes.extend(track(&melody(&[62, 69])));
    assert!(has_safe_headers(&bytes));
    assert_eq!(get_normalized_notes(&bytes), Ok(vec![2, 9]));
}

#[test]
fn errors_become_failures() {
    assert_eq!(NotesError::Parse.failure(), Some(Failure::Malformed));
    assert_eq!(NotesError::MissingTrack.failure(), None);
}
