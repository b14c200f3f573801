use vstd::prelude::*;
use crate::analyze::{Analyzer, Tables};
use crate::notes::{get_normalized_notes, notes_of_bytes, NotesError};

verus! {

/// The key found for one file.
#[derive(Debug)]
pub struct JsonKey {
    pub key: u8,
    pub name: String,
    pub file_name: String,
}

/// One file to analyze: its name and its bytes.
#[derive(Debug)]
pub struct SourceFile {
    pub file_name: String,
    pub bytes: Vec<u8>,
}

/// The value of a `JsonKey`.
pub struct KeyRecord {
    pub key: u8,
    pub name: Seq<char>,
    pub file_name: Seq<char>,
}

impl View for JsonKey {
    type V = KeyRecord;

    open spec fn view(&self) -> KeyRecord {
        KeyRecord { key: self.key, name: self.name@, file_name: self.file_name@ }
    }
}

/// The values of a vector of records.
pub open spec fn records(v: Seq<JsonKey>) -> Seq<KeyRecord> {
    Seq::new(v.len(), |i: int| v[i]@)
}

/// The names of the 24 keys: the major keys from C upwards in capitals, then
/// the minor keys from c upwards in small letters.
pub open spec fn key_names() -> Seq<Seq<char>> {
    seq![
        "C"@, "Db"@, "D"@, "Eb"@, "E"@, "F"@, "F#"@, "G"@, "Ab"@, "A"@, "Bb"@, "B"@,
        "c"@, "c#"@, "d"@, "eb"@, "e"@, "f"@, "f#"@, "g"@, "ab"@, "a"@, "bb"@, "b"@,
    ]
}

/// The name of a key.
pub fn key_name(key: u8) -> (res: String)
    requires
        key < 24,
    ensures
        res@ == key_names()[key as int],
{
    let name: &str = match key {
        0 => "C",
        1 => "Db",
        2 => "D",
        3 => "Eb",
        4 => "E",
        5 => "F",
        6 => "F#",
        7 => "G",
        8 => "Ab",
        9 => "A",
        10 => "Bb",
        11 => "B",
        12 => "c",
        13 => "c#",
        14 => "d",
        15 => "eb",
        16 => "e",
        17 => "f",
        18 => "f#",
        19 => "g",
        20 => "ab",
        21 => "a",
        22 => "bb",
        _ => "b",
    };
    name.to_string()
}

/// The records of a run over `files`: one for each file that holds at least
/// one note, in the order of the files, with the global key of its notes.
/// The run fails with the error of the first file whose notes cannot be read.
pub open spec fn run(tables: Tables, files: Seq<SourceFile>) -> Result<Seq<KeyRecord>, NotesError>
    decreases files.len(),
{
    if files.len() == 0 {
        Ok(Seq::empty())
    } else {
        match run(tables, files.drop_last()) {
            Err(e) => Err(e),
            Ok(before) => match notes_of_bytes(files.last().bytes@) {
                Err(e) => Err(e),
                Ok(notes) => if notes.len() == 0 {
                    Ok(before)
                } else {
                    let key = tables.global_key(notes);
                    Ok(
                        before.push(
                            KeyRecord {
                                key,
                                name: key_names()[key as int],
                                file_name: files.last().file_name@,
                            },
                        ),
                    )
                },
            },
        }
    }
}

/// The record of one file: none where its notes cannot be read or it holds no note.
pub open spec fn record_of(tables: Tables, file: SourceFile) -> Option<KeyRecord> {
    match notes_of_bytes(file.bytes@) {
        Ok(notes) => if notes.len() == 0 {
            None
        } else {
            let key = tables.global_key(notes);
            Some(KeyRecord { key, name: key_names()[key as int], file_name: file.file_name@ })
        },
        Err(_) => None,
    }
}

/// `record_of` for fixed tables.
pub open spec fn record_with(tables: Tables) -> spec_fn(SourceFile) -> Option<KeyRecord> {
    |file: SourceFile| record_of(tables, file)
}

/// Where the notes of every file can be read, a run gives the records of
/// the files that hold notes, in the order of the files.
pub proof fn lemma_run_of_readable_files(tables: Tables, files: Seq<SourceFile>)
    requires
        forall|i: int| 0 <= i < files.len() ==> notes_of_bytes((#[trigger] files[i]).bytes@) is Ok,
    ensures
        run(tables, files) == Ok::<Seq<KeyRecord>, NotesError>(files.filter_map(record_with(tables))),
    decreases files.len(),
{
    if files.len() > 0 {
        let before = files.drop_last();
        assert forall|i: int| 0 <= i < before.len() implies notes_of_bytes(
            (#[trigger] before[i]).bytes@,
        ) is Ok by {
            assert(before[i] == files[i]);
        }
        lemma_run_of_readable_files(tables, before);
        let found = before.filter_map(record_with(tables));
        assert(notes_of_bytes(files.last().bytes@) is Ok);
        match record_of(tables, files.last()) {
            Some(record) => {
                assert(found.push(record) =~= found + seq![record]);
            },
            None => {},
        }
    }
}

/// A run fails with the error of the first file whose notes cannot be read.
pub proof fn lemma_run_first_failure(tables: Tables, files: Seq<SourceFile>, i: int, e: NotesError)
    requires
        0 <= i < files.len(),
        notes_of_bytes(files[i].bytes@) == Err::<Seq<u8>, NotesError>(e),
        forall|j: int| 0 <= j < i ==> notes_of_bytes((#[trigger] files[j]).bytes@) is Ok,
    ensures
        run(tables, files) == Err::<Seq<KeyRecord>, NotesError>(e),
{
    let readable = files.take(i);
    assert forall|j: int| 0 <= j < readable.len() implies notes_of_bytes(
        (#[trigger] readable[j]).bytes@,
    ) is Ok by {
        assert(readable[j] == files[j]);
    }
    lemma_run_of_readable_files(tables, readable);
    assert(files.take(i + 1).drop_last() =~= readable);
    assert(files.take(i + 1).last() == files[i]);
    lemma_run_fails(tables, files, i + 1, e);
}

/// Finds the key of each file that holds notes.
pub fn process(analyzer: &Analyzer, files: &Vec<SourceFile>) -> (res: Result<Vec<JsonKey>, NotesError>)
    requires
        analyzer.wf(),
    ensures
        match res {
            Ok(found) => run(analyzer@, files@) == Ok::<Seq<KeyRecord>, NotesError>(records(found@)),
            Err(e) => run(analyzer@, files@) == Err::<Seq<KeyRecord>, NotesError>(e),
        },
{
    let mut result: Vec<JsonKey> = Vec::new();
    let mut i: usize = 0;
    assert(records(result@) =~= Seq::empty());
    assert(files@.take(0).len() == 0);
    while i < files.len()
        invariant
            analyzer.wf(),
            i <= files.len(),
            run(analyzer@, files@.take(i as int)) == Ok::<Seq<KeyRecord>, NotesError>(records(result@)),
        decreases files.len() - i,
    {
        assert(files@.take(i as int + 1).drop_last() =~= files@.take(i as int));
        let ghost old_records = records(result@);
        match get_normalized_notes(&files[i].bytes) {
            Err(e) => {
                proof {
                    lemma_run_fails(analyzer@, files@, i as int + 1, e);
                }
                return Err(e);
            },
            Ok(notes) => {
                if notes.len() > 0 {
                    match analyzer.analyze(&notes) {
                        Ok(key) => {
                            result.push(
                                JsonKey { key, name: key_name(key), file_name: files[i].file_name.clone() },
                            );
                            assert(records(result@) =~= old_records.push(result@.last()@));
                        },
                        Err(_) => {
                            assert(false);
                        },
                    }
                }
            },
        }
        i += 1;
    }
    assert(files@.take(files.len() as int) =~= files@);
    Ok(result)
}

/// A run that has failed on its first `n` files fails in the same way on all of them.
proof fn lemma_run_fails(tables: Tables, files: Seq<SourceFile>, n: int, e: NotesError)
    requires
        0 <= n <= files.len(),
        run(tables, files.take(n)) == Err::<Seq<KeyRecord>, NotesError>(e),
    ensures
        run(tables, files) == Err::<Seq<KeyRecord>, NotesError>(e),
    decreases files.len() - n,
{
    if n < files.len() {
        assert(files.take(n + 1).drop_last() =~= files.take(n));
        lemma_run_fails(tables, files, n + 1, e);
    } else {
        assert(files.take(n) =~= files);
    }
}

} // verus!
