//! Notes of a project: the active memory and the archive.
use vstd::prelude::*;

use crate::error::{error, error_view, unit_view, AppError, ErrorView};
use crate::text::{byte_len, from_chars, is_less, text_less, to_chars, utf8_len};

verus! {

pub const MEMORY_KEY_MAX_BYTES: usize = 256;

pub const MEMORY_VALUE_MAX_BYTES: usize = 65_536;

pub const MEMORY_MAX_ENTRIES: usize = 64;

pub const MEMORY_MAX_TOTAL_BYTES: usize = 65_536;

pub const MEMORY_ARCHIVE_VALUE_MAX_BYTES: usize = 262_144;

pub const MEMORY_ARCHIVE_MAX_ENTRIES: usize = 4096;

pub const MEMORY_ARCHIVE_MAX_TOTAL_BYTES: usize = 16_777_216;

pub const MEMORY_RECALL_MAX_ENTRIES: usize = 128;

pub const MEMORY_RECALL_MAX_BYTES: usize = 1_048_576;

/// A stored note.
pub struct Note {
    pub key: String,
    pub value: String,
    pub updated_at: String,
}

pub struct NoteView {
    pub key: Seq<char>,
    pub value: Seq<char>,
    pub updated_at: Seq<char>,
}

impl View for Note {
    type V = NoteView;

    open spec fn view(&self) -> NoteView {
        NoteView { key: self.key@, value: self.value@, updated_at: self.updated_at@ }
    }
}

/// A note as it is shown.
pub struct MemoryRecord {
    pub key: String,
    pub value: String,
}

pub struct RecordView {
    pub key: Seq<char>,
    pub value: Seq<char>,
}

impl View for MemoryRecord {
    type V = RecordView;

    open spec fn view(&self) -> RecordView {
        RecordView { key: self.key@, value: self.value@ }
    }
}

/// A run of notes in key order, and where the next one starts.
pub struct MemoryPage {
    pub notes: Vec<MemoryRecord>,
    pub total: usize,
    pub offset: usize,
    pub truncated: bool,
    pub next_offset: Option<usize>,
}

pub struct PageView {
    pub notes: Seq<RecordView>,
    pub total: nat,
    pub offset: nat,
    pub truncated: bool,
    pub next_offset: Option<nat>,
}

impl View for MemoryPage {
    type V = PageView;

    open spec fn view(&self) -> PageView {
        PageView {
            notes: self.notes@.map_values(|note: MemoryRecord| note@),
            total: self.total as nat,
            offset: self.offset as nat,
            truncated: self.truncated,
            next_offset: match self.next_offset {
                Some(next) => Some(next as nat),
                None => None,
            },
        }
    }
}

pub open spec fn notes_view(notes: Seq<Note>) -> Seq<NoteView> {
    notes.map_values(|note: Note| note@)
}

/// Keys ascend, so none occurs twice.
pub open spec fn notes_sorted(notes: Seq<NoteView>) -> bool {
    forall|i: int, j: int|
        0 <= i < j < notes.len() ==> text_less(
            (#[trigger] notes[i]).key,
            (#[trigger] notes[j]).key,
        )
}

pub open spec fn note_bytes(note: NoteView) -> nat {
    utf8_len(note.key) + utf8_len(note.value)
}

/// Bytes of all keys and values.
pub open spec fn total_bytes(notes: Seq<NoteView>) -> nat
    decreases notes.len(),
{
    if notes.len() == 0 {
        0
    } else {
        total_bytes(notes.drop_last()) + note_bytes(notes.last())
    }
}

/// Where the note with this key stands.
pub open spec fn note_index(notes: Seq<NoteView>, key: Seq<char>) -> Option<int>
    decreases notes.len(),
{
    if notes.len() == 0 {
        None
    } else {
        match note_index(notes.drop_last(), key) {
            Some(i) => Some(i),
            None => if notes.last().key == key {
                Some(notes.len() - 1)
            } else {
                None
            },
        }
    }
}

pub open spec fn note_value(notes: Seq<NoteView>, key: Seq<char>) -> Option<Seq<char>> {
    match note_index(notes, key) {
        Some(i) => Some(notes[i].value),
        None => None,
    }
}

/// How many notes stand before the place of a key.
pub open spec fn note_place(notes: Seq<NoteView>, key: Seq<char>) -> int
    decreases notes.len(),
{
    if notes.len() == 0 || !text_less(notes[0].key, key) {
        0
    } else {
        1 + note_place(notes.skip(1), key)
    }
}

/// The notes after a note was written.
pub open spec fn put_note(notes: Seq<NoteView>, note: NoteView) -> Seq<NoteView> {
    match note_index(notes, note.key) {
        Some(i) => notes.update(i, note),
        None => notes.insert(note_place(notes, note.key), note),
    }
}

/// The notes after the one with this key was taken out.
pub open spec fn drop_note(notes: Seq<NoteView>, key: Seq<char>) -> Seq<NoteView> {
    match note_index(notes, key) {
        Some(i) => notes.remove(i),
        None => notes,
    }
}

pub proof fn lemma_note_index(notes: Seq<NoteView>, key: Seq<char>)
    ensures
        match note_index(notes, key) {
            Some(i) => 0 <= i < notes.len() && notes[i].key == key && forall|j: int|
                0 <= j < i ==> (#[trigger] notes[j]).key != key,
            None => forall|j: int| 0 <= j < notes.len() ==> (#[trigger] notes[j]).key != key,
        },
    decreases notes.len(),
{
    if notes.len() > 0 {
        let rest = notes.drop_last();
        lemma_note_index(rest, key);
        assert forall|j: int| 0 <= j < rest.len() implies #[trigger] notes[j] == rest[j] by {}
    }
}

pub proof fn lemma_note_place(notes: Seq<NoteView>, key: Seq<char>)
    ensures
        0 <= note_place(notes, key) <= notes.len(),
        forall|j: int|
            0 <= j < note_place(notes, key) ==> text_less((#[trigger] notes[j]).key, key),
        note_place(notes, key) < notes.len() ==> !text_less(
            notes[note_place(notes, key)].key,
            key,
        ),
    decreases notes.len(),
{
    if notes.len() > 0 && text_less(notes[0].key, key) {
        let rest = notes.skip(1);
        lemma_note_place(rest, key);
        assert forall|j: int| 0 <= j < note_place(notes, key) implies text_less(
            (#[trigger] notes[j]).key,
            key,
        ) by {
            if j > 0 {
                assert(rest[j - 1] == notes[j]);
            }
        }
    }
}

/// Why a key is not accepted.
pub open spec fn key_refusal(key: Seq<char>) -> Option<ErrorView> {
    if key.len() == 0 {
        Some(error_view("INVALID_INPUT", "memory key must not be empty"))
    } else if utf8_len(key) > MEMORY_KEY_MAX_BYTES {
        Some(error_view("INPUT_TOO_LARGE", "memory key exceeds 256 bytes"))
    } else {
        None
    }
}

pub open spec fn archive_value_refusal(value: Seq<char>) -> Option<ErrorView> {
    if utf8_len(value) > MEMORY_ARCHIVE_VALUE_MAX_BYTES {
        Some(error_view("INPUT_TOO_LARGE", "archive memory value exceeds 262144 bytes"))
    } else {
        None
    }
}

/// Why a note may not be written to the active memory.
pub open spec fn set_refusal(notes: Seq<NoteView>, note: NoteView) -> Option<ErrorView> {
    if key_refusal(note.key) is Some {
        key_refusal(note.key)
    } else if utf8_len(note.value) > MEMORY_VALUE_MAX_BYTES {
        Some(error_view("INPUT_TOO_LARGE", "memory value exceeds 65536 bytes"))
    } else if note_index(notes, note.key) is None && notes.len() >= MEMORY_MAX_ENTRIES {
        Some(
            error_view(
                "RESOURCE_LIMIT_EXCEEDED",
                "active project memory is limited to 64 entries; archive durable history with remember scope=archive",
            ),
        )
    } else if total_bytes(put_note(notes, note)) > MEMORY_MAX_TOTAL_BYTES {
        Some(
            error_view(
                "RESOURCE_LIMIT_EXCEEDED",
                "active project memory exceeds the 65536-byte aggregate limit; archive durable history with remember scope=archive",
            ),
        )
    } else {
        None
    }
}

/// Why a note may not be written to the archive.
pub open spec fn archive_refusal(notes: Seq<NoteView>, note: NoteView) -> Option<ErrorView> {
    if key_refusal(note.key) is Some {
        key_refusal(note.key)
    } else if archive_value_refusal(note.value) is Some {
        archive_value_refusal(note.value)
    } else if note_index(notes, note.key) is None && notes.len() >= MEMORY_ARCHIVE_MAX_ENTRIES {
        Some(
            error_view("RESOURCE_LIMIT_EXCEEDED", "project archive is limited to 4096 entries"),
        )
    } else if total_bytes(put_note(notes, note)) > MEMORY_ARCHIVE_MAX_TOTAL_BYTES {
        Some(
            error_view(
                "RESOURCE_LIMIT_EXCEEDED",
                "project archive exceeds the 16777216-byte aggregate limit",
            ),
        )
    } else {
        None
    }
}

pub fn input_too_large(message: &str) -> (e: AppError)
    ensures
        e@ == error_view("INPUT_TOO_LARGE", message),
{
    error("INPUT_TOO_LARGE", message)
}

pub fn resource_limit(message: &str) -> (e: AppError)
    ensures
        e@ == error_view("RESOURCE_LIMIT_EXCEEDED", message),
{
    error("RESOURCE_LIMIT_EXCEEDED", message)
}

pub fn validate_memory_key(key: &str) -> (result: Result<(), AppError>)
    ensures
        unit_view(result) == match key_refusal(key@) {
            Some(e) => Err(e),
            None => Ok(()),
        },
{
    if key.is_empty() {
        return Err(error("INVALID_INPUT", "memory key must not be empty"));
    }
    if byte_len(key) > MEMORY_KEY_MAX_BYTES {
        return Err(input_too_large("memory key exceeds 256 bytes"));
    }
    Ok(())
}

pub fn validate_archive_value(value: &str) -> (result: Result<(), AppError>)
    ensures
        unit_view(result) == match archive_value_refusal(value@) {
            Some(e) => Err(e),
            None => Ok(()),
        },
{
    if byte_len(value) > MEMORY_ARCHIVE_VALUE_MAX_BYTES {
        return Err(input_too_large("archive memory value exceeds 262144 bytes"));
    }
    Ok(())
}

pub fn find_note(notes: &Vec<Note>, key: &str) -> (found: Option<usize>)
    ensures
        match found {
            Some(i) => note_index(notes_view(notes@), key@) == Some(i as int) && i < notes@.len(),
            None => note_index(notes_view(notes@), key@) is None,
        },
{
    let ghost rows = notes_view(notes@);
    let mut i: usize = 0;
    while i < notes.len()
        invariant
            i <= notes@.len(),
            rows == notes_view(notes@),
            note_index(rows.take(i as int), key@) is None,
        decreases notes.len() - i,
    {
        proof {
            assert(rows.take(i + 1).drop_last() =~= rows.take(i as int));
        }
        if notes[i].key.as_str().eq(key) {
            proof {
                lemma_index_of_prefix(rows, i + 1, key@);
            }
            return Some(i);
        }
        i += 1;
    }
    proof {
        assert(rows.take(i as int) =~= rows);
    }
    None
}

proof fn lemma_index_of_prefix(notes: Seq<NoteView>, n: int, key: Seq<char>)
    requires
        0 <= n <= notes.len(),
        note_index(notes.take(n), key) is Some,
    ensures
        note_index(notes, key) == note_index(notes.take(n), key),
    decreases notes.len() - n,
{
    if n == notes.len() {
        assert(notes.take(n) =~= notes);
    } else {
        assert(notes.take(n + 1).drop_last() =~= notes.take(n));
        lemma_index_of_prefix(notes, n + 1, key);
    }
}

fn find_place(notes: &Vec<Note>, key: &str) -> (place: usize)
    ensures
        place == note_place(notes_view(notes@), key@),
        place <= notes@.len(),
{
    let ghost rows = notes_view(notes@);
    let mut i: usize = 0;
    proof {
        assert(rows.skip(0) =~= rows);
    }
    while i < notes.len() && is_less(notes[i].key.as_str(), key)
        invariant
            i <= notes@.len(),
            rows == notes_view(notes@),
            note_place(rows, key@) == i + note_place(rows.skip(i as int), key@),
        decreases notes.len() - i,
    {
        proof {
            assert(rows.skip(i as int).skip(1) =~= rows.skip(i + 1));
        }
        i += 1;
    }
    i
}

/// Bytes of all notes but the one at `skipped`, as far as they can be counted.
fn bytes_without(notes: &Vec<Note>, skipped: Option<usize>) -> (n: usize)
    requires
        skipped is Some ==> skipped->0 < notes@.len(),
    ensures
        ({
            let rows = notes_view(notes@);
            let left = match skipped {
                Some(i) => rows.remove(i as int),
                None => rows,
            };
            n == if total_bytes(left) <= usize::MAX {
                total_bytes(left) as int
            } else {
                usize::MAX as int
            }
        }),
{
    let ghost rows = notes_view(notes@);
    let ghost left = match skipped {
        Some(i) => rows.remove(i as int),
        None => rows,
    };
    let mut n: usize = 0;
    let mut i: usize = 0;
    let ghost mut counted: int = 0;
    while i < notes.len()
        invariant
            i <= notes@.len(),
            rows == notes_view(notes@),
            left == match skipped {
                Some(k) => rows.remove(k as int),
                None => rows,
            },
            skipped is Some ==> skipped->0 < notes@.len(),
            counted == if skipped is Some && skipped->0 < i {
                i - 1
            } else {
                i as int
            },
            n == if total_bytes(left.take(counted)) <= usize::MAX {
                total_bytes(left.take(counted)) as int
            } else {
                usize::MAX as int
            },
        decreases notes.len() - i,
    {
        let skip = match skipped {
            Some(k) => k == i,
            None => false,
        };
        if !skip {
            proof {
                assert(left[counted] == rows[i as int]);
                assert(left.take(counted + 1).drop_last() =~= left.take(counted));
                assert(left.take(counted + 1).last() == rows[i as int]);
                counted = counted + 1;
            }
            n = n.saturating_add(byte_len(notes[i].key.as_str())).saturating_add(
                byte_len(notes[i].value.as_str()),
            );
        }
        i += 1;
    }
    proof {
        assert(left.take(counted) =~= left);
    }
    n
}

/// Total after a note is put in place of another, or added.
pub proof fn lemma_total_put(notes: Seq<NoteView>, note: NoteView)
    ensures
        total_bytes(put_note(notes, note)) == note_bytes(note) + match note_index(notes, note.key) {
            Some(i) => total_bytes(notes.remove(i)),
            None => total_bytes(notes),
        },
{
    lemma_note_index(notes, note.key);
    lemma_note_place(notes, note.key);
    match note_index(notes, note.key) {
        Some(i) => {
            assert(notes.update(i, note) =~= notes.remove(i).insert(i, note));
            lemma_total_insert(notes.remove(i), i, note);
        },
        None => {
            lemma_total_insert(notes, note_place(notes, note.key), note);
        },
    }
}

pub proof fn lemma_total_insert(notes: Seq<NoteView>, i: int, note: NoteView)
    requires
        0 <= i <= notes.len(),
    ensures
        total_bytes(notes.insert(i, note)) == total_bytes(notes) + note_bytes(note),
    decreases notes.len(),
{
    let after = notes.insert(i, note);
    if i == notes.len() {
        assert(after.drop_last() =~= notes);
    } else {
        assert(after.drop_last() =~= notes.drop_last().insert(i, note));
        assert(after.last() == notes.last());
        lemma_total_insert(notes.drop_last(), i, note);
    }
}

/// Bytes of a table once a note is written to it, as far as they can be
/// counted.
pub(crate) fn bytes_after_put(
    notes: &Vec<Note>,
    at: Option<usize>,
    key: &str,
    value: &str,
    Ghost(now): Ghost<Seq<char>>,
) -> (n: usize)
    requires
        match at {
            Some(i) => note_index(notes_view(notes@), key@) == Some(i as int) && i < notes@.len(),
            None => note_index(notes_view(notes@), key@) is None,
        },
    ensures
        ({
            let note = NoteView { key: key@, value: value@, updated_at: now };
            let total = total_bytes(put_note(notes_view(notes@), note));
            n == if total <= usize::MAX {
                total as int
            } else {
                usize::MAX as int
            }
        }),
{
    proof {
        lemma_total_put(
            notes_view(notes@),
            NoteView { key: key@, value: value@, updated_at: now },
        );
    }
    bytes_without(notes, at).saturating_add(byte_len(key)).saturating_add(byte_len(value))
}

/// Write a note into a table.
pub(crate) fn write_note(
    notes: &mut Vec<Note>,
    at: Option<usize>,
    key: &str,
    value: &str,
    now: &str,
)
    requires
        match at {
            Some(i) => note_index(notes_view(old(notes)@), key@) == Some(i as int) && i < old(
                notes,
            )@.len(),
            None => note_index(notes_view(old(notes)@), key@) is None,
        },
    ensures
        notes_view(final(notes)@) == put_note(
            notes_view(old(notes)@),
            NoteView { key: key@, value: value@, updated_at: now@ },
        ),
{
    let ghost before = notes_view(notes@);
    let note = Note {
        key: key.to_owned(),
        value: value.to_owned(),
        updated_at: now.to_owned(),
    };
    let ghost shown = note@;
    match at {
        Some(i) => {
            notes.set(i, note);
            proof {
                assert(notes_view(notes@) =~= before.update(i as int, shown));
            }
        },
        None => {
            let place = find_place(notes, key);
            notes.insert(place, note);
            proof {
                assert(notes_view(notes@) =~= before.insert(place as int, shown));
            }
        },
    }
}

/// Take a note out of a table; whether there was one.
pub(crate) fn erase_note(notes: &mut Vec<Note>, key: &str) -> (found: bool)
    ensures
        found == (note_index(notes_view(old(notes)@), key@) is Some),
        notes_view(final(notes)@) == drop_note(notes_view(old(notes)@), key@),
{
    let ghost before = notes_view(notes@);
    match find_note(notes, key) {
        Some(i) => {
            notes.remove(i);
            proof {
                assert(notes_view(notes@) =~= before.remove(i as int));
            }
            true
        },
        None => false,
    }
}

/// What the stored text keeps of a text when its first `count` characters are
/// asked for: text ends where a NUL character stands.
pub open spec fn stored_prefix(text: Seq<char>, count: int) -> Seq<char>
    decreases text.len(),
{
    if count <= 0 || text.len() == 0 || text[0] == '\0' {
        Seq::empty()
    } else {
        seq![text[0]] + stored_prefix(text.skip(1), count - 1)
    }
}

pub(crate) fn take_stored_prefix(text: &str, count: usize) -> (prefix: String)
    ensures
        prefix@ == stored_prefix(text@, count as int),
{
    let chars = to_chars(text);
    let mut i: usize = 0;
    proof {
        assert(chars@.skip(0) =~= text@);
        assert(chars@.take(0) + stored_prefix(text@, count as int) =~= stored_prefix(
            text@,
            count as int,
        ));
    }
    while i < count && i < chars.len() && chars[i] != '\0'
        invariant
            i <= count,
            i <= chars@.len(),
            stored_prefix(text@, count as int) == chars@.take(i as int) + stored_prefix(
                chars@.skip(i as int),
                count - i,
            ),
        decreases chars.len() - i,
    {
        proof {
            let rest = stored_prefix(chars@.skip(i + 1), count - i - 1);
            assert(chars@.skip(i as int).skip(1) =~= chars@.skip(i + 1));
            assert(chars@.take(i as int) + (seq![chars@[i as int]] + rest) =~= chars@.take(i + 1)
                + rest);
        }
        i += 1;
    }
    proof {
        assert(stored_prefix(chars@.skip(i as int), count - i) =~= Seq::<char>::empty());
        assert(chars@.take(i as int) + Seq::<char>::empty() =~= chars@.subrange(0, i as int));
    }
    from_chars(&chars, 0, i)
}

}
