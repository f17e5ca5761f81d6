//! Reading notes back: snapshot hashes and pages in key order.
use vstd::prelude::*;
use vstd::utf8::encode_utf8;

use crate::digest::{be64, hex, hex_text, push_be64, push_text, sha256, sha256_of};
use crate::error::{error, error_view, AppError, ErrorView};
use crate::storage::notes::{
    archive_value_refusal, key_refusal, notes_view, resource_limit, stored_prefix,
    take_stored_prefix, validate_archive_value, validate_memory_key, MemoryPage, MemoryRecord, Note,
    NoteView, PageView, RecordView, MEMORY_KEY_MAX_BYTES, MEMORY_RECALL_MAX_BYTES,
    MEMORY_RECALL_MAX_ENTRIES, MEMORY_VALUE_MAX_BYTES,
};
use crate::text::{byte_len, opt_same, opt_str_view, utf8_len};

verus! {

/// Which notes of a project.
#[derive(Clone, Copy, PartialEq, Eq, Structural)]
pub enum Shelf {
    Active,
    Archive,
}

/// Why a stored note cannot be hashed.
pub open spec fn unhashable(note: NoteView, shelf: Shelf) -> Option<ErrorView> {
    if key_refusal(note.key) is Some {
        key_refusal(note.key)
    } else if shelf == Shelf::Archive {
        archive_value_refusal(note.value)
    } else if utf8_len(note.value) > MEMORY_VALUE_MAX_BYTES {
        Some(
            error_view(
                "RESOURCE_LIMIT_EXCEEDED",
                "stored memory value exceeds the current safe hashing limit",
            ),
        )
    } else {
        None
    }
}

/// The first reason why these notes cannot be hashed.
pub open spec fn hash_refusal(notes: Seq<NoteView>, shelf: Shelf) -> Option<ErrorView>
    decreases notes.len(),
{
    if notes.len() == 0 {
        None
    } else if unhashable(notes[0], shelf) is Some {
        unhashable(notes[0], shelf)
    } else {
        hash_refusal(notes.skip(1), shelf)
    }
}

pub open spec fn hash_label(shelf: Shelf) -> Seq<char> {
    match shelf {
        Shelf::Active => "codexbridge-memory-v1\0"@,
        Shelf::Archive => "codexbridge-memory-archive-v1\0"@,
    }
}

/// Key and value of a note, each behind its length.
pub open spec fn hashed_note(note: NoteView) -> Seq<u8> {
    be64(utf8_len(note.key)) + encode_utf8(note.key) + be64(utf8_len(note.value)) + encode_utf8(
        note.value,
    )
}

pub open spec fn hashed_notes(notes: Seq<NoteView>) -> Seq<u8>
    decreases notes.len(),
{
    if notes.len() == 0 {
        Seq::empty()
    } else {
        hashed_note(notes[0]) + hashed_notes(notes.skip(1))
    }
}

/// What a set of notes is known by: a digest of all keys and values, and of
/// nothing else.
pub open spec fn snapshot_hash(notes: Seq<NoteView>, shelf: Shelf) -> Seq<char> {
    hex(sha256_of(encode_utf8(hash_label(shelf)) + hashed_notes(notes)))
}

pub open spec fn hash_answer(notes: Seq<NoteView>, shelf: Shelf) -> Result<Seq<char>, ErrorView> {
    match hash_refusal(notes, shelf) {
        Some(refused) => Err(refused),
        None => Ok(snapshot_hash(notes, shelf)),
    }
}

pub open spec fn text_answer(result: Result<String, AppError>) -> Result<Seq<char>, ErrorView> {
    match result {
        Ok(text) => Ok(text@),
        Err(e) => Err(e@),
    }
}

pub(crate) fn check_hashable(note: &Note, shelf: Shelf) -> (result: Result<(), AppError>)
    ensures
        match result {
            Ok(_) => unhashable(note@, shelf) is None,
            Err(e) => unhashable(note@, shelf) == Some(e@),
        },
{
    if let Err(e) = validate_memory_key(note.key.as_str()) {
        return Err(e);
    }
    match shelf {
        Shelf::Archive => validate_archive_value(note.value.as_str()),
        Shelf::Active => {
            if byte_len(note.value.as_str()) > MEMORY_VALUE_MAX_BYTES {
                Err(resource_limit("stored memory value exceeds the current safe hashing limit"))
            } else {
                Ok(())
            }
        },
    }
}

pub(crate) fn push_note(data: &mut Vec<u8>, note: &Note)
    ensures
        final(data)@ == old(data)@ + hashed_note(note@),
{
    let ghost before = data@;
    push_be64(data, byte_len(note.key.as_str()) as u64);
    push_text(data, note.key.as_str());
    push_be64(data, byte_len(note.value.as_str()) as u64);
    push_text(data, note.value.as_str());
    proof {
        assert(data@ =~= before + hashed_note(note@));
    }
}

pub(crate) fn start_hash(shelf: Shelf) -> (data: Vec<u8>)
    ensures
        data@ == encode_utf8(hash_label(shelf)),
{
    let mut data: Vec<u8> = Vec::new();
    match shelf {
        Shelf::Active => push_text(&mut data, "codexbridge-memory-v1\0"),
        Shelf::Archive => push_text(&mut data, "codexbridge-memory-archive-v1\0"),
    }
    proof {
        assert(data@ =~= encode_utf8(hash_label(shelf)));
    }
    data
}

pub(crate) fn hash_notes(notes: &Vec<Note>, shelf: Shelf) -> (result: Result<String, AppError>)
    ensures
        text_answer(result) == hash_answer(notes_view(notes@), shelf),
{
    let ghost rows = notes_view(notes@);
    let mut data = start_hash(shelf);
    let mut i: usize = 0;
    proof {
        assert(rows.skip(0) =~= rows);
    }
    while i < notes.len()
        invariant
            i <= notes@.len(),
            rows == notes_view(notes@),
            hash_refusal(rows, shelf) == hash_refusal(rows.skip(i as int), shelf),
            encode_utf8(hash_label(shelf)) + hashed_notes(rows) == data@ + hashed_notes(
                rows.skip(i as int),
            ),
        decreases notes.len() - i,
    {
        if let Err(e) = check_hashable(&notes[i], shelf) {
            return Err(e);
        }
        let ghost before = data@;
        push_note(&mut data, &notes[i]);
        proof {
            assert(rows.skip(i as int).skip(1) =~= rows.skip(i + 1));
            let rest = hashed_notes(rows.skip(i + 1));
            assert(before + (hashed_note(rows[i as int]) + rest) =~= data@ + rest);
        }
        i += 1;
    }
    proof {
        assert(data@ + hashed_notes(rows.skip(i as int)) =~= data@);
    }
    Ok(hex_text(&sha256(&data)))
}

/// A note as a page shows it.
pub open spec fn shown_note(note: NoteView, shelf: Shelf) -> RecordView {
    match shelf {
        Shelf::Archive => RecordView { key: note.key, value: note.value },
        Shelf::Active => RecordView {
            key: stored_prefix(note.key, MEMORY_KEY_MAX_BYTES + 1),
            value: stored_prefix(note.value, MEMORY_VALUE_MAX_BYTES + 1),
        },
    }
}

pub open spec fn shown_notes(notes: Seq<NoteView>, shelf: Shelf) -> Seq<RecordView> {
    notes.map_values(|note: NoteView| shown_note(note, shelf))
}

pub open spec fn record_bytes(note: RecordView) -> nat {
    utf8_len(note.key) + utf8_len(note.value)
}

/// How many notes from the first on fit into `room` bytes, `requested` at most.
pub open spec fn page_len(rows: Seq<RecordView>, requested: int, room: int) -> int
    decreases rows.len(),
{
    if rows.len() == 0 || requested <= 0 || record_bytes(rows[0]) > room {
        0
    } else {
        1 + page_len(rows.skip(1), requested - 1, room - record_bytes(rows[0]))
    }
}

/// The page of notes that starts at `offset`.
pub open spec fn page(notes: Seq<NoteView>, offset: nat, requested: int, shelf: Shelf) -> PageView {
    let rows = shown_notes(notes, shelf).skip(offset as int);
    let n = page_len(rows, requested, MEMORY_RECALL_MAX_BYTES as int);
    let more = offset + n < notes.len();
    PageView {
        notes: rows.take(n),
        total: notes.len(),
        offset,
        truncated: more,
        next_offset: if more {
            Some((offset + n) as nat)
        } else {
            None
        },
    }
}

pub open spec fn page_limit(requested: int) -> int {
    if requested < MEMORY_RECALL_MAX_ENTRIES {
        requested
    } else {
        MEMORY_RECALL_MAX_ENTRIES as int
    }
}

/// Answer to a request for a page: the page and the hash of all the notes. With
/// the hash of an earlier page, a request fails once the notes have changed.
pub open spec fn recall(
    notes: Seq<NoteView>,
    offset: nat,
    requested: int,
    expected_hash: Option<Seq<char>>,
    shelf: Shelf,
) -> Result<(PageView, Seq<char>), ErrorView> {
    if page_limit(requested) == 0 {
        Err(error_view("INVALID_INPUT", "memory page size must be positive"))
    } else {
        match hash_answer(notes, shelf) {
            Err(refused) => Err(refused),
            Ok(hash) => if expected_hash is Some && expected_hash != Some(hash) {
                Err(
                    match shelf {
                        Shelf::Active => error_view(
                            "PAGINATION_STALE",
                            "project memory changed during pagination; restart recall from offset=0",
                        ),
                        Shelf::Archive => error_view(
                            "PAGINATION_STALE",
                            "project archive changed during pagination; restart recall from offset=0",
                        ),
                    },
                )
            } else if offset > notes.len() {
                Err(
                    match shelf {
                        Shelf::Active => error_view(
                            "INVALID_INPUT",
                            "memory offset is outside the available notes",
                        ),
                        Shelf::Archive => error_view(
                            "INVALID_INPUT",
                            "memory offset is outside the available archive notes",
                        ),
                    },
                )
            } else {
                Ok((page(notes, offset, page_limit(requested), shelf), hash))
            },
        }
    }
}

pub open spec fn page_answer(result: Result<(MemoryPage, String), AppError>) -> Result<
    (PageView, Seq<char>),
    ErrorView,
> {
    match result {
        Ok((page, hash)) => Ok((page@, hash@)),
        Err(e) => Err(e@),
    }
}

fn show_note(note: &Note, shelf: Shelf) -> (shown: MemoryRecord)
    ensures
        shown@ == shown_note(note@, shelf),
{
    match shelf {
        Shelf::Archive => MemoryRecord { key: note.key.clone(), value: note.value.clone() },
        Shelf::Active => MemoryRecord {
            key: take_stored_prefix(note.key.as_str(), MEMORY_KEY_MAX_BYTES + 1),
            value: take_stored_prefix(note.value.as_str(), MEMORY_VALUE_MAX_BYTES + 1),
        },
    }
}

fn cut_page(notes: &Vec<Note>, offset: usize, requested: usize, shelf: Shelf) -> (cut: MemoryPage)
    requires
        offset <= notes@.len(),
    ensures
        cut@ == page(notes_view(notes@), offset as nat, requested as int, shelf),
{
    let ghost rows = shown_notes(notes_view(notes@), shelf).skip(offset as int);
    let ghost full = page_len(rows, requested as int, MEMORY_RECALL_MAX_BYTES as int);
    let mut shown: Vec<MemoryRecord> = Vec::new();
    let mut room: usize = MEMORY_RECALL_MAX_BYTES;
    let mut fits = true;
    let total = notes.len();
    proof {
        assert(rows.skip(0) =~= rows);
        lemma_page_len(rows, requested as int, MEMORY_RECALL_MAX_BYTES as int);
    }
    while fits && shown.len() < requested && shown.len() < total - offset
        invariant
            total == notes@.len(),
            offset + shown@.len() <= notes@.len(),
            room <= MEMORY_RECALL_MAX_BYTES,
            shown@.len() <= requested,
            rows == shown_notes(notes_view(notes@), shelf).skip(offset as int),
            shown@.map_values(|note: MemoryRecord| note@) == rows.take(shown@.len() as int),
            fits ==> full == shown@.len() + page_len(
                rows.skip(shown@.len() as int),
                requested - shown@.len(),
                room as int,
            ),
            !fits ==> full == shown@.len(),
        decreases total - shown.len() + (if fits {
                1int
            } else {
                0int
            }),
    {
        let ghost k = shown@.len() as int;
        let note = show_note(&notes[offset + shown.len()], shelf);
        let bytes = byte_len(note.key.as_str()).saturating_add(byte_len(note.value.as_str()));
        proof {
            assert(rows.skip(k)[0] == note@);
            assert(rows.skip(k).skip(1) =~= rows.skip(k + 1));
        }
        if bytes > room {
            fits = false;
        } else {
            room = room - bytes;
            let ghost shown_one = note@;
            shown.push(note);
            proof {
                assert(rows.take(k + 1) =~= rows.take(k).push(rows[k]));
                assert(shown@.map_values(|note: MemoryRecord| note@) =~= rows.take(k).push(
                    shown_one,
                ));
            }
        }
    }
    let next = offset + shown.len();
    let more = next < total;
    MemoryPage {
        notes: shown,
        total,
        offset,
        truncated: more,
        next_offset: if more {
            Some(next)
        } else {
            None
        },
    }
}

pub proof fn lemma_page_len(rows: Seq<RecordView>, requested: int, room: int)
    ensures
        0 <= page_len(rows, requested, room) <= rows.len(),
        requested >= 0 ==> page_len(rows, requested, room) <= requested,
    decreases rows.len(),
{
    if !(rows.len() == 0 || requested <= 0 || record_bytes(rows[0]) > room) {
        lemma_page_len(rows.skip(1), requested - 1, room - record_bytes(rows[0]));
    }
}

pub(crate) fn recall_page(
    notes: &Vec<Note>,
    offset: usize,
    requested: usize,
    expected_hash: Option<&str>,
    shelf: Shelf,
) -> (result: Result<(MemoryPage, String), AppError>)
    ensures
        page_answer(result) == recall(
            notes_view(notes@),
            offset as nat,
            requested as int,
            opt_str_view(expected_hash),
            shelf,
        ),
{
    let requested = if requested < MEMORY_RECALL_MAX_ENTRIES {
        requested
    } else {
        MEMORY_RECALL_MAX_ENTRIES
    };
    if requested == 0 {
        return Err(error("INVALID_INPUT", "memory page size must be positive"));
    }
    let hash = match hash_notes(notes, shelf) {
        Ok(hash) => hash,
        Err(e) => {
            return Err(e);
        },
    };
    if expected_hash.is_some() && !opt_same(expected_hash, Some(hash.as_str())) {
        return Err(
            match shelf {
                Shelf::Active => error(
                    "PAGINATION_STALE",
                    "project memory changed during pagination; restart recall from offset=0",
                ),
                Shelf::Archive => error(
                    "PAGINATION_STALE",
                    "project archive changed during pagination; restart recall from offset=0",
                ),
            },
        );
    }
    if offset > notes.len() {
        return Err(
            match shelf {
                Shelf::Active => error(
                    "INVALID_INPUT",
                    "memory offset is outside the available notes",
                ),
                Shelf::Archive => error(
                    "INVALID_INPUT",
                    "memory offset is outside the available archive notes",
                ),
            },
        );
    }
    Ok((cut_page(notes, offset, requested, shelf), hash))
}

}
