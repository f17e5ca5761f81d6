//! Bringing a store of an earlier schema up to date: notes over the quotas of
//! the active memory move to the archive, the oldest first.
use vstd::prelude::*;

use crate::error::{AppError, ErrorView};
use crate::storage::note_laws::{dropped_note_is_gone, written_note_is_read_back};
use crate::storage::notes::{
    archive_value_refusal, drop_note, erase_note, find_note, lemma_note_index, lemma_total_insert,
    note_bytes, note_index, note_value, notes_sorted, notes_view, put_note, total_bytes,
    validate_archive_value, write_note, Note, NoteView, MEMORY_MAX_ENTRIES, MEMORY_MAX_TOTAL_BYTES,
    MEMORY_VALUE_MAX_BYTES,
};
use crate::text::{byte_len, is_less, text_less, utf8_len};

verus! {

/// Written later or, at the same time, under the lesser key.
pub open spec fn newer(a: NoteView, b: NoteView) -> bool {
    text_less(b.updated_at, a.updated_at) || (a.updated_at == b.updated_at && text_less(
        a.key,
        b.key,
    ))
}

/// How many notes stand before the place of a note among newer ones.
pub open spec fn age_place(rows: Seq<NoteView>, note: NoteView) -> int
    decreases rows.len(),
{
    if rows.len() == 0 || !newer(rows[0], note) {
        0
    } else {
        1 + age_place(rows.skip(1), note)
    }
}

/// The notes from the newest to the oldest.
pub open spec fn newest_first(notes: Seq<NoteView>) -> Seq<NoteView>
    decreases notes.len(),
{
    if notes.len() == 0 {
        Seq::empty()
    } else {
        let rows = newest_first(notes.drop_last());
        rows.insert(age_place(rows, notes.last()), notes.last())
    }
}

/// Whether a note stays active beside those that were kept before it.
pub open spec fn stays_active(note: NoteView, entries: nat, bytes: nat) -> bool {
    utf8_len(note.value) <= MEMORY_VALUE_MAX_BYTES && entries < MEMORY_MAX_ENTRIES && bytes
        + note_bytes(note) <= MEMORY_MAX_TOTAL_BYTES
}

/// The notes that do not stay active, from the newest on.
pub open spec fn overflow(rows: Seq<NoteView>, entries: nat, bytes: nat) -> Seq<NoteView>
    decreases rows.len(),
{
    if rows.len() == 0 {
        Seq::empty()
    } else if stays_active(rows[0], entries, bytes) {
        overflow(rows.skip(1), entries + 1, bytes + note_bytes(rows[0]))
    } else {
        seq![rows[0]] + overflow(rows.skip(1), entries, bytes)
    }
}

/// The first reason why one of the notes cannot be archived.
pub open spec fn overflow_refusal(moved: Seq<NoteView>) -> Option<ErrorView>
    decreases moved.len(),
{
    if moved.len() == 0 {
        None
    } else if archive_value_refusal(moved[0].value) is Some {
        archive_value_refusal(moved[0].value)
    } else {
        overflow_refusal(moved.skip(1))
    }
}

/// Active notes and archive after some notes moved.
pub open spec fn after_moves(
    memories: Seq<NoteView>,
    archive: Seq<NoteView>,
    moved: Seq<NoteView>,
) -> (Seq<NoteView>, Seq<NoteView>)
    decreases moved.len(),
{
    if moved.len() == 0 {
        (memories, archive)
    } else {
        after_moves(
            drop_note(memories, moved[0].key),
            put_note(archive, moved[0]),
            moved.skip(1),
        )
    }
}

/// What becomes of the notes of a project.
pub open spec fn migrated_notes(memories: Seq<NoteView>, archive: Seq<NoteView>) -> Result<
    (Seq<NoteView>, Seq<NoteView>),
    ErrorView,
> {
    let moved = overflow(newest_first(memories), 0, 0);
    match overflow_refusal(moved) {
        Some(refused) => Err(refused),
        None => Ok(after_moves(memories, archive, moved)),
    }
}

fn is_newer(a: &Note, b: &Note) -> (r: bool)
    ensures
        r == newer(a@, b@),
{
    is_less(b.updated_at.as_str(), a.updated_at.as_str()) || (a.updated_at == b.updated_at
        && is_less(a.key.as_str(), b.key.as_str()))
}

fn copy_note(note: &Note) -> (copied: Note)
    ensures
        copied@ == note@,
{
    Note {
        key: note.key.clone(),
        value: note.value.clone(),
        updated_at: note.updated_at.clone(),
    }
}

fn order_by_age(notes: &Vec<Note>) -> (rows: Vec<Note>)
    ensures
        notes_view(rows@) == newest_first(notes_view(notes@)),
{
    let ghost all = notes_view(notes@);
    let mut rows: Vec<Note> = Vec::new();
    let mut i: usize = 0;
    proof {
        assert(notes_view(rows@) =~= Seq::<NoteView>::empty());
    }
    while i < notes.len()
        invariant
            i <= notes@.len(),
            all == notes_view(notes@),
            notes_view(rows@) == newest_first(all.take(i as int)),
        decreases notes.len() - i,
    {
        let ghost before = notes_view(rows@);
        let mut place: usize = 0;
        proof {
            assert(before.skip(0) =~= before);
            assert(all.take(i + 1).drop_last() =~= all.take(i as int));
        }
        while place < rows.len() && is_newer(&rows[place], &notes[i])
            invariant
                place <= rows@.len(),
                i < notes@.len(),
                all == notes_view(notes@),
                before == notes_view(rows@),
                age_place(before, all[i as int]) == place + age_place(
                    before.skip(place as int),
                    all[i as int],
                ),
            decreases rows.len() - place,
        {
            proof {
                assert(before.skip(place as int).skip(1) =~= before.skip(place + 1));
            }
            place += 1;
        }
        let copied = copy_note(&notes[i]);
        rows.insert(place, copied);
        proof {
            assert(notes_view(rows@) =~= before.insert(place as int, all[i as int]));
        }
        i += 1;
    }
    proof {
        assert(all.take(i as int) =~= all);
    }
    rows
}

/// Move the notes over the quotas to the archive.
pub fn migrate_v4_to_v5(memories: &Vec<Note>, archive: &Vec<Note>) -> (result: Result<
    (Vec<Note>, Vec<Note>),
    AppError,
>)
    ensures
        match (result, migrated_notes(notes_view(memories@), notes_view(archive@))) {
            (Ok((kept, archived)), Ok(expected)) => notes_view(kept@) == expected.0 && notes_view(
                archived@,
            ) == expected.1,
            (Err(e), Err(expected)) => e@ == expected,
            _ => false,
        },
{
    let rows = order_by_age(memories);
    let mut kept = copy_notes(memories);
    let mut archived = copy_notes(archive);
    let ghost all = notes_view(rows@);
    let ghost moved = overflow(all, 0, 0);
    let ghost expected = after_moves(notes_view(memories@), notes_view(archive@), moved);
    let mut entries: usize = 0;
    let mut bytes: usize = 0;
    let mut i: usize = 0;
    let ghost mut left = moved;
    proof {
        assert(all.skip(0) =~= all);
    }
    while i < rows.len()
        invariant
            i <= rows@.len(),
            all == notes_view(rows@),
            entries <= MEMORY_MAX_ENTRIES,
            bytes <= MEMORY_MAX_TOTAL_BYTES,
            left == overflow(all.skip(i as int), entries as nat, bytes as nat),
            overflow_refusal(moved) == overflow_refusal(left),
            moved == overflow(newest_first(notes_view(memories@)), 0, 0),
            expected == after_moves(notes_view(memories@), notes_view(archive@), moved),
            expected == after_moves(notes_view(kept@), notes_view(archived@), left),
        decreases rows.len() - i,
    {
        let note = &rows[i];
        let size = byte_len(note.key.as_str()).saturating_add(byte_len(note.value.as_str()));
        proof {
            assert(all.skip(i as int).skip(1) =~= all.skip(i + 1));
            assert(all.skip(i as int)[0] == note@);
        }
        if byte_len(note.value.as_str()) <= MEMORY_VALUE_MAX_BYTES && entries < MEMORY_MAX_ENTRIES
            && bytes.saturating_add(size) <= MEMORY_MAX_TOTAL_BYTES {
            entries += 1;
            bytes = bytes.saturating_add(size);
        } else {
            proof {
                assert(left.skip(1) =~= overflow(all.skip(i + 1), entries as nat, bytes as nat));
                assert(left[0] == note@);
            }
            if let Err(e) = validate_archive_value(note.value.as_str()) {
                return Err(e);
            }
            let at = find_note(&archived, note.key.as_str());
            write_note(
                &mut archived,
                at,
                note.key.as_str(),
                note.value.as_str(),
                note.updated_at.as_str(),
            );
            let _ = erase_note(&mut kept, note.key.as_str());
            proof {
                left = left.skip(1);
            }
        }
        i += 1;
    }
    Ok((kept, archived))
}

fn copy_notes(notes: &Vec<Note>) -> (copied: Vec<Note>)
    ensures
        notes_view(copied@) == notes_view(notes@),
{
    let mut copied: Vec<Note> = Vec::new();
    let mut i: usize = 0;
    while i < notes.len()
        invariant
            i <= notes@.len(),
            copied@.len() == i,
            forall|j: int| 0 <= j < i ==> (#[trigger] copied@[j])@ == notes@[j]@,
        decreases notes.len() - i,
    {
        copied.push(copy_note(&notes[i]));
        i += 1;
    }
    proof {
        assert(notes_view(copied@) =~= notes_view(notes@));
    }
    copied
}

/// The value of a note, in the active memory or else in the archive.
pub open spec fn value_anywhere(notes: (Seq<NoteView>, Seq<NoteView>), key: Seq<char>) -> Option<
    Seq<char>,
> {
    match note_value(notes.0, key) {
        Some(value) => Some(value),
        None => note_value(notes.1, key),
    }
}

/// Every moved note is one of the active notes, each once.
pub open spec fn moves_valid(memories: Seq<NoteView>, moved: Seq<NoteView>) -> bool {
    &&& forall|i: int|
        0 <= i < moved.len() ==> note_index(memories, (#[trigger] moved[i]).key) is Some
            && memories[note_index(memories, moved[i].key)->0] == moved[i]
    &&& forall|i: int, j: int|
        0 <= i < j < moved.len() ==> (#[trigger] moved[i]).key != (#[trigger] moved[j]).key
}

proof fn lemma_moves_lose_nothing(
    memories: Seq<NoteView>,
    archive: Seq<NoteView>,
    moved: Seq<NoteView>,
    key: Seq<char>,
)
    requires
        notes_sorted(memories),
        moves_valid(memories, moved),
        note_value(memories, key) is Some ==> note_value(archive, key) is None,
    ensures
        value_anywhere(after_moves(memories, archive, moved), key) == value_anywhere(
            (memories, archive),
            key,
        ),
        note_value(after_moves(memories, archive, moved).0, key) is Some ==> note_value(
            after_moves(memories, archive, moved).1,
            key,
        ) is None,
    decreases moved.len(),
{
    if moved.len() > 0 {
        let first = moved[0];
        let rest = moved.skip(1);
        let left = drop_note(memories, first.key);
        let filed = put_note(archive, first);
        lemma_drop_keeps_sorted(memories, first.key);
        assert forall|i: int| 0 <= i < rest.len() implies note_index(
            left,
            (#[trigger] rest[i]).key,
        ) is Some && left[note_index(left, rest[i].key)->0] == rest[i] by {
            assert(rest[i] == moved[i + 1]);
            assert(moved[0].key != moved[i + 1].key);
            lemma_drop_keeps_note(memories, first.key, rest[i].key);
        }
        assert forall|i: int, j: int| 0 <= i < j < rest.len() implies (#[trigger] rest[i]).key != (
        #[trigger] rest[j]).key by {
            assert(rest[i] == moved[i + 1] && rest[j] == moved[j + 1]);
        }
        dropped_note_is_gone(memories, first.key, key);
        written_note_is_read_back(archive, first, key);
        lemma_moves_lose_nothing(left, filed, rest, key);
    }
}

proof fn lemma_drop_keeps_sorted(notes: Seq<NoteView>, key: Seq<char>)
    requires
        notes_sorted(notes),
    ensures
        notes_sorted(drop_note(notes, key)),
{
    lemma_note_index(notes, key);
    if let Some(i) = note_index(notes, key) {
        let after = notes.remove(i);
        assert forall|a: int, b: int| 0 <= a < b < after.len() implies text_less(
            (#[trigger] after[a]).key,
            (#[trigger] after[b]).key,
        ) by {
            let x = if a < i {
                a
            } else {
                a + 1
            };
            let y = if b < i {
                b
            } else {
                b + 1
            };
            assert(after[a] == notes[x] && after[b] == notes[y]);
            assert(text_less(notes[x].key, notes[y].key));
        }
    }
}

proof fn lemma_drop_keeps_note(notes: Seq<NoteView>, key: Seq<char>, other: Seq<char>)
    requires
        notes_sorted(notes),
        other != key,
        note_index(notes, other) is Some,
    ensures
        note_index(drop_note(notes, key), other) is Some,
        drop_note(notes, key)[note_index(drop_note(notes, key), other)->0] == notes[note_index(
            notes,
            other,
        )->0],
{
    let after = drop_note(notes, key);
    lemma_note_index(notes, key);
    lemma_note_index(notes, other);
    lemma_note_index(after, other);
    if let Some(i) = note_index(notes, key) {
        let q = note_index(notes, other)->0;
        let moved = if q < i {
            q
        } else {
            q - 1
        };
        assert(after[moved] == notes[q]);
        let r = note_index(after, other)->0;
        let back = if r < i {
            r
        } else {
            r + 1
        };
        assert(after[r] == notes[back]);
        crate::text::lemma_less_irreflexive(other);
        if back < q {
            assert(text_less(notes[back].key, notes[q].key));
        } else if q < back {
            assert(text_less(notes[q].key, notes[back].key));
        }
    }
}

/// The notes that move are among the notes, in their order.
proof fn lemma_overflow_among(rows: Seq<NoteView>, entries: nat, bytes: nat)
    ensures
        forall|i: int|
            0 <= i < overflow(rows, entries, bytes).len() ==> rows.contains(
                #[trigger] overflow(rows, entries, bytes)[i],
            ),
        (forall|i: int, j: int|
            0 <= i < j < rows.len() ==> (#[trigger] rows[i]).key != (#[trigger] rows[j]).key) ==> (
        forall|i: int, j: int|
            0 <= i < j < overflow(rows, entries, bytes).len() ==> (
            #[trigger] overflow(rows, entries, bytes)[i]).key != (
            #[trigger] overflow(rows, entries, bytes)[j]).key),
    decreases rows.len(),
{
    let moved = overflow(rows, entries, bytes);
    if rows.len() > 0 {
        let rest = rows.skip(1);
        let stays = stays_active(rows[0], entries, bytes);
        let tail = if stays {
            overflow(rest, entries + 1, bytes + note_bytes(rows[0]))
        } else {
            overflow(rest, entries, bytes)
        };
        if stays {
            lemma_overflow_among(rest, entries + 1, bytes + note_bytes(rows[0]));
        } else {
            lemma_overflow_among(rest, entries, bytes);
        }
        assert forall|i: int| 0 <= i < moved.len() implies rows.contains(#[trigger] moved[i]) by {
            if !stays && i == 0 {
                assert(rows[0] == moved[0]);
            } else {
                let k = if stays {
                    i
                } else {
                    i - 1
                };
                assert(moved[i] == tail[k]);
                assert(rest.contains(tail[k]));
                let x = choose|x: int| 0 <= x < rest.len() && rest[x] == tail[k];
                assert(rows[x + 1] == moved[i]);
            }
        }
        if forall|i: int, j: int|
            0 <= i < j < rows.len() ==> (#[trigger] rows[i]).key != (#[trigger] rows[j]).key {
            assert forall|i: int, j: int| 0 <= i < j < rest.len() implies (
            #[trigger] rest[i]).key != (#[trigger] rest[j]).key by {
                assert(rest[i] == rows[i + 1] && rest[j] == rows[j + 1]);
            }
            assert forall|i: int, j: int| 0 <= i < j < moved.len() implies (
            #[trigger] moved[i]).key != (#[trigger] moved[j]).key by {
                if stays {
                    assert(moved[i] == tail[i] && moved[j] == tail[j]);
                } else {
                    assert(moved[j] == tail[j - 1]);
                    if i == 0 {
                        assert(rest.contains(tail[j - 1]));
                        let x = choose|x: int| 0 <= x < rest.len() && rest[x] == tail[j - 1];
                        assert(rows[x + 1] == moved[j]);
                        assert(rows[0].key != rows[x + 1].key);
                    } else {
                        assert(moved[i] == tail[i - 1]);
                    }
                }
            }
        }
    }
}

proof fn lemma_age_place(rows: Seq<NoteView>, note: NoteView)
    ensures
        0 <= age_place(rows, note) <= rows.len(),
    decreases rows.len(),
{
    if rows.len() > 0 && newer(rows[0], note) {
        lemma_age_place(rows.skip(1), note);
    }
}

/// Ordering by age keeps the notes, and their keys distinct.
proof fn lemma_newest_first(notes: Seq<NoteView>)
    requires
        notes_sorted(notes),
    ensures
        newest_first(notes).len() == notes.len(),
        forall|i: int|
            0 <= i < notes.len() ==> notes.contains(#[trigger] newest_first(notes)[i]),
        forall|i: int, j: int|
            0 <= i < j < notes.len() ==> (#[trigger] newest_first(notes)[i]).key != (
            #[trigger] newest_first(notes)[j]).key,
        total_bytes(newest_first(notes)) == total_bytes(notes),
    decreases notes.len(),
{
    if notes.len() > 0 {
        let most = notes.drop_last();
        let last = notes.last();
        assert(notes_sorted(most)) by {
            assert forall|i: int, j: int| 0 <= i < j < most.len() implies text_less(
                (#[trigger] most[i]).key,
                (#[trigger] most[j]).key,
            ) by {
                assert(most[i] == notes[i] && most[j] == notes[j]);
            }
        }
        lemma_newest_first(most);
        let rows = newest_first(most);
        let p = age_place(rows, last);
        lemma_age_place(rows, last);
        let after = newest_first(notes);
        lemma_total_insert(rows, p, last);
        assert forall|i: int| 0 <= i < rows.len() implies (#[trigger] rows[i]).key
            != last.key by {
            assert(most.contains(rows[i]));
            let x = choose|x: int| 0 <= x < most.len() && most[x] == rows[i];
            assert(notes[x] == rows[i]);
            assert(text_less(notes[x].key, notes[notes.len() - 1].key));
            crate::text::lemma_less_irreflexive(last.key);
        }
        assert forall|i: int| 0 <= i < after.len() implies notes.contains(#[trigger] after[i]) by {
            if i == p {
                assert(after[i] == notes[notes.len() - 1]);
            } else {
                let k = if i < p {
                    i
                } else {
                    i - 1
                };
                assert(after[i] == rows[k]);
                assert(most.contains(rows[k]));
                let x = choose|x: int| 0 <= x < most.len() && most[x] == rows[k];
                assert(notes[x] == after[i]);
            }
        }
        assert forall|i: int, j: int| 0 <= i < j < after.len() implies (
        #[trigger] after[i]).key != (#[trigger] after[j]).key by {
            if i == p {
                assert(after[j] == rows[j - 1]);
            } else if j == p {
                assert(after[i] == rows[i]);
            } else {
                let x = if i < p {
                    i
                } else {
                    i - 1
                };
                let y = if j < p {
                    j
                } else {
                    j - 1
                };
                assert(after[i] == rows[x] && after[j] == rows[y]);
            }
        }
    }
}

/// Migration loses no note: each is afterwards active or archived, never both,
/// with the value that it had.
pub proof fn migration_loses_nothing(memories: Seq<NoteView>, key: Seq<char>)
    requires
        notes_sorted(memories),
        migrated_notes(memories, Seq::empty()) is Ok,
    ensures
        ({
            let after = migrated_notes(memories, Seq::empty())->Ok_0;
            &&& value_anywhere(after, key) == note_value(memories, key)
            &&& note_value(after.0, key) is Some ==> note_value(after.1, key) is None
        }),
{
    let rows = newest_first(memories);
    let moved = overflow(rows, 0, 0);
    lemma_newest_first(memories);
    lemma_overflow_among(rows, 0, 0);
    assert forall|i: int| 0 <= i < moved.len() implies note_index(
        memories,
        (#[trigger] moved[i]).key,
    ) is Some && memories[note_index(memories, moved[i].key)->0] == moved[i] by {
        assert(rows.contains(moved[i]));
        let x = choose|x: int| 0 <= x < rows.len() && rows[x] == moved[i];
        assert(memories.contains(rows[x]));
        let y = choose|y: int| 0 <= y < memories.len() && memories[y] == moved[i];
        lemma_note_index(memories, moved[i].key);
        let z = note_index(memories, moved[i].key)->0;
        crate::text::lemma_less_irreflexive(moved[i].key);
        if z < y {
            assert(text_less(memories[z].key, memories[y].key));
        }
    }
    assert(note_value(Seq::<NoteView>::empty(), key) is None);
    lemma_moves_lose_nothing(memories, Seq::empty(), moved, key);
}

proof fn lemma_overflow_sizes(rows: Seq<NoteView>, entries: nat, bytes: nat)
    requires
        entries <= MEMORY_MAX_ENTRIES,
        bytes <= MEMORY_MAX_TOTAL_BYTES,
    ensures
        overflow(rows, entries, bytes).len() <= rows.len(),
        entries + rows.len() - overflow(rows, entries, bytes).len() <= MEMORY_MAX_ENTRIES,
        bytes + total_bytes(rows) - total_bytes(overflow(rows, entries, bytes))
            <= MEMORY_MAX_TOTAL_BYTES,
    decreases rows.len(),
{
    if rows.len() > 0 {
        let rest = rows.skip(1);
        lemma_total_insert(rest, 0, rows[0]);
        assert(rest.insert(0, rows[0]) =~= rows);
        if stays_active(rows[0], entries, bytes) {
            lemma_overflow_sizes(rest, entries + 1, bytes + note_bytes(rows[0]));
        } else {
            lemma_overflow_sizes(rest, entries, bytes);
            let tail = overflow(rest, entries, bytes);
            lemma_total_insert(tail, 0, rows[0]);
            assert(tail.insert(0, rows[0]) =~= overflow(rows, entries, bytes));
        }
    }
}

proof fn lemma_moves_sizes(memories: Seq<NoteView>, archive: Seq<NoteView>, moved: Seq<NoteView>)
    requires
        notes_sorted(memories),
        moves_valid(memories, moved),
    ensures
        notes_sorted(after_moves(memories, archive, moved).0),
        after_moves(memories, archive, moved).0.len() + moved.len() == memories.len(),
        total_bytes(after_moves(memories, archive, moved).0) + total_bytes(moved) == total_bytes(
            memories,
        ),
    decreases moved.len(),
{
    if moved.len() > 0 {
        let first = moved[0];
        let rest = moved.skip(1);
        let left = drop_note(memories, first.key);
        lemma_drop_keeps_sorted(memories, first.key);
        assert forall|i: int| 0 <= i < rest.len() implies note_index(
            left,
            (#[trigger] rest[i]).key,
        ) is Some && left[note_index(left, rest[i].key)->0] == rest[i] by {
            assert(rest[i] == moved[i + 1]);
            assert(moved[0].key != moved[i + 1].key);
            lemma_drop_keeps_note(memories, first.key, rest[i].key);
        }
        assert forall|i: int, j: int| 0 <= i < j < rest.len() implies (#[trigger] rest[i]).key != (
        #[trigger] rest[j]).key by {
            assert(rest[i] == moved[i + 1] && rest[j] == moved[j + 1]);
        }
        lemma_note_index(memories, first.key);
        let k = note_index(memories, first.key)->0;
        lemma_total_insert(left, k, first);
        assert(left.insert(k, first) =~= memories);
        lemma_total_insert(rest, 0, first);
        assert(rest.insert(0, first) =~= moved);
        lemma_moves_sizes(left, put_note(archive, first), rest);
    }
}

/// Migration leaves the active memory within its quotas.
pub proof fn migration_meets_quotas(memories: Seq<NoteView>)
    requires
        notes_sorted(memories),
        migrated_notes(memories, Seq::empty()) is Ok,
    ensures
        ({
            let kept = (migrated_notes(memories, Seq::empty())->Ok_0).0;
            &&& notes_sorted(kept)
            &&& kept.len() <= MEMORY_MAX_ENTRIES
            &&& total_bytes(kept) <= MEMORY_MAX_TOTAL_BYTES
        }),
{
    let rows = newest_first(memories);
    let moved = overflow(rows, 0, 0);
    lemma_newest_first(memories);
    lemma_overflow_among(rows, 0, 0);
    assert forall|i: int| 0 <= i < moved.len() implies note_index(
        memories,
        (#[trigger] moved[i]).key,
    ) is Some && memories[note_index(memories, moved[i].key)->0] == moved[i] by {
        assert(rows.contains(moved[i]));
        let x = choose|x: int| 0 <= x < rows.len() && rows[x] == moved[i];
        assert(memories.contains(rows[x]));
        let y = choose|y: int| 0 <= y < memories.len() && memories[y] == moved[i];
        lemma_note_index(memories, moved[i].key);
        let z = note_index(memories, moved[i].key)->0;
        crate::text::lemma_less_irreflexive(moved[i].key);
        if z < y {
            assert(text_less(memories[z].key, memories[y].key));
        }
    }
    lemma_moves_sizes(memories, Seq::empty(), moved);
    lemma_overflow_sizes(rows, 0, 0);
}


proof fn lemma_newer_transitive(a: NoteView, b: NoteView, c: NoteView)
    requires
        newer(a, b),
        newer(b, c),
    ensures
        newer(a, c),
{
    if text_less(b.updated_at, a.updated_at) && text_less(c.updated_at, b.updated_at) {
        crate::text::lemma_less_transitive(c.updated_at, b.updated_at, a.updated_at);
    } else if a.updated_at == b.updated_at && b.updated_at == c.updated_at {
        crate::text::lemma_less_transitive(a.key, b.key, c.key);
    }
}

proof fn lemma_age_place_splits(rows: Seq<NoteView>, note: NoteView)
    ensures
        forall|j: int| 0 <= j < age_place(rows, note) ==> newer(#[trigger] rows[j], note),
        age_place(rows, note) < rows.len() ==> !newer(rows[age_place(rows, note)], note),
    decreases rows.len(),
{
    lemma_age_place(rows, note);
    if rows.len() > 0 && newer(rows[0], note) {
        let rest = rows.skip(1);
        lemma_age_place_splits(rest, note);
        lemma_age_place(rest, note);
        assert forall|j: int| 0 <= j < age_place(rows, note) implies newer(
            #[trigger] rows[j],
            note,
        ) by {
            if j > 0 {
                assert(rest[j - 1] == rows[j]);
            }
        }
    }
}

/// Notes are looked at from the newest to the oldest, so the oldest are the
/// first to be archived.
pub proof fn notes_are_ordered_by_age(notes: Seq<NoteView>)
    requires
        notes_sorted(notes),
    ensures
        forall|i: int, j: int|
            0 <= i < j < newest_first(notes).len() ==> newer(
                #[trigger] newest_first(notes)[i],
                #[trigger] newest_first(notes)[j],
            ),
    decreases notes.len(),
{
    if notes.len() > 0 {
        let most = notes.drop_last();
        let last = notes.last();
        assert(notes_sorted(most)) by {
            assert forall|i: int, j: int| 0 <= i < j < most.len() implies text_less(
                (#[trigger] most[i]).key,
                (#[trigger] most[j]).key,
            ) by {
                assert(most[i] == notes[i] && most[j] == notes[j]);
            }
        }
        notes_are_ordered_by_age(most);
        lemma_newest_first(most);
        lemma_newest_first(notes);
        let rows = newest_first(most);
        let p = age_place(rows, last);
        lemma_age_place(rows, last);
        lemma_age_place_splits(rows, last);
        let after = newest_first(notes);
        assert forall|i: int, j: int| 0 <= i < j < after.len() implies newer(
            #[trigger] after[i],
            #[trigger] after[j],
        ) by {
            if j == p {
                assert(after[i] == rows[i]);
            } else if i == p {
                assert(after[j] == rows[j - 1]);
                assert(after[p + 1] == rows[p]);
                assert(after[p].key != after[p + 1].key);
                crate::text::lemma_less_total(last.updated_at, rows[p].updated_at);
                crate::text::lemma_less_total(last.key, rows[p].key);
                assert(newer(last, rows[p]));
                if j - 1 > p {
                    lemma_newer_transitive(last, rows[p], rows[j - 1]);
                }
            } else {
                let x = if i < p {
                    i
                } else {
                    i - 1
                };
                let y = if j < p {
                    j
                } else {
                    j - 1
                };
                assert(after[i] == rows[x] && after[j] == rows[y]);
            }
        }
    }
}

/// How many notes stay, and how many bytes they have: before note `i` of the
/// rows there are `entries[i]` and `bytes[i]`. A note stays exactly if its value
/// is no longer than 65536 bytes, fewer than 64 stay before it, and with it no
/// more than 65536 bytes do.
pub open spec fn kept_sums(
    rows: Seq<NoteView>,
    stays: Seq<bool>,
    entries: Seq<int>,
    bytes: Seq<int>,
) -> bool {
    &&& stays.len() == rows.len() && entries.len() == rows.len() + 1 && bytes.len() == rows.len()
        + 1
    &&& entries[0] == 0 && bytes[0] == 0
    &&& forall|i: int|
        0 <= i < rows.len() ==> {
            let size = utf8_len(rows[i].key) + utf8_len(rows[i].value);
            &&& #[trigger] stays[i] == (utf8_len(rows[i].value) <= 65_536 && entries[i] < 64
                && bytes[i] + size <= 65_536)
            &&& entries[i + 1] == entries[i] + if stays[i] {
                1int
            } else {
                0int
            }
            &&& bytes[i + 1] == bytes[i] + if stays[i] {
                size as int
            } else {
                0int
            }
        }
}

#[verifier::rlimit(40)]
proof fn lemma_overflow_is(
    rows: Seq<NoteView>,
    stays: Seq<bool>,
    entries: Seq<int>,
    bytes: Seq<int>,
    from: int,
)
    requires
        kept_sums(rows, stays, entries, bytes),
        0 <= from <= rows.len(),
        entries[from] >= 0,
        bytes[from] >= 0,
    ensures
        forall|note: NoteView| #[trigger]
            overflow(rows.skip(from), entries[from] as nat, bytes[from] as nat).contains(note)
                <==> exists|i: int| from <= i < rows.len() && !(#[trigger] stays[i]) && rows[i]
                == note,
    decreases rows.len() - from,
{
    let rest = rows.skip(from);
    let moved = overflow(rest, entries[from] as nat, bytes[from] as nat);
    if from < rows.len() {
        assert(rest[0] == rows[from]);
        assert(rest.skip(1) =~= rows.skip(from + 1));
        let keep = stays[from];
        assert(keep == stays_active(rows[from], entries[from] as nat, bytes[from] as nat));
        lemma_overflow_is(rows, stays, entries, bytes, from + 1);
        let tail = overflow(
            rows.skip(from + 1),
            entries[from + 1] as nat,
            bytes[from + 1] as nat,
        );
        assert forall|note: NoteView| #[trigger] moved.contains(note) <==> exists|i: int|
            from <= i < rows.len() && !(#[trigger] stays[i]) && rows[i] == note by {
            if keep {
                assert(moved == tail);
                if exists|i: int| from <= i < rows.len() && !(#[trigger] stays[i]) && rows[i]
                    == note {
                    let i = choose|i: int|
                        from <= i < rows.len() && !(#[trigger] stays[i]) && rows[i] == note;
                    assert(from + 1 <= i && !stays[i]);
                }
            } else {
                assert(moved == seq![rows[from]] + tail);
                if tail.contains(note) {
                    let k = choose|k: int| 0 <= k < tail.len() && tail[k] == note;
                    assert(moved[k + 1] == note);
                }
                if moved.contains(note) {
                    let k = choose|k: int| 0 <= k < moved.len() && moved[k] == note;
                    if k > 0 {
                        assert(tail[k - 1] == note);
                        assert(tail.contains(note));
                    } else {
                        assert(!stays[from] && rows[from] == note);
                    }
                }
                if exists|i: int| from <= i < rows.len() && !(#[trigger] stays[i]) && rows[i]
                    == note {
                    let i = choose|i: int|
                        from <= i < rows.len() && !(#[trigger] stays[i]) && rows[i] == note;
                    if i > from {
                        assert(from + 1 <= i && !stays[i]);
                        assert(tail.contains(note));
                    } else {
                        assert(moved[0] == note);
                    }
                }
            }
        }
    }
}

#[verifier::rlimit(40)]
proof fn lemma_moves_part(
    memories: Seq<NoteView>,
    archive: Seq<NoteView>,
    moved: Seq<NoteView>,
    note: NoteView,
)
    requires
        notes_sorted(memories),
        notes_sorted(archive),
        forall|i: int, j: int|
            0 <= i < j < moved.len() ==> (#[trigger] moved[i]).key != (#[trigger] moved[j]).key,
    ensures
        ({
            let after = after_moves(memories, archive, moved);
            let unmoved = forall|i: int|
                0 <= i < moved.len() ==> (#[trigger] moved[i]).key != note.key;
            &&& after.0.contains(note) <==> memories.contains(note) && unmoved
            &&& after.1.contains(note) <==> moved.contains(note) || (archive.contains(note)
                && unmoved)
        }),
    decreases moved.len(),
{
    if moved.len() > 0 {
        let first = moved[0];
        let rest = moved.skip(1);
        let kept = drop_note(memories, first.key);
        let put = put_note(archive, first);
        lemma_drop_keeps_sorted(memories, first.key);
        crate::storage::recall_laws::dropped_note_leaves_the_others(memories, first.key);
        crate::storage::recall_laws::written_note_stands_among_the_others(archive, first);
        assert forall|i: int, j: int| 0 <= i < j < rest.len() implies (#[trigger] rest[i]).key != (
        #[trigger] rest[j]).key by {
            assert(rest[i] == moved[i + 1] && rest[j] == moved[j + 1]);
        }
        lemma_moves_part(kept, put, rest, note);
        let unmoved = forall|i: int| 0 <= i < moved.len() ==> (#[trigger] moved[i]).key != note.key;
        let unmoved_rest = forall|i: int|
            0 <= i < rest.len() ==> (#[trigger] rest[i]).key != note.key;
        assert(unmoved <==> first.key != note.key && unmoved_rest) by {
            if unmoved {
                assert(moved[0].key != note.key);
                assert forall|i: int| 0 <= i < rest.len() implies (#[trigger] rest[i]).key
                    != note.key by {
                    assert(rest[i] == moved[i + 1]);
                }
            }
            if first.key != note.key && unmoved_rest {
                assert forall|i: int| 0 <= i < moved.len() implies (#[trigger] moved[i]).key
                    != note.key by {
                    if i > 0 {
                        assert(rest[i - 1] == moved[i]);
                    }
                }
            }
        }
        assert(moved.contains(note) <==> note == first || rest.contains(note)) by {
            if rest.contains(note) {
                let i = choose|i: int| 0 <= i < rest.len() && rest[i] == note;
                assert(moved[i + 1] == note);
            }
            if moved.contains(note) && note != first {
                let i = choose|i: int| 0 <= i < moved.len() && moved[i] == note;
                assert(rest[i - 1] == note);
            }
            assert(moved[0] == first);
        }
        assert(kept.contains(note) <==> memories.contains(note) && note.key != first.key);
        if note.key != first.key {
            assert(put.contains(note) == archive.contains(note));
        } else {
            assert(put.contains(note) <==> note == first) by {
                if put.contains(note) {
                    let i = choose|i: int| 0 <= i < put.len() && put[i] == note;
                    assert(put[i].key == first.key);
                }
            }
            assert(unmoved_rest) by {
                assert forall|i: int| 0 <= i < rest.len() implies (#[trigger] rest[i]).key
                    != note.key by {
                    assert(rest[i] == moved[i + 1]);
                    assert(moved[0].key != moved[i + 1].key);
                }
            }
            if rest.contains(note) {
                let i = choose|i: int| 0 <= i < rest.len() && rest[i] == note;
                assert(rest[i].key != note.key);
            }
        }
    }
}

/// What is decided on from the newest note to the oldest, each beside those that
/// stay before it: the notes that stay are the active memory afterwards, and the
/// others are the archive. An older and smaller note may stay where a newer one
/// does not fit.
#[verifier::rlimit(40)]
pub proof fn newest_notes_stay_active(
    memories: Seq<NoteView>,
    stays: Seq<bool>,
    entries: Seq<int>,
    bytes: Seq<int>,
    note: NoteView,
)
    requires
        notes_sorted(memories),
        kept_sums(newest_first(memories), stays, entries, bytes),
        migrated_notes(memories, Seq::empty()) is Ok,
    ensures
        ({
            let rows = newest_first(memories);
            let after = migrated_notes(memories, Seq::empty())->Ok_0;
            &&& rows.len() == memories.len()
            &&& rows.to_multiset() =~= memories.to_multiset()
            &&& after.0.contains(note) <==> exists|i: int|
                0 <= i < rows.len() && #[trigger] stays[i] && rows[i] == note
            &&& after.1.contains(note) <==> exists|i: int|
                0 <= i < rows.len() && !(#[trigger] stays[i]) && rows[i] == note
        }),
{
    lemma_newest_first(memories);
    let rows = newest_first(memories);
    let moved = overflow(rows, 0, 0);
    lemma_overflow_is(rows, stays, entries, bytes, 0);
    assert(rows.skip(0) =~= rows);
    assert(overflow(rows.skip(0), entries[0] as nat, bytes[0] as nat) == moved);
    assert(moved.contains(note) <==> exists|i: int|
        0 <= i < rows.len() && !(#[trigger] stays[i]) && rows[i] == note);
    lemma_same_notes(memories);
    lemma_overflow_among(rows, 0, 0);
    lemma_moves_part(memories, Seq::empty(), moved, note);
    let unmoved = forall|i: int| 0 <= i < moved.len() ==> (#[trigger] moved[i]).key != note.key;
    vstd::seq_lib::to_multiset_contains(rows, note);
    vstd::seq_lib::to_multiset_contains(memories, note);
    assert(rows.contains(note) == memories.contains(note));
    if memories.contains(note) {
        let i = choose|i: int| 0 <= i < rows.len() && rows[i] == note;
        if stays[i] {
            assert(unmoved) by {
                assert forall|k: int| 0 <= k < moved.len() implies (#[trigger] moved[k]).key
                    != note.key by {
                    assert(overflow(rows.skip(0), entries[0] as nat, bytes[0] as nat).contains(
                        moved[k],
                    ));
                    let x = choose|x: int|
                        0 <= x < rows.len() && !(#[trigger] stays[x]) && rows[x] == moved[k];
                    if x < i {
                        assert(rows[x].key != rows[i].key);
                    } else {
                        assert(rows[i].key != rows[x].key);
                    }
                }
            }
        } else {
            assert(moved.contains(note));
            let k = choose|k: int| 0 <= k < moved.len() && moved[k] == note;
            assert(moved[k].key == note.key);
            assert(!unmoved);
        }
        assert forall|j: int| 0 <= j < rows.len() && rows[j] == note implies j == i by {
            if j < i {
                assert(rows[j].key != rows[i].key);
            } else if i < j {
                assert(rows[i].key != rows[j].key);
            }
        }
    }
}

proof fn lemma_same_notes(notes: Seq<NoteView>)
    ensures
        newest_first(notes).to_multiset() =~= notes.to_multiset(),
    decreases notes.len(),
{
    if notes.len() > 0 {
        let rows = newest_first(notes.drop_last());
        let last = notes.last();
        lemma_same_notes(notes.drop_last());
        lemma_age_place(rows, last);
        let p = age_place(rows, last);
        let after = newest_first(notes);
        assert(after =~= rows.insert(p, last));
        vstd::seq_lib::to_multiset_insert(rows, p, last);
        assert(notes =~= notes.drop_last().push(last));
        vstd::seq_lib::to_multiset_build(notes.drop_last(), last);
    } else {
        assert(newest_first(notes) =~= notes);
    }
}

/// Of two notes the newer one is the one that was written later; of those
/// written at the same time, the one under the lesser key.
pub proof fn later_note_is_newer(a: NoteView, b: NoteView)
    ensures
        text_less(b.updated_at, a.updated_at) ==> newer(a, b) && !newer(b, a),
        a.updated_at == b.updated_at && text_less(a.key, b.key) ==> newer(a, b) && !newer(b, a),
{
    crate::text::lemma_less_irreflexive(a.updated_at);
    crate::text::lemma_less_irreflexive(a.key);
    if text_less(b.updated_at, a.updated_at) && text_less(a.updated_at, b.updated_at) {
        crate::text::lemma_less_transitive(a.updated_at, b.updated_at, a.updated_at);
    }
    if text_less(a.key, b.key) && text_less(b.key, a.key) {
        crate::text::lemma_less_transitive(a.key, b.key, a.key);
    }
}

proof fn lemma_overflow_refusal(moved: Seq<NoteView>)
    ensures
        overflow_refusal(moved) is None <==> forall|i: int|
            0 <= i < moved.len() ==> utf8_len((#[trigger] moved[i]).value) <= 262_144,
    decreases moved.len(),
{
    if moved.len() > 0 {
        let rest = moved.skip(1);
        lemma_overflow_refusal(rest);
        assert forall|i: int| 0 <= i < rest.len() implies #[trigger] rest[i] == moved[i + 1] by {}
        assert forall|i: int| 0 < i < moved.len() implies #[trigger] moved[i] == rest[i - 1] by {}
    }
}

/// Migration is refused exactly if a note that does not stay active is too long for the
/// archive.
pub proof fn notes_too_long_to_archive_are_refused(
    memories: Seq<NoteView>,
    archive: Seq<NoteView>,
    stays: Seq<bool>,
    entries: Seq<int>,
    bytes: Seq<int>,
)
    requires
        kept_sums(newest_first(memories), stays, entries, bytes),
    ensures
        migrated_notes(memories, archive) is Ok <==> forall|i: int|
            0 <= i < newest_first(memories).len() && !(#[trigger] stays[i]) ==> utf8_len(
                newest_first(memories)[i].value,
            ) <= 262_144,
{
    let rows = newest_first(memories);
    let moved = overflow(rows, 0, 0);
    lemma_overflow_is(rows, stays, entries, bytes, 0);
    assert(rows.skip(0) =~= rows);
    assert(overflow(rows.skip(0), entries[0] as nat, bytes[0] as nat) == moved);
    lemma_overflow_refusal(moved);
    if overflow_refusal(moved) is None {
        assert forall|i: int| 0 <= i < rows.len() && !(#[trigger] stays[i]) implies utf8_len(
            rows[i].value,
        ) <= 262_144 by {
            assert(overflow(rows.skip(0), entries[0] as nat, bytes[0] as nat).contains(rows[i]));
            let k = choose|k: int| 0 <= k < moved.len() && moved[k] == rows[i];
            assert(utf8_len(moved[k].value) <= 262_144);
        }
    } else {
        let k = choose|k: int|
            0 <= k < moved.len() && utf8_len((#[trigger] moved[k]).value) > 262_144;
        assert(moved.contains(moved[k]));
        assert(overflow(rows.skip(0), entries[0] as nat, bytes[0] as nat).contains(moved[k]));
        let i = choose|i: int|
            0 <= i < rows.len() && !(#[trigger] stays[i]) && rows[i] == moved[k];
        assert(!stays[i]);
    }
}

}
