//! What is shown of notes is what is stored, and what may be stored.
use vstd::prelude::*;
use vstd::utf8::encode_utf8;

use crate::digest::be64;
use crate::error::ErrorView;
use crate::storage::note_laws::{all_pages, pages_show_everything_once};
use crate::storage::notes::{
    archive_refusal, drop_note, lemma_note_index, lemma_note_place, lemma_total_insert,
    lemma_total_put, note_index, note_place, notes_sorted, put_note, set_refusal, stored_prefix,
    total_bytes, NoteView, RecordView,
};
use crate::storage::projects::{
    listed_keys, project_state, read_note, state_notes, state_refusal, stored_plan,
};
use crate::storage::recall::{
    hash_answer, hash_label, hash_refusal, hashed_notes, lemma_page_len, page_len, recall, record_bytes,
    shown_note, shown_notes, unhashable, Shelf,
};
use crate::storage::ProjectView;
use crate::text::{lemma_less_irreflexive, lemma_utf8_len_front, text_less, utf8_len};

verus! {

/// A note that can be shown whole: its key has 1 to 256 bytes, its value is
/// within the limit of the shelf, and what is in active memory holds no NUL
/// character.
pub open spec fn note_is_whole(note: NoteView, shelf: Shelf) -> bool {
    &&& 0 < note.key.len() && utf8_len(note.key) <= 256
    &&& match shelf {
        Shelf::Active => utf8_len(note.value) <= 65_536 && !note.key.contains('\0')
            && !note.value.contains('\0'),
        Shelf::Archive => utf8_len(note.value) <= 262_144,
    }
}

pub open spec fn notes_are_whole(notes: Seq<NoteView>, shelf: Shelf) -> bool {
    forall|i: int| 0 <= i < notes.len() ==> note_is_whole(#[trigger] notes[i], shelf)
}

/// The bytes of keys and values, summed up: before note `i` there are `sums[i]`.
pub open spec fn note_sums(sums: Seq<int>, notes: Seq<NoteView>) -> bool {
    &&& sums.len() == notes.len() + 1
    &&& sums[0] == 0
    &&& forall|i: int|
        0 <= i < notes.len() ==> sums[i + 1] == sums[i] + utf8_len((#[trigger] notes[i]).key)
            + utf8_len(notes[i].value)
}

proof fn lemma_chars_within_bytes(text: Seq<char>)
    ensures
        text.len() <= utf8_len(text),
    decreases text.len(),
{
    lemma_utf8_len_front(text);
    if text.len() > 0 {
        lemma_chars_within_bytes(text.skip(1));
    }
}

proof fn lemma_prefix_is_whole(text: Seq<char>, count: int)
    requires
        text.len() <= count,
        !text.contains('\0'),
    ensures
        stored_prefix(text, count) == text,
    decreases text.len(),
{
    if text.len() > 0 {
        assert(text[0] != '\0') by {
            assert(text.contains(text[0]));
        }
        let rest = text.skip(1);
        assert(!rest.contains('\0')) by {
            if rest.contains('\0') {
                let i = choose|i: int| 0 <= i < rest.len() && rest[i] == '\0';
                assert(text[i + 1] == '\0');
            }
        }
        lemma_prefix_is_whole(rest, count - 1);
        assert(seq![text[0]] + rest =~= text);
    } else {
        assert(stored_prefix(text, count) =~= text);
    }
}

proof fn lemma_whole_note(note: NoteView, shelf: Shelf)
    requires
        note_is_whole(note, shelf),
    ensures
        shown_note(note, shelf) == (RecordView { key: note.key, value: note.value }),
        unhashable(note, shelf) is None,
{
    lemma_chars_within_bytes(note.key);
    lemma_chars_within_bytes(note.value);
    if shelf == Shelf::Active {
        lemma_prefix_is_whole(note.key, 257);
        lemma_prefix_is_whole(note.value, 65_537);
    }
}

proof fn lemma_whole_notes(notes: Seq<NoteView>, shelf: Shelf)
    requires
        notes_are_whole(notes, shelf),
    ensures
        hash_refusal(notes, shelf) is None,
        shown_notes(notes, shelf).len() == notes.len(),
        forall|i: int|
            0 <= i < notes.len() ==> (#[trigger] shown_notes(notes, shelf)[i]).key == notes[i].key
                && shown_notes(notes, shelf)[i].value == notes[i].value,
    decreases notes.len(),
{
    assert forall|i: int| 0 <= i < notes.len() implies (#[trigger] shown_notes(
        notes,
        shelf,
    )[i]).key == notes[i].key && shown_notes(notes, shelf)[i].value == notes[i].value by {
        lemma_whole_note(notes[i], shelf);
    }
    if notes.len() > 0 {
        lemma_whole_note(notes[0], shelf);
        let rest = notes.skip(1);
        assert forall|i: int| 0 <= i < rest.len() implies note_is_whole(
            #[trigger] rest[i],
            shelf,
        ) by {
            assert(rest[i] == notes[i + 1]);
        }
        lemma_whole_notes(rest, shelf);
    }
}

/// A page takes notes as long as there are any, as it may have more of them, and
/// as their bytes fit.
#[verifier::rlimit(40)]
proof fn lemma_page_is_full(
    rows: Seq<RecordView>,
    notes: Seq<NoteView>,
    at: int,
    sums: Seq<int>,
    requested: int,
    room: int,
)
    requires
        note_sums(sums, notes),
        0 <= at <= notes.len(),
        rows.len() == notes.len() - at,
        forall|i: int|
            0 <= i < rows.len() ==> (#[trigger] rows[i]).key == notes[at + i].key && rows[i].value
                == notes[at + i].value,
        requested >= 0,
        room >= 0,
    ensures
        ({
            let n = page_len(rows, requested, room);
            &&& 0 <= n <= rows.len() && n <= requested
            &&& sums[at + n] - sums[at] <= room
            &&& n == requested || n == rows.len() || sums[at + n + 1] - sums[at] > room
        }),
    decreases rows.len(),
{
    lemma_page_len(rows, requested, room);
    if rows.len() > 0 {
        assert(sums[at + 1] == sums[at] + utf8_len(notes[at].key) + utf8_len(notes[at].value));
        assert(rows[0].key == notes[at + 0].key);
        if requested > 0 && record_bytes(rows[0]) <= room {
            let rest = rows.skip(1);
            assert forall|i: int| 0 <= i < rest.len() implies (#[trigger] rest[i]).key == notes[at
                + 1 + i].key && rest[i].value == notes[at + 1 + i].value by {
                assert(rows[i + 1].key == notes[at + (i + 1)].key);
            }
            lemma_page_is_full(
                rest,
                notes,
                at + 1,
                sums,
                requested - 1,
                room - record_bytes(rows[0]),
            );
        }
    }
}

/// A page shows stored notes with exactly the keys and values that they have,
/// from the offset on and in order; as many as were asked for, a hundred and
/// twenty-eight and a mebibyte at most, and not fewer. It says how many there are
/// and where the next page starts.
#[verifier::rlimit(40)]
pub proof fn page_shows_the_notes_themselves(
    notes: Seq<NoteView>,
    offset: nat,
    requested: int,
    shelf: Shelf,
    sums: Seq<int>,
)
    requires
        notes_are_whole(notes, shelf),
        note_sums(sums, notes),
        requested > 0,
        offset <= notes.len(),
    ensures
        recall(notes, offset, requested, None, shelf) is Ok,
        ({
            let shown = (recall(notes, offset, requested, None, shelf)->Ok_0).0;
            let n = shown.notes.len() as int;
            let most = if requested < 128 {
                requested
            } else {
                128
            };
            &&& offset + n <= notes.len()
            &&& forall|k: int|
                0 <= k < n ==> (#[trigger] shown.notes[k]).key == notes[offset + k].key
                    && shown.notes[k].value == notes[offset + k].value
            &&& n <= most
            &&& sums[offset + n] - sums[offset as int] <= 1_048_576
            &&& n == most || offset + n == notes.len() || sums[offset + n + 1]
                - sums[offset as int] > 1_048_576
            &&& offset < notes.len() ==> n > 0
            &&& shown.total == notes.len()
            &&& shown.offset == offset
            &&& shown.truncated == (offset + n < notes.len())
            &&& offset + n < notes.len() ==> shown.next_offset == Some((offset + n) as nat)
            &&& offset + n == notes.len() ==> shown.next_offset is None
        }),
{
    lemma_whole_notes(notes, shelf);
    let most = if requested < 128 {
        requested
    } else {
        128
    };
    let rows = shown_notes(notes, shelf).skip(offset as int);
    assert forall|i: int| 0 <= i < rows.len() implies (#[trigger] rows[i]).key == notes[offset
        + i].key && rows[i].value == notes[offset + i].value by {
        assert(rows[i] == shown_notes(notes, shelf)[offset + i]);
    }
    lemma_page_is_full(rows, notes, offset as int, sums, most, 1_048_576);
    let n = page_len(rows, most, 1_048_576);
    let shown = (recall(notes, offset, requested, None, shelf)->Ok_0).0;
    assert(shown.notes == rows.take(n));
    assert forall|k: int| 0 <= k < n implies (#[trigger] shown.notes[k]).key == notes[offset
        + k].key && shown.notes[k].value == notes[offset + k].value by {
        assert(shown.notes[k] == rows[k]);
    }
    if offset < notes.len() {
        assert(note_is_whole(notes[offset as int], shelf));
        assert(sums[offset as int + 1] == sums[offset as int] + utf8_len(notes[offset as int].key)
            + utf8_len(notes[offset as int].value));
    }
}

/// Following the pages from the first to the last gives the stored notes
/// themselves: each key and each value as it is stored, once, in order.
pub proof fn pages_give_the_notes_themselves(
    notes: Seq<NoteView>,
    offset: nat,
    requested: int,
    shelf: Shelf,
)
    requires
        notes_are_whole(notes, shelf),
        requested > 0,
        offset <= notes.len(),
    ensures
        all_pages(notes, offset, requested, shelf).len() == notes.len() - offset,
        forall|i: int|
            0 <= i < notes.len() - offset ==> (#[trigger] all_pages(
                notes,
                offset,
                requested,
                shelf,
            )[i]).key == notes[offset + i].key && all_pages(
                notes,
                offset,
                requested,
                shelf,
            )[i].value == notes[offset + i].value,
{
    lemma_whole_notes(notes, shelf);
    pages_show_everything_once(notes, offset, requested, shelf);
    let rows = shown_notes(notes, shelf);
    assert forall|i: int| 0 <= i < notes.len() - offset implies (#[trigger] rows.skip(
        offset as int,
    )[i]).key == notes[offset + i].key && rows.skip(offset as int)[i].value == notes[offset
        + i].value by {
        assert(rows.skip(offset as int)[i] == rows[offset + i]);
    }
}

/// A page under a hash is shown exactly if the notes still have the hash that
/// the page without one was shown with. There is no page of no notes, and none
/// behind the last note.
pub proof fn page_needs_its_hash(
    notes: Seq<NoteView>,
    offset: nat,
    requested: int,
    seen: Seq<char>,
    shelf: Shelf,
)
    requires
        notes_are_whole(notes, shelf),
        0 <= requested,
    ensures
        recall(notes, offset, requested, None, shelf) is Ok <==> 0 < requested && offset
            <= notes.len(),
        recall(notes, offset, requested, None, shelf) is Ok ==> {
            let (shown, hash) = recall(notes, offset, requested, None, shelf)->Ok_0;
            &&& hash_answer(notes, shelf) == Ok::<Seq<char>, ErrorView>(hash)
            &&& seen == hash ==> recall(notes, offset, requested, Some(seen), shelf) == recall(
                notes,
                offset,
                requested,
                None,
                shelf,
            )
            &&& seen != hash ==> recall(notes, offset, requested, Some(seen), shelf) is Err && (
            recall(notes, offset, requested, Some(seen), shelf)->Err_0).code == "PAGINATION_STALE"@
        },
{
    lemma_whole_notes(notes, shelf);
}

/// Active memory and archive are hashed under labels of their own.
pub proof fn shelves_hash_apart()
    ensures
        hash_label(Shelf::Active) != hash_label(Shelf::Archive),
{
    reveal_strlit("codexbridge-memory-v1\0");
    reveal_strlit("codexbridge-memory-archive-v1\0");
    assert(hash_label(Shelf::Active).len() != hash_label(Shelf::Archive).len());
}

proof fn lemma_total(notes: Seq<NoteView>, sums: Seq<int>)
    requires
        note_sums(sums, notes),
    ensures
        total_bytes(notes) == sums.last(),
    decreases notes.len(),
{
    if notes.len() > 0 {
        let rest = notes.drop_last();
        let fewer = sums.drop_last();
        assert forall|i: int| 0 <= i < rest.len() implies fewer[i + 1] == fewer[i] + utf8_len(
            (#[trigger] rest[i]).key,
        ) + utf8_len(rest[i].value) by {
            assert(rest[i] == notes[i]);
            assert(sums[i + 1] == sums[i] + utf8_len(notes[i].key) + utf8_len(notes[i].value));
        }
        lemma_total(rest, fewer);
        let last = notes.len() - 1;
        assert(sums[last + 1] == sums[last] + utf8_len(notes[last].key) + utf8_len(
            notes[last].value,
        ));
    }
}

/// A note with a new key is taken exactly if its key has 1 to 256 bytes, its
/// value is within its limit, fewer notes are there than there may be, and with
/// it their bytes are within the limit for all of them.
pub proof fn acceptable_note_is_added(notes: Seq<NoteView>, note: NoteView, sums: Seq<int>)
    requires
        note_sums(sums, notes),
        forall|i: int| 0 <= i < notes.len() ==> (#[trigger] notes[i]).key != note.key,
    ensures
        set_refusal(notes, note) is None <==> {
            &&& 0 < note.key.len() && utf8_len(note.key) <= 256
            &&& utf8_len(note.value) <= 65_536
            &&& notes.len() < 64
            &&& sums.last() + utf8_len(note.key) + utf8_len(note.value) <= 65_536
        },
        archive_refusal(notes, note) is None <==> {
            &&& 0 < note.key.len() && utf8_len(note.key) <= 256
            &&& utf8_len(note.value) <= 262_144
            &&& notes.len() < 4096
            &&& sums.last() + utf8_len(note.key) + utf8_len(note.value) <= 16_777_216
        },
{
    lemma_total(notes, sums);
    lemma_note_index(notes, note.key);
    lemma_total_put(notes, note);
}

/// A note that takes the place of another is taken whatever the number of notes,
/// exactly if its value is within its limit and the bytes of all of them are,
/// with its own in place of those of the other.
pub proof fn acceptable_note_is_replaced(
    notes: Seq<NoteView>,
    note: NoteView,
    sums: Seq<int>,
    at: int,
)
    requires
        notes_sorted(notes),
        note_sums(sums, notes),
        0 <= at < notes.len(),
        notes[at].key == note.key,
        0 < note.key.len() && utf8_len(note.key) <= 256,
    ensures
        set_refusal(notes, note) is None <==> {
            &&& utf8_len(note.value) <= 65_536
            &&& sums.last() - utf8_len(notes[at].value) + utf8_len(note.value) <= 65_536
        },
        archive_refusal(notes, note) is None <==> {
            &&& utf8_len(note.value) <= 262_144
            &&& sums.last() - utf8_len(notes[at].value) + utf8_len(note.value) <= 16_777_216
        },
{
    lemma_total(notes, sums);
    lemma_index_is(notes, at);
    lemma_total_put(notes, note);
    lemma_total_insert(notes.remove(at), at, notes[at]);
    assert(notes.remove(at).insert(at, notes[at]) =~= notes);
}

proof fn lemma_index_is(notes: Seq<NoteView>, at: int)
    requires
        notes_sorted(notes),
        0 <= at < notes.len(),
    ensures
        note_index(notes, notes[at].key) == Some(at),
{
    lemma_note_index(notes, notes[at].key);
    let i = note_index(notes, notes[at].key)->0;
    lemma_less_irreflexive(notes[at].key);
    if i < at {
        assert(text_less(notes[i].key, notes[at].key));
    } else if at < i {
        assert(text_less(notes[at].key, notes[i].key));
    }
}

/// A written note stands among the others in the order of the keys, with its
/// value and time; a note of the same key is gone, and every other is as it was.
#[verifier::rlimit(40)]
pub proof fn written_note_stands_among_the_others(notes: Seq<NoteView>, note: NoteView)
    requires
        notes_sorted(notes),
    ensures
        ({
            let after = put_note(notes, note);
            &&& notes_sorted(after)
            &&& after.contains(note)
            &&& forall|other: NoteView|
                other.key != note.key ==> (#[trigger] after.contains(other)) == notes.contains(
                    other,
                )
            &&& forall|i: int|
                0 <= i < after.len() && (#[trigger] after[i]).key == note.key ==> after[i] == note
        }),
{
    let after = put_note(notes, note);
    lemma_note_index(notes, note.key);
    lemma_note_place(notes, note.key);
    crate::storage::note_laws::lemma_put_sorted(notes, note);
    match note_index(notes, note.key) {
        Some(at) => {
            assert(after[at] == note);
            assert forall|other: NoteView| other.key != note.key implies (
            #[trigger] after.contains(other)) == notes.contains(other) by {
                if notes.contains(other) {
                    let i = choose|i: int| 0 <= i < notes.len() && notes[i] == other;
                    assert(after[i] == other);
                }
                if after.contains(other) {
                    let i = choose|i: int| 0 <= i < after.len() && after[i] == other;
                    assert(notes[i] == other);
                }
            }
        },
        None => {
            let at = note_place(notes, note.key);
            assert(after[at] == note);
            assert forall|other: NoteView| other.key != note.key implies (
            #[trigger] after.contains(other)) == notes.contains(other) by {
                if notes.contains(other) {
                    let i = choose|i: int| 0 <= i < notes.len() && notes[i] == other;
                    let moved = if i < at {
                        i
                    } else {
                        i + 1
                    };
                    assert(after[moved] == other);
                }
                if after.contains(other) {
                    let i = choose|i: int| 0 <= i < after.len() && after[i] == other;
                    let moved = if i < at {
                        i
                    } else {
                        i - 1
                    };
                    assert(i != at);
                    assert(notes[moved] == other);
                }
            }
        },
    }
    assert forall|i: int| 0 <= i < after.len() && (#[trigger] after[i]).key
        == note.key implies after[i] == note by {
        let at = choose|at: int| 0 <= at < after.len() && after[at] == note;
        lemma_index_is(after, at);
        lemma_index_is(after, i);
    }
}

/// Taking a key out takes out its note and no other.
pub proof fn dropped_note_leaves_the_others(notes: Seq<NoteView>, key: Seq<char>)
    requires
        notes_sorted(notes),
    ensures
        forall|other: NoteView| #[trigger]
            drop_note(notes, key).contains(other) <==> notes.contains(other) && other.key != key,
{
    lemma_note_index(notes, key);
    let after = drop_note(notes, key);
    assert forall|other: NoteView| #[trigger] after.contains(other) <==> notes.contains(other)
        && other.key != key by {
        match note_index(notes, key) {
            None => {
                if notes.contains(other) {
                    let i = choose|i: int| 0 <= i < notes.len() && notes[i] == other;
                    assert(notes[i].key != key);
                }
            },
            Some(at) => {
                if notes.contains(other) && other.key != key {
                    let i = choose|i: int| 0 <= i < notes.len() && notes[i] == other;
                    let moved = if i < at {
                        i
                    } else {
                        i - 1
                    };
                    assert(after[moved] == other);
                }
                if after.contains(other) {
                    let i = choose|i: int| 0 <= i < after.len() && after[i] == other;
                    let moved = if i < at {
                        i
                    } else {
                        i + 1
                    };
                    assert(notes[moved] == other);
                    lemma_index_is(notes, moved);
                }
            },
        }
    }
}

/// A stored note is read under its key, and an unused key reads none. What may
/// not be a key is refused.
pub proof fn stored_note_is_read(notes: Seq<NoteView>, key: Seq<char>, shelf: Shelf)
    requires
        notes_sorted(notes),
        notes_are_whole(notes, shelf),
    ensures
        forall|i: int|
            0 <= i < notes.len() ==> read_note(notes, (#[trigger] notes[i]).key, shelf) == Ok::<
                Option<Seq<char>>,
                ErrorView,
            >(Some(notes[i].value)),
        0 < key.len() && utf8_len(key) <= 256 && (forall|i: int|
            0 <= i < notes.len() ==> (#[trigger] notes[i]).key != key) ==> read_note(
            notes,
            key,
            shelf,
        ) == Ok::<Option<Seq<char>>, ErrorView>(None),
        key.len() == 0 || utf8_len(key) > 256 ==> read_note(notes, key, shelf) is Err,
{
    lemma_note_index(notes, key);
    assert forall|i: int| 0 <= i < notes.len() implies read_note(
        notes,
        (#[trigger] notes[i]).key,
        shelf,
    ) == Ok::<Option<Seq<char>>, ErrorView>(Some(notes[i].value)) by {
        lemma_index_is(notes, i);
        assert(note_is_whole(notes[i], shelf));
    }
}

/// The keys that are listed are those of the stored notes, in their order.
pub proof fn stored_keys_are_listed(notes: Seq<NoteView>)
    requires
        notes_are_whole(notes, Shelf::Active),
        notes.len() <= 64,
    ensures
        listed_keys(notes).len() == notes.len(),
        forall|i: int|
            0 <= i < notes.len() ==> #[trigger] listed_keys(notes)[i] == notes[i].key,
{
    assert forall|i: int| 0 <= i < notes.len() implies #[trigger] listed_keys(notes)[i]
        == notes[i].key by {
        assert(note_is_whole(notes[i], Shelf::Active));
        lemma_chars_within_bytes(notes[i].key);
        lemma_prefix_is_whole(notes[i].key, 257);
    }
}

proof fn lemma_state_refusal(notes: Seq<NoteView>, sums: Seq<int>, at: int)
    requires
        note_sums(sums, notes),
        0 <= at <= notes.len(),
        forall|i: int|
            0 <= i < notes.len() ==> 0 < (#[trigger] notes[i]).key.len() && utf8_len(notes[i].key)
                <= 256 && utf8_len(notes[i].value) <= 65_536,
        sums[at] >= 0,
        sums[at] <= 65_536,
    ensures
        sums.last() >= sums[at],
        state_refusal(notes.skip(at), sums[at] as nat) is None <==> sums.last() <= 65_536,
    decreases notes.len() - at,
{
    let rest = notes.skip(at);
    if at < notes.len() {
        assert(rest[0] == notes[at]);
        assert(rest.skip(1) =~= notes.skip(at + 1));
        assert(sums[at + 1] == sums[at] + utf8_len(notes[at].key) + utf8_len(notes[at].value));
        assert(unhashable(rest[0], Shelf::Active) is None);
        if sums[at + 1] <= 65_536 {
            lemma_state_refusal(notes, sums, at + 1);
        } else {
            lemma_sums_grow(notes, sums, at + 1);
        }
    }
}

proof fn lemma_sums_grow(notes: Seq<NoteView>, sums: Seq<int>, at: int)
    requires
        note_sums(sums, notes),
        0 <= at <= notes.len(),
    ensures
        sums.last() >= sums[at],
    decreases notes.len() - at,
{
    if at < notes.len() {
        assert(sums[at + 1] == sums[at] + utf8_len(notes[at].key) + utf8_len(notes[at].value));
        lemma_sums_grow(notes, sums, at + 1);
    }
}

/// Active memory is part of a turn exactly if it is within its quotas, and then
/// all of it: every note as it is stored, under the hash that pages have.
pub proof fn turn_has_all_of_memory(notes: Seq<NoteView>, sums: Seq<int>)
    requires
        note_sums(sums, notes),
        notes_are_whole(notes, Shelf::Active),
    ensures
        state_notes(notes) is Ok <==> notes.len() <= 64 && sums.last() <= 65_536,
        state_notes(notes) is Ok ==> {
            let (shown, hash) = state_notes(notes)->Ok_0;
            &&& hash_answer(notes, Shelf::Active) == Ok::<Seq<char>, ErrorView>(hash)
            &&& shown.total == notes.len() && shown.offset == 0
            &&& !shown.truncated && shown.next_offset is None
            &&& shown.notes.len() == notes.len()
            &&& forall|i: int|
                0 <= i < notes.len() ==> (#[trigger] shown.notes[i]).key == notes[i].key
                    && shown.notes[i].value == notes[i].value
        },
{
    lemma_whole_notes(notes, Shelf::Active);
    assert forall|i: int| 0 <= i < notes.len() implies 0 < (#[trigger] notes[i]).key.len()
        && utf8_len(notes[i].key) <= 256 && utf8_len(notes[i].value) <= 65_536 by {
        assert(note_is_whole(notes[i], Shelf::Active));
    }
    lemma_state_refusal(notes, sums, 0);
    assert(notes.skip(0) =~= notes);
}

/// A text with a NUL character is shown up to it.
pub proof fn text_ends_at_a_nul(front: Seq<char>, rest: Seq<char>, count: int)
    requires
        !front.contains('\0'),
        front.len() < count,
    ensures
        stored_prefix(front.push('\0') + rest, count) == front,
    decreases front.len(),
{
    let text = front.push('\0') + rest;
    if front.len() > 0 {
        assert(front.contains(front[0]));
        let less = front.skip(1);
        assert(!less.contains('\0')) by {
            if less.contains('\0') {
                let i = choose|i: int| 0 <= i < less.len() && less[i] == '\0';
                assert(front[i + 1] == '\0');
            }
        }
        assert(text.skip(1) =~= less.push('\0') + rest);
        text_ends_at_a_nul(less, rest, count - 1);
        assert(seq![front[0]] + less =~= front);
    } else {
        assert(text[0] == '\0');
        assert(stored_prefix(text, count) =~= front);
    }
}

/// What a page is refused for: its size, a note that cannot be hashed, the hash, and an offset
/// behind the last note, in this order.
pub proof fn refused_page_says_why(
    notes: Seq<NoteView>,
    offset: nat,
    requested: int,
    seen: Option<Seq<char>>,
    shelf: Shelf,
)
    requires
        0 <= requested,
    ensures
        requested == 0 ==> recall(notes, offset, requested, seen, shelf) is Err && (recall(
            notes,
            offset,
            requested,
            seen,
            shelf,
        )->Err_0).code == "INVALID_INPUT"@,
        notes_are_whole(notes, shelf) && requested > 0 && offset > notes.len() && seen is None
            ==> recall(notes, offset, requested, seen, shelf) is Err && (recall(
            notes,
            offset,
            requested,
            seen,
            shelf,
        )->Err_0).code == "INVALID_INPUT"@,
        requested > 0 && notes.len() > 0 && shelf == Shelf::Active && 0 < notes[0].key.len()
            && utf8_len(notes[0].key) <= 256 && utf8_len(notes[0].value) > 65_536 ==> recall(
            notes,
            offset,
            requested,
            seen,
            shelf,
        ) is Err && (recall(notes, offset, requested, seen, shelf)->Err_0).code
            == "RESOURCE_LIMIT_EXCEEDED"@,
{
    if notes_are_whole(notes, shelf) {
        lemma_whole_notes(notes, shelf);
    }
}

/// What a note is refused for: its key, its value, the number of notes, their bytes.
pub proof fn refused_note_says_why(notes: Seq<NoteView>, note: NoteView)
    ensures
        note.key.len() == 0 ==> set_refusal(notes, note) is Some && (set_refusal(notes, note)->0).code
            == "INVALID_INPUT"@ && archive_refusal(notes, note) is Some && (archive_refusal(
            notes,
            note,
        )->0).code == "INVALID_INPUT"@,
        note.key.len() > 0 && utf8_len(note.key) > 256 ==> set_refusal(notes, note) is Some && (
        set_refusal(notes, note)->0).code == "INPUT_TOO_LARGE"@ && archive_refusal(notes, note)
            is Some && (archive_refusal(notes, note)->0).code == "INPUT_TOO_LARGE"@,
        note.key.len() > 0 && utf8_len(note.key) <= 256 && utf8_len(note.value) > 65_536
            ==> set_refusal(notes, note) is Some && (set_refusal(notes, note)->0).code
            == "INPUT_TOO_LARGE"@,
        note.key.len() > 0 && utf8_len(note.key) <= 256 && utf8_len(note.value) <= 65_536
            && set_refusal(notes, note) is Some ==> (set_refusal(notes, note)->0).code
            == "RESOURCE_LIMIT_EXCEEDED"@,
        note.key.len() > 0 && utf8_len(note.key) <= 256 && utf8_len(note.value) <= 262_144
            && archive_refusal(notes, note) is Some ==> (archive_refusal(notes, note)->0).code
            == "RESOURCE_LIMIT_EXCEEDED"@,
{
}

/// The state of a project is its active memory and its plan.
pub proof fn state_is_memory_and_plan(rows: ProjectView)
    ensures
        project_state(rows) is Ok <==> state_notes(rows.memories) is Ok && stored_plan(rows.plan)
            is Ok,
        project_state(rows) is Ok ==> {
            let (shown, hash, plan) = project_state(rows)->Ok_0;
            &&& state_notes(rows.memories)->Ok_0 == (shown, hash)
            &&& stored_plan(rows.plan)->Ok_0 == plan
        },
        rows.plan is None ==> stored_plan(rows.plan) == Ok::<
            Option<crate::storage::plans::PlanView>,
            ErrorView,
        >(None),
{
}

/// What is hashed of notes: one behind the other, of each the length of its key in eight
/// bytes and the key, then the length of its value and the value.
pub proof fn keys_and_values_are_hashed_in_order(note: NoteView, rest: Seq<NoteView>)
    ensures
        ({
            let bytes = hashed_notes(seq![note] + rest);
            let k = utf8_len(note.key) as int;
            let v = utf8_len(note.value) as int;
            &&& bytes.len() >= 16 + k + v
            &&& bytes.subrange(0, 8) == be64(k as nat)
            &&& bytes.subrange(8, 8 + k) == encode_utf8(note.key)
            &&& bytes.subrange(8 + k, 16 + k) == be64(v as nat)
            &&& bytes.subrange(16 + k, 16 + k + v) == encode_utf8(note.value)
            &&& bytes.skip(16 + k + v) == hashed_notes(rest)
        }),
        hashed_notes(Seq::empty()) == Seq::<u8>::empty(),
        hash_label(Shelf::Active) == "codexbridge-memory-v1\0"@,
        hash_label(Shelf::Archive) == "codexbridge-memory-archive-v1\0"@,
{
    let all = seq![note] + rest;
    let bytes = hashed_notes(all);
    let k = utf8_len(note.key) as int;
    let v = utf8_len(note.value) as int;
    assert(all.skip(1) =~= rest);
    assert(all[0] == note);
    assert(bytes.subrange(0, 8) =~= be64(k as nat));
    assert(bytes.subrange(8, 8 + k) =~= encode_utf8(note.key));
    assert(bytes.subrange(8 + k, 16 + k) =~= be64(v as nat));
    assert(bytes.subrange(16 + k, 16 + k + v) =~= encode_utf8(note.value));
    assert(bytes.skip(16 + k + v) =~= hashed_notes(rest));
}

}
