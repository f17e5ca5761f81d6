//! What always holds of notes, pages and hashes.
use vstd::prelude::*;
use vstd::utf8::{encode_utf8, encode_utf8_decode_utf8};

use crate::digest::be64;
use crate::error::ErrorView;
use crate::storage::notes::{
    archive_refusal, drop_note, key_refusal, lemma_note_index, lemma_note_place, lemma_total_insert,
    lemma_total_put, note_bytes, note_index, note_place, note_value, notes_sorted, put_note,
    set_refusal, stored_prefix, total_bytes, NoteView, RecordView, MEMORY_ARCHIVE_MAX_ENTRIES,
    MEMORY_ARCHIVE_MAX_TOTAL_BYTES, MEMORY_MAX_ENTRIES, MEMORY_MAX_TOTAL_BYTES,
    MEMORY_RECALL_MAX_BYTES,
};
use crate::storage::projects::{project_state, read_note, state_notes, state_refusal};
use crate::storage::recall::{
    hash_answer, hash_refusal, hashed_notes, lemma_page_len, page, page_len, page_limit, recall,
    record_bytes, shown_note, shown_notes, snapshot_hash, unhashable, Shelf,
};
use crate::storage::{ProjectView, StorageView};
use crate::text::{
    lemma_less_irreflexive, lemma_less_total, lemma_less_transitive, text_less, utf8_len,
};

verus! {

/// What every write keeps true of the active memory.
pub open spec fn memory_valid(notes: Seq<NoteView>) -> bool {
    &&& notes_sorted(notes)
    &&& notes.len() <= MEMORY_MAX_ENTRIES
    &&& total_bytes(notes) <= MEMORY_MAX_TOTAL_BYTES
    &&& forall|i: int|
        0 <= i < notes.len() ==> unhashable(#[trigger] notes[i], Shelf::Active) is None
}

/// What every write keeps true of the archive.
pub open spec fn archive_valid(notes: Seq<NoteView>) -> bool {
    &&& notes_sorted(notes)
    &&& notes.len() <= MEMORY_ARCHIVE_MAX_ENTRIES
    &&& total_bytes(notes) <= MEMORY_ARCHIVE_MAX_TOTAL_BYTES
    &&& forall|i: int|
        0 <= i < notes.len() ==> unhashable(#[trigger] notes[i], Shelf::Archive) is None
}

/// A note that is written is read back under its key; every other key reads as
/// before.
pub proof fn written_note_is_read_back(notes: Seq<NoteView>, note: NoteView, other: Seq<char>)
    ensures
        note_value(put_note(notes, note), note.key) == Some(note.value),
        other != note.key ==> note_value(put_note(notes, note), other) == note_value(notes, other),
{
    let after = put_note(notes, note);
    lemma_note_index(notes, note.key);
    lemma_note_place(notes, note.key);
    lemma_note_index(after, note.key);
    lemma_note_index(notes, other);
    lemma_note_index(after, other);
    match note_index(notes, note.key) {
        Some(i) => {
            assert(after[i] == note);
            let j = note_index(after, note.key)->0;
            if j < i {
                assert(after[j] == notes[j]);
            }
            if other != note.key {
                assert forall|k: int| 0 <= k < notes.len() implies ((#[trigger] notes[k]).key
                    == other) == (after[k].key == other) by {}
                if note_index(after, other) is Some && note_index(notes, other) is Some {
                    let p = note_index(after, other)->0;
                    let q = note_index(notes, other)->0;
                    assert(after[q].key == other);
                    assert(notes[p].key == other);
                    assert(p == q);
                } else if note_index(after, other) is Some {
                    assert(notes[note_index(after, other)->0].key == other);
                } else if note_index(notes, other) is Some {
                    assert(after[note_index(notes, other)->0].key == other);
                }
            }
        },
        None => {
            let p = note_place(notes, note.key);
            assert(after[p] == note);
            let j = note_index(after, note.key)->0;
            if j != p {
                if j < p {
                    assert(after[j] == notes[j]);
                } else {
                    assert(after[j] == notes[j - 1]);
                }
            }
            if other != note.key {
                if let Some(q) = note_index(notes, other) {
                    let moved = if q < p {
                        q
                    } else {
                        q + 1
                    };
                    assert(after[moved] == notes[q]);
                    let r = note_index(after, other)->0;
                    if r < moved {
                        if r < p {
                            assert(after[r] == notes[r]);
                        } else {
                            assert(after[r] == notes[r - 1]);
                        }
                    }
                }
                if let Some(r) = note_index(after, other) {
                    if r < p {
                        assert(after[r] == notes[r]);
                    } else {
                        assert(r != p);
                        assert(after[r] == notes[r - 1]);
                    }
                }
            }
        },
    }
}

/// A note that is taken out is not read any more; every other key reads as
/// before.
pub proof fn dropped_note_is_gone(notes: Seq<NoteView>, key: Seq<char>, other: Seq<char>)
    requires
        notes_sorted(notes),
    ensures
        note_value(drop_note(notes, key), key) is None,
        other != key ==> note_value(drop_note(notes, key), other) == note_value(notes, other),
{
    let after = drop_note(notes, key);
    lemma_note_index(notes, key);
    lemma_note_index(after, key);
    lemma_note_index(notes, other);
    lemma_note_index(after, other);
    if let Some(i) = note_index(notes, key) {
        if let Some(j) = note_index(after, key) {
            let k = if j < i {
                j
            } else {
                j + 1
            };
            assert(after[j] == notes[k]);
            lemma_less_irreflexive(key);
            if k < i {
                assert(text_less(notes[k].key, notes[i].key));
            } else {
                assert(text_less(notes[i].key, notes[k].key));
            }
        }
        if other != key {
            if let Some(q) = note_index(notes, other) {
                let moved = if q < i {
                    q
                } else {
                    q - 1
                };
                assert(after[moved] == notes[q]);
                let r = note_index(after, other)->0;
                if r < moved {
                    if r < i {
                        assert(after[r] == notes[r]);
                    } else {
                        assert(after[r] == notes[r + 1]);
                    }
                }
            }
            if let Some(r) = note_index(after, other) {
                if r < i {
                    assert(after[r] == notes[r]);
                } else {
                    assert(after[r] == notes[r + 1]);
                }
            }
        }
    }
}

pub proof fn lemma_put_sorted(notes: Seq<NoteView>, note: NoteView)
    requires
        notes_sorted(notes),
    ensures
        notes_sorted(put_note(notes, note)),
{
    let after = put_note(notes, note);
    lemma_note_index(notes, note.key);
    lemma_note_place(notes, note.key);
    match note_index(notes, note.key) {
        Some(i) => {
            assert forall|a: int, b: int| 0 <= a < b < after.len() implies text_less(
                (#[trigger] after[a]).key,
                (#[trigger] after[b]).key,
            ) by {
                assert(text_less(notes[a].key, notes[b].key));
            }
        },
        None => {
            let p = note_place(notes, note.key);
            assert forall|a: int, b: int| 0 <= a < b < after.len() implies text_less(
                (#[trigger] after[a]).key,
                (#[trigger] after[b]).key,
            ) by {
                if b == p {
                    assert(after[a] == notes[a]);
                } else if a == p {
                    assert(after[b] == notes[b - 1]);
                    lemma_less_total(note.key, notes[p].key);
                    assert(text_less(note.key, notes[p].key));
                    if b - 1 > p {
                        assert(text_less(notes[p].key, notes[b - 1].key));
                        lemma_less_transitive(note.key, notes[p].key, notes[b - 1].key);
                    }
                } else {
                    let x = if a < p {
                        a
                    } else {
                        a - 1
                    };
                    let y = if b < p {
                        b
                    } else {
                        b - 1
                    };
                    assert(after[a] == notes[x] && after[b] == notes[y]);
                    assert(text_less(notes[x].key, notes[y].key));
                }
            }
        },
    }
}

proof fn lemma_drop_sorted(notes: Seq<NoteView>, key: Seq<char>)
    requires
        notes_sorted(notes),
    ensures
        notes_sorted(drop_note(notes, key)),
        drop_note(notes, key).len() <= notes.len(),
        total_bytes(drop_note(notes, key)) <= total_bytes(notes),
{
    lemma_note_index(notes, key);
    if let Some(i) = note_index(notes, key) {
        let after = notes.remove(i);
        assert forall|a: int, b: int| 0 <= a < b < after.len() implies text_less(
            (#[trigger] after[a]).key,
            (#[trigger] after[b]).key,
        ) by {
            let x = if a < i {
                a
            } else {
                a + 1
            };
            let y = if b < i {
                b
            } else {
                b + 1
            };
            assert(after[a] == notes[x] && after[b] == notes[y]);
            assert(text_less(notes[x].key, notes[y].key));
        }
        lemma_total_insert(after, i, notes[i]);
        assert(after.insert(i, notes[i]) =~= notes);
    }
}

proof fn lemma_put_hashable(notes: Seq<NoteView>, note: NoteView, shelf: Shelf)
    requires
        unhashable(note, shelf) is None,
        forall|i: int| 0 <= i < notes.len() ==> unhashable(#[trigger] notes[i], shelf) is None,
    ensures
        forall|i: int|
            0 <= i < put_note(notes, note).len() ==> unhashable(
                #[trigger] put_note(notes, note)[i],
                shelf,
            ) is None,
{
    let after = put_note(notes, note);
    lemma_note_index(notes, note.key);
    lemma_note_place(notes, note.key);
    assert forall|i: int| 0 <= i < after.len() implies unhashable(
        #[trigger] after[i],
        shelf,
    ) is None by {
        match note_index(notes, note.key) {
            Some(k) => {
                if i != k {
                    assert(after[i] == notes[i]);
                }
            },
            None => {
                let p = note_place(notes, note.key);
                if i < p {
                    assert(after[i] == notes[i]);
                } else if i > p {
                    assert(after[i] == notes[i - 1]);
                }
            },
        }
    }
}

/// The active memory never outgrows its quotas: a note that is not refused
/// leaves it within them, its keys in order.
pub proof fn written_memory_stays_valid(notes: Seq<NoteView>, note: NoteView)
    requires
        memory_valid(notes),
        set_refusal(notes, note) is None,
    ensures
        memory_valid(put_note(notes, note)),
{
    lemma_put_sorted(notes, note);
    lemma_put_hashable(notes, note, Shelf::Active);
    lemma_note_index(notes, note.key);
    lemma_note_place(notes, note.key);
}

/// The archive never outgrows its quotas.
pub proof fn written_archive_stays_valid(notes: Seq<NoteView>, note: NoteView)
    requires
        archive_valid(notes),
        archive_refusal(notes, note) is None,
    ensures
        archive_valid(put_note(notes, note)),
{
    lemma_put_sorted(notes, note);
    lemma_put_hashable(notes, note, Shelf::Archive);
    lemma_note_index(notes, note.key);
    lemma_note_place(notes, note.key);
}

/// Taking a note out keeps active memory and archive within their quotas.
pub proof fn dropping_keeps_notes_valid(notes: Seq<NoteView>, key: Seq<char>)
    ensures
        memory_valid(notes) ==> memory_valid(drop_note(notes, key)),
        archive_valid(notes) ==> archive_valid(drop_note(notes, key)),
{
    let after = drop_note(notes, key);
    lemma_note_index(notes, key);
    if notes_sorted(notes) {
        lemma_drop_sorted(notes, key);
    }
    if let Some(k) = note_index(notes, key) {
        assert forall|i: int| 0 <= i < after.len() implies #[trigger] after[i] == notes[if i < k {
            i
        } else {
            i + 1
        }] by {}
    }
}

/// A note replaced by a shorter one is never refused for lack of room.
pub proof fn shrinking_a_note_is_never_refused(notes: Seq<NoteView>, note: NoteView)
    requires
        memory_valid(notes),
        note_index(notes, note.key) is Some,
        utf8_len(note.value) <= utf8_len(note_value(notes, note.key)->0),
    ensures
        set_refusal(notes, note) is None,
{
    lemma_note_index(notes, note.key);
    let i = note_index(notes, note.key)->0;
    lemma_total_put(notes, note);
    lemma_total_insert(notes.remove(i), i, notes[i]);
    assert(notes.remove(i).insert(i, notes[i]) =~= notes);
    assert(unhashable(notes[i], Shelf::Active) is None);
}

proof fn lemma_hashable(notes: Seq<NoteView>, shelf: Shelf)
    requires
        forall|i: int| 0 <= i < notes.len() ==> unhashable(#[trigger] notes[i], shelf) is None,
    ensures
        hash_refusal(notes, shelf) is None,
    decreases notes.len(),
{
    if notes.len() > 0 {
        let rest = notes.skip(1);
        assert forall|i: int| 0 <= i < rest.len() implies unhashable(
            #[trigger] rest[i],
            shelf,
        ) is None by {
            assert(rest[i] == notes[i + 1]);
        }
        lemma_hashable(rest, shelf);
    }
}

proof fn lemma_total_front(notes: Seq<NoteView>)
    requires
        notes.len() > 0,
    ensures
        total_bytes(notes) == note_bytes(notes[0]) + total_bytes(notes.skip(1)),
{
    let rest = notes.skip(1);
    lemma_total_insert(rest, 0, notes[0]);
    assert(rest.insert(0, notes[0]) =~= notes);
}

proof fn lemma_state_accepted(notes: Seq<NoteView>, used: nat)
    requires
        forall|i: int|
            0 <= i < notes.len() ==> unhashable(#[trigger] notes[i], Shelf::Active) is None,
        used + total_bytes(notes) <= MEMORY_MAX_TOTAL_BYTES,
    ensures
        state_refusal(notes, used) is None,
    decreases notes.len(),
{
    if notes.len() > 0 {
        let rest = notes.skip(1);
        lemma_total_front(notes);
        assert forall|i: int| 0 <= i < rest.len() implies unhashable(
            #[trigger] rest[i],
            Shelf::Active,
        ) is None by {
            assert(rest[i] == notes[i + 1]);
        }
        lemma_state_accepted(rest, used + note_bytes(notes[0]));
    }
}

/// Memory within its quotas can always be hashed, paged from its start and made
/// part of a turn.
pub proof fn valid_memory_is_readable(notes: Seq<NoteView>, requested: int)
    requires
        memory_valid(notes),
        requested > 0,
    ensures
        hash_answer(notes, Shelf::Active) is Ok,
        recall(notes, 0, requested, None, Shelf::Active) is Ok,
        state_notes(notes) is Ok,
{
    lemma_hashable(notes, Shelf::Active);
    lemma_state_accepted(notes, 0);
}

/// A key within the limits never reads an error from valid notes.
pub proof fn valid_note_is_readable(notes: Seq<NoteView>, key: Seq<char>)
    requires
        key_refusal(key) is None,
    ensures
        memory_valid(notes) ==> read_note(notes, key, Shelf::Active) == Ok::<
            Option<Seq<char>>,
            ErrorView,
        >(note_value(notes, key)),
        archive_valid(notes) ==> read_note(notes, key, Shelf::Archive) == Ok::<
            Option<Seq<char>>,
            ErrorView,
        >(note_value(notes, key)),
{
    lemma_note_index(notes, key);
    if let Some(i) = note_index(notes, key) {
        if memory_valid(notes) {
            assert(unhashable(notes[i], Shelf::Active) is None);
        }
        if archive_valid(notes) {
            assert(unhashable(notes[i], Shelf::Archive) is None);
        }
    }
}

/// The same keys and values, in the same order.
pub open spec fn same_notes(a: Seq<NoteView>, b: Seq<NoteView>) -> bool {
    a.len() == b.len() && forall|i: int|
        0 <= i < a.len() ==> (#[trigger] a[i]).key == b[i].key && a[i].value == b[i].value
}

/// The hash depends on keys and values alone, not on when they were written.
pub proof fn hash_ignores_times(a: Seq<NoteView>, b: Seq<NoteView>, shelf: Shelf)
    requires
        same_notes(a, b),
    ensures
        snapshot_hash(a, shelf) == snapshot_hash(b, shelf),
        hash_answer(a, shelf) == hash_answer(b, shelf),
{
    lemma_same_hashed(a, b, shelf);
}

proof fn lemma_same_hashed(a: Seq<NoteView>, b: Seq<NoteView>, shelf: Shelf)
    requires
        same_notes(a, b),
    ensures
        hashed_notes(a) == hashed_notes(b),
        hash_refusal(a, shelf) == hash_refusal(b, shelf),
    decreases a.len(),
{
    if a.len() > 0 {
        let x = a.skip(1);
        let y = b.skip(1);
        assert(a[0].key == b[0].key && a[0].value == b[0].value);
        assert forall|i: int| 0 <= i < x.len() implies (#[trigger] x[i]).key == y[i].key
            && x[i].value == y[i].value by {
            assert(x[i] == a[i + 1] && y[i] == b[i + 1]);
            assert(a[i + 1].key == b[i + 1].key);
        }
        lemma_same_hashed(x, y, shelf);
    }
}

/// Lengths that fit their eight bytes.
pub open spec fn lengths_fit(notes: Seq<NoteView>) -> bool {
    forall|i: int|
        0 <= i < notes.len() ==> utf8_len((#[trigger] notes[i]).key) < 0x1_0000_0000_0000_0000
            && utf8_len(notes[i].value) < 0x1_0000_0000_0000_0000
}

proof fn lemma_be64_injective(a: nat, b: nat)
    requires
        a < 0x1_0000_0000_0000_0000,
        b < 0x1_0000_0000_0000_0000,
        be64(a) == be64(b),
    ensures
        a == b,
{
    let x = be64(a);
    let y = be64(b);
    assert(x[0] == y[0] && x[1] == y[1] && x[2] == y[2] && x[3] == y[3] && x[4] == y[4] && x[5]
        == y[5] && x[6] == y[6] && x[7] == y[7]);
    lemma_be64_value(a);
    lemma_be64_value(b);
}

proof fn lemma_be64_value(n: nat)
    requires
        n < 0x1_0000_0000_0000_0000,
    ensures
        n == ((((((be64(n)[0] * 256 + be64(n)[1]) * 256 + be64(n)[2]) * 256 + be64(n)[3]) * 256
            + be64(n)[4]) * 256 + be64(n)[5]) * 256 + be64(n)[6]) * 256 + be64(n)[7],
{
    let a = n / 0x100;
    let b = n / 0x1_0000;
    let c = n / 0x100_0000;
    let d = n / 0x1_0000_0000;
    let e = n / 0x100_0000_0000;
    let f = n / 0x1_0000_0000_0000;
    let g = n / 0x100_0000_0000_0000;
    assert(a / 256 == b && b / 256 == c && c / 256 == d && d / 256 == e && e / 256 == f && f / 256
        == g && g < 256);
}

proof fn lemma_regroup(a: Seq<u8>, b: Seq<u8>, c: Seq<u8>, d: Seq<u8>, e: Seq<u8>)
    ensures
        a + b + c + d + e == a + b + (c + d + e),
{
    assert(a + b + c + d + e =~= a + b + (c + d + e));
}

/// Bytes behind their length are told from what follows them.
proof fn lemma_framed(x: Seq<u8>, x_rest: Seq<u8>, y: Seq<u8>, y_rest: Seq<u8>)
    requires
        x.len() < 0x1_0000_0000_0000_0000,
        y.len() < 0x1_0000_0000_0000_0000,
        be64(x.len()) + x + x_rest == be64(y.len()) + y + y_rest,
    ensures
        x == y,
        x_rest == y_rest,
{
    let h = be64(x.len());
    let g = be64(y.len());
    assert(h.len() == 8 && g.len() == 8);
    lemma_framed_by(h, x, x_rest, g, y, y_rest);
    lemma_be64_injective(x.len(), y.len());
    lemma_split(x, x_rest, y, y_rest);
}

proof fn lemma_framed_by(
    h: Seq<u8>,
    x: Seq<u8>,
    x_rest: Seq<u8>,
    g: Seq<u8>,
    y: Seq<u8>,
    y_rest: Seq<u8>,
)
    requires
        h.len() == g.len(),
        h + x + x_rest == g + y + y_rest,
    ensures
        h == g,
        x + x_rest == y + y_rest,
{
    assert((h + x + x_rest).take(h.len() as int) =~= h);
    assert((g + y + y_rest).take(h.len() as int) =~= g);
    assert((h + x + x_rest).skip(h.len() as int) =~= x + x_rest);
    assert((g + y + y_rest).skip(h.len() as int) =~= y + y_rest);
}

proof fn lemma_split(x: Seq<u8>, x_rest: Seq<u8>, y: Seq<u8>, y_rest: Seq<u8>)
    requires
        x.len() == y.len(),
        x + x_rest == y + y_rest,
    ensures
        x == y,
        x_rest == y_rest,
{
    assert((x + x_rest).take(x.len() as int) =~= x);
    assert((y + y_rest).take(x.len() as int) =~= y);
    assert((x + x_rest).skip(x.len() as int) =~= x_rest);
    assert((y + y_rest).skip(x.len() as int) =~= y_rest);
}

/// What is hashed tells notes apart: equal bytes come of equal keys and values.
pub proof fn hashed_bytes_tell_notes_apart(a: Seq<NoteView>, b: Seq<NoteView>)
    requires
        lengths_fit(a),
        lengths_fit(b),
        hashed_notes(a) == hashed_notes(b),
    ensures
        same_notes(a, b),
    decreases a.len(),
{
    if a.len() == 0 || b.len() == 0 {
        if a.len() > 0 {
            assert(hashed_notes(a).len() >= 8);
        }
        if b.len() > 0 {
            assert(hashed_notes(b).len() >= 8);
        }
    } else {
        let ka = encode_utf8(a[0].key);
        let kb = encode_utf8(b[0].key);
        let va = encode_utf8(a[0].value);
        let vb = encode_utf8(b[0].value);
        let ra = hashed_notes(a.skip(1));
        let rb = hashed_notes(b.skip(1));
        assert(utf8_len(a[0].key) == ka.len() && utf8_len(b[0].key) == kb.len());
        assert(utf8_len(a[0].value) == va.len() && utf8_len(b[0].value) == vb.len());
        lemma_regroup(be64(ka.len()), ka, be64(va.len()), va, ra);
        lemma_regroup(be64(kb.len()), kb, be64(vb.len()), vb, rb);
        lemma_framed(ka, be64(va.len()) + va + ra, kb, be64(vb.len()) + vb + rb);
        lemma_framed(va, ra, vb, rb);
        encode_utf8_decode_utf8(a[0].key);
        encode_utf8_decode_utf8(b[0].key);
        encode_utf8_decode_utf8(a[0].value);
        encode_utf8_decode_utf8(b[0].value);
        assert(a[0].key == b[0].key && a[0].value == b[0].value);
        assert(lengths_fit(a.skip(1))) by {
            assert forall|i: int| 0 <= i < a.skip(1).len() implies utf8_len(
                (#[trigger] a.skip(1)[i]).key,
            ) < 0x1_0000_0000_0000_0000 && utf8_len(a.skip(1)[i].value)
                < 0x1_0000_0000_0000_0000 by {
                assert(a.skip(1)[i] == a[i + 1]);
            }
        }
        assert(lengths_fit(b.skip(1))) by {
            assert forall|i: int| 0 <= i < b.skip(1).len() implies utf8_len(
                (#[trigger] b.skip(1)[i]).key,
            ) < 0x1_0000_0000_0000_0000 && utf8_len(b.skip(1)[i].value)
                < 0x1_0000_0000_0000_0000 by {
                assert(b.skip(1)[i] == b[i + 1]);
            }
        }
        hashed_bytes_tell_notes_apart(a.skip(1), b.skip(1));
        assert forall|i: int| 0 <= i < a.len() implies (#[trigger] a[i]).key == b[i].key
            && a[i].value == b[i].value by {
            if i > 0 {
                assert(a[i] == a.skip(1)[i - 1] && b[i] == b.skip(1)[i - 1]);
            }
        }
    }
}

proof fn lemma_prefix_bytes(text: Seq<char>, count: int)
    ensures
        utf8_len(stored_prefix(text, count)) <= utf8_len(text),
    decreases text.len(),
{
    if !(count <= 0 || text.len() == 0 || text[0] == '\0') {
        lemma_prefix_bytes(text.skip(1), count - 1);
        let shown = stored_prefix(text, count);
        let rest = stored_prefix(text.skip(1), count - 1);
        assert(shown.drop_first() =~= rest);
        assert(text.drop_first() =~= text.skip(1));
        assert(shown[0] == text[0]);
        assert(encode_utf8(shown) == vstd::utf8::encode_scalar(shown[0] as u32) + encode_utf8(
            shown.drop_first(),
        ));
        assert(encode_utf8(text) == vstd::utf8::encode_scalar(text[0] as u32) + encode_utf8(
            text.drop_first(),
        ));
    } else {
        assert(encode_utf8(Seq::<char>::empty()).len() == 0);
    }
}

/// A page that has notes before it shows at least one: paging always moves on.
pub proof fn page_moves_on(notes: Seq<NoteView>, offset: nat, requested: int, shelf: Shelf)
    requires
        requested > 0,
        offset < notes.len(),
        hash_refusal(notes, shelf) is None,
    ensures
        page(notes, offset, page_limit(requested), shelf).notes.len() > 0,
{
    lemma_refusal_none(notes, shelf, offset as int);
    let rows = shown_notes(notes, shelf).skip(offset as int);
    let first = notes[offset as int];
    assert(rows[0] == shown_note(first, shelf));
    lemma_prefix_bytes(first.key, crate::storage::notes::MEMORY_KEY_MAX_BYTES + 1);
    lemma_prefix_bytes(first.value, crate::storage::notes::MEMORY_VALUE_MAX_BYTES + 1);
    lemma_page_len(
        rows.skip(1),
        page_limit(requested) - 1,
        MEMORY_RECALL_MAX_BYTES - record_bytes(rows[0]),
    );
    lemma_page_len(rows, page_limit(requested), MEMORY_RECALL_MAX_BYTES as int);
}

proof fn lemma_refusal_none(notes: Seq<NoteView>, shelf: Shelf, i: int)
    requires
        hash_refusal(notes, shelf) is None,
        0 <= i < notes.len(),
    ensures
        unhashable(notes[i], shelf) is None,
    decreases notes.len(),
{
    if i > 0 {
        assert(notes.skip(1)[i - 1] == notes[i]);
        lemma_refusal_none(notes.skip(1), shelf, i - 1);
    }
}

/// All that is shown from `offset` on by following each page to the next.
pub open spec fn all_pages(
    notes: Seq<NoteView>,
    offset: nat,
    requested: int,
    shelf: Shelf,
) -> Seq<RecordView>
    decreases notes.len() - offset,
{
    let shown = page(notes, offset, page_limit(requested), shelf);
    match shown.next_offset {
        Some(next) if next > offset && next <= notes.len() => shown.notes + all_pages(
            notes,
            next,
            requested,
            shelf,
        ),
        _ => shown.notes,
    }
}

/// Following the pages of one snapshot shows every note once, in order.
pub proof fn pages_show_everything_once(
    notes: Seq<NoteView>,
    offset: nat,
    requested: int,
    shelf: Shelf,
)
    requires
        requested > 0,
        offset <= notes.len(),
        hash_refusal(notes, shelf) is None,
    ensures
        all_pages(notes, offset, requested, shelf) == shown_notes(notes, shelf).skip(offset as int),
    decreases notes.len() - offset,
{
    let rows = shown_notes(notes, shelf).skip(offset as int);
    let shown = page(notes, offset, page_limit(requested), shelf);
    lemma_page_len(rows, page_limit(requested), MEMORY_RECALL_MAX_BYTES as int);
    if offset < notes.len() {
        page_moves_on(notes, offset, requested, shelf);
    }
    match shown.next_offset {
        Some(next) => {
            pages_show_everything_once(notes, next, requested, shelf);
            assert(shown.notes + shown_notes(notes, shelf).skip(next as int) =~= rows);
        },
        None => {
            assert(shown.notes =~= rows);
        },
    }
}

/// A page shows no more notes and no more bytes than a page may.
pub proof fn page_is_bounded(notes: Seq<NoteView>, offset: nat, requested: int, shelf: Shelf)
    requires
        requested >= 0,
        offset <= notes.len(),
    ensures
        page(notes, offset, page_limit(requested), shelf).notes.len() <= page_limit(requested),
        page_limit(requested) <= crate::storage::notes::MEMORY_RECALL_MAX_ENTRIES,
        records_bytes(page(notes, offset, page_limit(requested), shelf).notes)
            <= MEMORY_RECALL_MAX_BYTES,
{
    let rows = shown_notes(notes, shelf).skip(offset as int);
    lemma_page_len(rows, page_limit(requested), MEMORY_RECALL_MAX_BYTES as int);
    lemma_page_bytes(rows, page_limit(requested), MEMORY_RECALL_MAX_BYTES as int);
}

pub open spec fn records_bytes(rows: Seq<RecordView>) -> nat
    decreases rows.len(),
{
    if rows.len() == 0 {
        0
    } else {
        record_bytes(rows[0]) + records_bytes(rows.skip(1))
    }
}

proof fn lemma_page_bytes(rows: Seq<RecordView>, requested: int, room: int)
    requires
        room >= 0,
    ensures
        records_bytes(rows.take(page_len(rows, requested, room))) <= room,
    decreases rows.len(),
{
    lemma_page_len(rows, requested, room);
    if !(rows.len() == 0 || requested <= 0 || record_bytes(rows[0]) > room) {
        let rest = rows.skip(1);
        let left = room - record_bytes(rows[0]);
        lemma_page_bytes(rest, requested - 1, left);
        lemma_page_len(rest, requested - 1, left);
        let n = page_len(rows, requested, room);
        assert(rows.take(n).skip(1) =~= rest.take(n - 1));
        assert(rows.take(n)[0] == rows[0]);
    }
}

/// A page asked for under the hash of other notes is refused: with notes that
/// hash differently, nothing is repeated or left out.
pub proof fn changed_notes_make_pages_stale(
    notes: Seq<NoteView>,
    offset: nat,
    requested: int,
    seen: Seq<char>,
    shelf: Shelf,
)
    requires
        seen != snapshot_hash(notes, shelf),
    ensures
        recall(notes, offset, requested, Some(seen), shelf) is Err,
{
}

/// The archive has no part in the state of a turn.
pub proof fn archive_is_no_part_of_a_turn(rows: ProjectView, archive: Seq<NoteView>)
    ensures
        project_state(ProjectView { archive, ..rows }) == project_state(rows),
{
}

/// What is stored of one project does not touch what is stored of another, nor
/// who is bound to which.
pub proof fn projects_are_apart(
    store: StorageView,
    project: Seq<char>,
    rows: ProjectView,
    other: Seq<char>,
)
    requires
        other != project,
        store.projects.contains_key(other),
    ensures
        ({
            let after = StorageView { projects: store.projects.insert(project, rows), ..store };
            &&& after.projects[project] == rows
            &&& after.projects[other] == store.projects[other]
            &&& after.bindings == store.bindings && after.aliases == store.aliases
            &&& after.turns == store.turns
        }),
{
}

}
