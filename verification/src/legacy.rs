//! How the legacy text of the task log is laid out: each entry's text in
//! turn, with a date heading exactly where the day changes.

use vstd::prelude::*;
use crate::pivot::{day_of, legacy_from, legacy_line, legacy_text, sort_by_time, EntryView};

verus! {

/// The day of the entry written just before entry `i`: `last_day` for the
/// first entry.
pub open spec fn previous_day(entries: Seq<EntryView>, last_day: Seq<char>, i: int) -> Seq<char> {
    if i == 0 {
        last_day
    } else {
        day_of(entries[i - 1])
    }
}

/// The text written for entry `i`: a date heading exactly when its day differs
/// from the day of the entry before it (after an empty line unless nothing was
/// written before), then its line.
pub open spec fn entry_piece(entries: Seq<EntryView>, last_day: Seq<char>, i: int) -> Seq<char> {
    let day = day_of(entries[i]);
    let before = previous_day(entries, last_day, i);
    (if day != before {
        (if before.len() > 0 {
            "\n"@
        } else {
            Seq::<char>::empty()
        }) + day + "\n"@
    } else {
        Seq::<char>::empty()
    }) + legacy_line(entries[i])
}

/// The legacy text is the texts of the entries, in order, each one headed by
/// its date exactly when its day differs from the day of the entry just before
/// it: every day's heading is written once, before the first entry of that day.
pub proof fn lemma_legacy_text_by_entry(entries: Seq<EntryView>, last_day: Seq<char>)
    ensures
        legacy_from(entries, last_day) == Seq::new(
            entries.len(),
            |i: int| entry_piece(entries, last_day, i),
        ).flatten(),
    decreases entries.len(),
{
    let pieces = Seq::new(entries.len(), |i: int| entry_piece(entries, last_day, i));
    if entries.len() > 0 {
        let rest = entries.drop_first();
        let day = day_of(entries[0]);
        lemma_legacy_text_by_entry(rest, day);
        let rest_pieces = Seq::new(rest.len(), |i: int| entry_piece(rest, day, i));
        assert forall|i: int| 0 <= i < rest_pieces.len() implies rest_pieces[i] == pieces.drop_first()[i] by {
            assert(rest[i] == entries[i + 1]);
            if i > 0 {
                assert(rest[i - 1] == entries[i]);
            }
        }
        assert(pieces.drop_first() =~= rest_pieces);
        assert(pieces.first() == entry_piece(entries, last_day, 0));
    } else {
        assert(pieces =~= Seq::<Seq<char>>::empty());
    }
}

/// The exported text of a log: the entries in order of time, each headed by
/// its date exactly when its day differs from that of the entry before it.
pub proof fn lemma_legacy_text_headings(entries: Seq<EntryView>)
    ensures
        legacy_text(entries) == Seq::new(
            sort_by_time(entries).len(),
            |i: int| entry_piece(sort_by_time(entries), Seq::empty(), i),
        ).flatten(),
{
    lemma_legacy_text_by_entry(sort_by_time(entries), Seq::empty());
}

} // verus!
