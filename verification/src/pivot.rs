//! The task transition log: each entry records an instant at which some
//! tasks ended and others started, and the log can be written out in the
//! legacy day-by-day text form.

use vstd::prelude::*;
use vstd::string::*;
use crate::clock::{clock_text, date_text, not_later, unix_day, Timestamp};

verus! {

/// One transition: the tasks that just ended and the tasks that start now.
#[derive(Debug, Clone)]
pub struct LogEntry {
    pub timestamp: Timestamp,
    pub ended_tasks: Vec<String>,
    pub started_tasks: Vec<String>,
}

/// An entry as a value.
pub struct EntryView {
    pub timestamp: Timestamp,
    pub ended_tasks: Seq<Seq<char>>,
    pub started_tasks: Seq<Seq<char>>,
}

/// The texts of a list of strings.
pub open spec fn texts(list: Seq<String>) -> Seq<Seq<char>> {
    list.map_values(|s: String| s@)
}

impl View for LogEntry {
    type V = EntryView;

    open spec fn view(&self) -> EntryView {
        EntryView {
            timestamp: self.timestamp,
            ended_tasks: texts(self.ended_tasks@),
            started_tasks: texts(self.started_tasks@),
        }
    }
}

/// The entries of a list, as values.
pub open spec fn entry_views(entries: Seq<LogEntry>) -> Seq<EntryView> {
    entries.map_values(|e: LogEntry| e@)
}

/// The log, and the file it is kept in.
#[derive(Debug)]
pub struct PivotDb {
    pub entries: Vec<LogEntry>,
    pub file_path: String,
}

/// `sorted` with `e` placed after every entry that is not later than it,
/// counting from the end: in a list sorted by time, `e` goes after the last
/// entry not later than it, so entries at the same instant keep their order.
pub open spec fn insert_by_time(sorted: Seq<EntryView>, e: EntryView) -> Seq<EntryView>
    decreases sorted.len(),
{
    if sorted.len() == 0 {
        seq![e]
    } else if not_later(sorted.last().timestamp, e.timestamp) {
        sorted.push(e)
    } else {
        insert_by_time(sorted.drop_last(), e).push(sorted.last())
    }
}

/// The entries in order of time; entries at the same instant keep the order
/// they have in the log (a stable sort).
pub open spec fn sort_by_time(entries: Seq<EntryView>) -> Seq<EntryView>
    decreases entries.len(),
{
    if entries.len() == 0 {
        entries
    } else {
        insert_by_time(sort_by_time(entries.drop_last()), entries.last())
    }
}

/// Whether a list of entries is in order of time.
pub open spec fn is_sorted_by_time(entries: Seq<EntryView>) -> bool {
    forall|i: int, j: int|
        0 <= i < j < entries.len() ==> not_later(
            (#[trigger] entries[i]).timestamp,
            (#[trigger] entries[j]).timestamp,
        )
}

/// The texts of a list joined, with `sep` between each two.
pub open spec fn join_with(list: Seq<Seq<char>>, sep: Seq<char>) -> Seq<char>
    decreases list.len(),
{
    if list.len() == 0 {
        Seq::empty()
    } else if list.len() == 1 {
        list[0]
    } else {
        join_with(list.drop_last(), sep) + sep + list.last()
    }
}

/// A text padded with spaces on the right to at least `width` characters.
pub open spec fn pad_right(s: Seq<char>, width: nat) -> Seq<char> {
    if s.len() < width {
        s + Seq::new((width - s.len()) as nat, |_i: int| ' ')
    } else {
        s
    }
}

/// The line of one transition: the ended tasks joined by `&` in a column 27
/// characters wide, then ` -HHMM-`, then the started tasks joined by `&`.
pub open spec fn legacy_line(e: EntryView) -> Seq<char> {
    pad_right(join_with(e.ended_tasks, "&"@), 27) + " -"@ + clock_text(e.timestamp.unix_secs())
        + "-"@ + join_with(e.started_tasks, "&"@) + "\n"@
}

/// The day of an entry, as `YYYYMMDD`.
pub open spec fn day_of(e: EntryView) -> Seq<char> {
    date_text(e.timestamp.unix_secs())
}

/// The legacy text of `entries`, written after a day heading `last_day` (empty
/// at the start): a new day starts with its heading on a line of its own,
/// after an empty line unless it is the first, and each entry has its line.
pub open spec fn legacy_from(entries: Seq<EntryView>, last_day: Seq<char>) -> Seq<char>
    decreases entries.len(),
{
    if entries.len() == 0 {
        Seq::empty()
    } else {
        let e = entries[0];
        let day = day_of(e);
        let heading = if day != last_day {
            (if last_day.len() > 0 {
                "\n"@
            } else {
                Seq::<char>::empty()
            }) + day + "\n"@
        } else {
            Seq::<char>::empty()
        };
        heading + legacy_line(e) + legacy_from(entries.drop_first(), day)
    }
}

/// The legacy text of a log: its entries in order of time, grouped by day.
pub open spec fn legacy_text(entries: Seq<EntryView>) -> Seq<char> {
    legacy_from(sort_by_time(entries), Seq::empty())
}

/// Entries on the same UTC day share one date heading: after an entry of a
/// day, the next entry of that day is written without a heading.
pub proof fn lemma_same_day_one_heading(previous: EntryView, entries: Seq<EntryView>)
    requires
        entries.len() > 0,
        unix_day(previous.timestamp.unix_secs()) == unix_day(entries[0].timestamp.unix_secs()),
    ensures
        day_of(previous) == day_of(entries[0]),
        legacy_from(entries, day_of(previous)) == legacy_line(entries[0]) + legacy_from(
            entries.drop_first(),
            day_of(entries[0]),
        ),
{
    assert(Seq::<char>::empty() + legacy_line(entries[0]) =~= legacy_line(entries[0]));
}

/// Where `e` is inserted: after `sorted[..at]`, where every entry from `at`
/// on is later than `e` and the one before `at`, if any, is not.
proof fn lemma_insert_at(sorted: Seq<EntryView>, e: EntryView, at: int)
    requires
        0 <= at <= sorted.len(),
        at > 0 ==> not_later(sorted[at - 1].timestamp, e.timestamp),
        forall|q: int| at <= q < sorted.len() ==> !not_later(#[trigger] sorted[q].timestamp, e.timestamp),
    ensures
        insert_by_time(sorted, e) =~= sorted.take(at).push(e) + sorted.skip(at),
    decreases sorted.len(),
{
    if sorted.len() == 0 {
    } else if at == sorted.len() {
    } else {
        let shorter = sorted.drop_last();
        assert(!not_later(sorted[sorted.len() - 1].timestamp, e.timestamp));
        lemma_insert_at(shorter, e, at);
        assert(shorter.take(at) =~= sorted.take(at));
        assert(shorter.skip(at).push(sorted.last()) =~= sorted.skip(at));
    }
}

/// Inserting by time keeps a sorted list sorted, and adds exactly `e`.
proof fn lemma_insert_by_time_sorted(sorted: Seq<EntryView>, e: EntryView)
    requires
        is_sorted_by_time(sorted),
    ensures
        is_sorted_by_time(insert_by_time(sorted, e)),
        insert_by_time(sorted, e).to_multiset() == sorted.to_multiset().insert(e),
    decreases sorted.len(),
{
    broadcast use vstd::seq_lib::group_to_multiset_ensures;

    if sorted.len() == 0 {
        assert(seq![e] =~= Seq::<EntryView>::empty().push(e));
    } else if not_later(sorted.last().timestamp, e.timestamp) {
    } else {
        let shorter = sorted.drop_last();
        let last = sorted.last();
        assert(sorted =~= shorter.push(last));
        lemma_insert_by_time_sorted(shorter, e);
        let inner = insert_by_time(shorter, e);
        assert forall|i: int| 0 <= i < inner.len() implies not_later(
            (#[trigger] inner[i]).timestamp,
            last.timestamp,
        ) by {
            assert(inner.contains(inner[i]));
            if inner[i] != e {
                assert(inner.to_multiset().count(inner[i]) > 0);
                assert(shorter.to_multiset().count(inner[i]) > 0);
                assert(shorter.contains(inner[i]));
                let k = choose|k: int| 0 <= k < shorter.len() && shorter[k] == inner[i];
                assert(sorted[k] == inner[i]);
            }
        }
    }
}

/// Inserting by time places `e` after every entry at its own instant: the
/// entries at any one instant keep their order, with `e` last among its own.
proof fn lemma_insert_by_time_stable(sorted: Seq<EntryView>, e: EntryView, t: Timestamp)
    ensures
        insert_by_time(sorted, e).filter(|x: EntryView| x.timestamp == t) == if e.timestamp == t {
            sorted.filter(|x: EntryView| x.timestamp == t).push(e)
        } else {
            sorted.filter(|x: EntryView| x.timestamp == t)
        },
    decreases sorted.len(),
{
    broadcast use vstd::seq_lib::group_filter_ensures;

    let p = |x: EntryView| x.timestamp == t;
    reveal_with_fuel(Seq::<_>::filter, 2);
    if sorted.len() == 0 {
        assert(seq![e].drop_last() =~= Seq::<EntryView>::empty());
    } else if not_later(sorted.last().timestamp, e.timestamp) {
        assert(sorted.push(e).drop_last() =~= sorted);
    } else {
        let shorter = sorted.drop_last();
        lemma_insert_by_time_stable(shorter, e, t);
        let inner = insert_by_time(shorter, e);
        assert(inner.push(sorted.last()).drop_last() =~= inner);
        if e.timestamp == t {
            assert(sorted.last().timestamp != t);
            assert(shorter.filter(p).push(e) =~= sorted.filter(p).push(e));
        }
    }
}

/// Sorting by time gives a list in order of time, with the same entries.
pub proof fn lemma_sort_by_time_sorted(entries: Seq<EntryView>)
    ensures
        is_sorted_by_time(sort_by_time(entries)),
        sort_by_time(entries).to_multiset() == entries.to_multiset(),
    decreases entries.len(),
{
    broadcast use vstd::seq_lib::group_to_multiset_ensures;

    if entries.len() > 0 {
        let shorter = entries.drop_last();
        lemma_sort_by_time_sorted(shorter);
        lemma_insert_by_time_sorted(sort_by_time(shorter), entries.last());
        assert(entries =~= shorter.push(entries.last()));
    }
}

/// Sorting by time is stable: the entries at any one instant come out in
/// the order they have in the log.
pub proof fn lemma_sort_by_time_stable(entries: Seq<EntryView>, t: Timestamp)
    ensures
        sort_by_time(entries).filter(|x: EntryView| x.timestamp == t) == entries.filter(
            |x: EntryView| x.timestamp == t,
        ),
    decreases entries.len(),
{
    reveal_with_fuel(Seq::<_>::filter, 1);
    if entries.len() > 0 {
        let shorter = entries.drop_last();
        lemma_sort_by_time_stable(shorter, t);
        lemma_insert_by_time_stable(sort_by_time(shorter), entries.last(), t);
    }
}

/// No two entries of a list are at the same instant.
pub open spec fn distinct_instants(entries: Seq<EntryView>) -> bool {
    forall|i: int, j: int|
        0 <= i < j < entries.len() ==> (#[trigger] entries[i]).timestamp != (#[trigger] entries[j]).timestamp
}

/// An entry that occurs at two positions is counted at least twice.
proof fn lemma_repeat_counts_twice(s: Seq<EntryView>, i: int, j: int)
    requires
        0 <= i < j < s.len(),
        s[i] == s[j],
    ensures
        s.to_multiset().count(s[i]) >= 2,
{
    broadcast use vstd::seq_lib::group_to_multiset_ensures;

    let rest = s.remove(j);
    assert(rest[i] == s[i]);
    assert(rest.contains(s[i]));
    assert(rest.to_multiset().count(s[i]) >= 1);
}

/// In a list without two entries at one instant, every entry is counted at
/// most once.
proof fn lemma_distinct_counts_once(s: Seq<EntryView>, e: EntryView)
    requires
        distinct_instants(s),
    ensures
        s.to_multiset().count(e) <= 1,
{
    broadcast use vstd::seq_lib::group_to_multiset_ensures;

    if s.to_multiset().count(e) >= 2 {
        assert(s.contains(e));
        let p = choose|p: int| 0 <= p < s.len() && s[p] == e;
        let rest = s.remove(p);
        assert(rest.to_multiset().count(e) >= 1);
        assert(rest.contains(e));
        let q = choose|q: int| 0 <= q < rest.len() && rest[q] == e;
        let q2 = if q < p {
            q
        } else {
            q + 1
        };
        assert(s[q2] == e);
        if q2 < p {
            assert(s[q2].timestamp != s[p].timestamp);
        } else {
            assert(s[p].timestamp != s[q2].timestamp);
        }
    }
}

/// A rearrangement of a list without two entries at one instant has none either.
proof fn lemma_rearranged_distinct(s: Seq<EntryView>, r: Seq<EntryView>)
    requires
        distinct_instants(s),
        r.to_multiset() == s.to_multiset(),
    ensures
        distinct_instants(r),
{
    broadcast use vstd::seq_lib::group_to_multiset_ensures;

    assert forall|i: int, j: int| 0 <= i < j < r.len() implies (#[trigger] r[i]).timestamp != (
    #[trigger] r[j]).timestamp by {
        if r[i].timestamp == r[j].timestamp {
            if r[i] == r[j] {
                lemma_repeat_counts_twice(r, i, j);
                lemma_distinct_counts_once(s, r[i]);
            } else {
                assert(r.contains(r[i]) && r.contains(r[j]));
                assert(r.to_multiset().count(r[i]) > 0 && r.to_multiset().count(r[j]) > 0);
                assert(s.to_multiset().count(r[i]) > 0 && s.to_multiset().count(r[j]) > 0);
                assert(s.contains(r[i]) && s.contains(r[j]));
                let p = choose|p: int| 0 <= p < s.len() && s[p] == r[i];
                let q = choose|q: int| 0 <= q < s.len() && s[q] == r[j];
                if p < q {
                    assert(s[p].timestamp != s[q].timestamp);
                } else {
                    assert(s[q].timestamp != s[p].timestamp);
                }
            }
        }
    }
}

/// Two lists in order of time with the same entries, the first without two
/// entries at one instant, are the same list.
proof fn lemma_sorted_lists_agree(a: Seq<EntryView>, b: Seq<EntryView>)
    requires
        is_sorted_by_time(a),
        is_sorted_by_time(b),
        distinct_instants(a),
        a.to_multiset() == b.to_multiset(),
    ensures
        a == b,
    decreases a.len(),
{
    broadcast use vstd::seq_lib::group_to_multiset_ensures;

    assert(a.to_multiset().len() == a.len() && b.to_multiset().len() == b.len());
    assert(a.len() == b.len());
    if a.len() == 0 {
        assert(a =~= b);
    } else {
        let n = a.len() as int;
        let x = a[n - 1];
        let y = b[n - 1];
        assert(a.contains(x));
        assert(a.to_multiset().count(x) > 0);
        assert(b.to_multiset().count(x) > 0);
        assert(b.contains(x));
        let k = choose|k: int| 0 <= k < b.len() && b[k] == x;
        assert(b.contains(y));
        assert(b.to_multiset().count(y) > 0);
        assert(a.to_multiset().count(y) > 0);
        assert(a.contains(y));
        let j = choose|j: int| 0 <= j < a.len() && a[j] == y;
        if k < n - 1 {
            assert(not_later(b[k].timestamp, b[n - 1].timestamp));
        }
        if j < n - 1 {
            assert(not_later(a[j].timestamp, a[n - 1].timestamp));
        }
        Timestamp::lemma_same_instant(x.timestamp, y.timestamp);
        if j < n - 1 {
            assert(a[j].timestamp != a[n - 1].timestamp);
        }
        assert(x == y);
        let a2 = a.drop_last();
        let b2 = b.drop_last();
        assert(a =~= a2.push(x));
        assert(b =~= b2.push(x));
        assert(a2.to_multiset() =~= b2.to_multiset()) by {
            assert forall|e: EntryView| a2.to_multiset().count(e) == b2.to_multiset().count(e) by {
                assert(a2.push(x).to_multiset().count(e) == b2.push(x).to_multiset().count(e));
            }
        }
        lemma_sorted_lists_agree(a2, b2);
        assert(a =~= b);
    }
}

/// When no two entries are at one instant, the legacy text of a log does not
/// depend on the order in which the entries were logged.
pub proof fn lemma_legacy_text_ignores_log_order(first: Seq<EntryView>, second: Seq<EntryView>)
    requires
        distinct_instants(first),
        first.to_multiset() == second.to_multiset(),
    ensures
        legacy_text(first) == legacy_text(second),
{
    lemma_sort_by_time_sorted(first);
    lemma_sort_by_time_sorted(second);
    lemma_rearranged_distinct(first, sort_by_time(first));
    lemma_sorted_lists_agree(sort_by_time(first), sort_by_time(second));
}

fn join_texts(list: &Vec<String>, sep: &str) -> (joined: String)
    ensures
        joined@ == join_with(texts(list@), sep@),
{
    let mut joined = String::new();
    let n = list.len();
    let ghost all = texts(list@);
    for i in 0..n
        invariant
            n == list@.len(),
            all == texts(list@),
            joined@ == join_with(all.take(i as int), sep@),
    {
        assert(all.take(i + 1).drop_last() =~= all.take(i as int));
        assert(all.take(i + 1).last() == list@[i as int]@);
        if i > 0 {
            joined.append(sep);
        } else {
            assert(all.take(0) =~= Seq::<Seq<char>>::empty());
        }
        joined.append(list[i].as_str());
    }
    assert(all.take(n as int) =~= all);
    joined
}

fn line_of(entry: &LogEntry) -> (line: String)
    ensures
        line@ == legacy_line(entry@),
{
    let mut line = join_texts(&entry.ended_tasks, "&");
    let width = line.as_str().unicode_len();
    let ghost ended = line@;
    if width < 27 {
        let mut k = width;
        while k < 27
            invariant
                width <= k <= 27,
                width == ended.len(),
                line@ == ended + Seq::new((k - width) as nat, |_i: int| ' '),
            decreases 27 - k,
        {
            line.append(" ");
            proof {
                reveal_strlit(" ");
            }
            assert(line@ =~= ended + Seq::new((k + 1 - width) as nat, |_i: int| ' '));
            k = k + 1;
        }
    }
    assert(line@ == pad_right(ended, 27));
    line.append(" -");
    let clock = entry.timestamp.clock_text();
    line.append(clock.as_str());
    line.append("-");
    let started = join_texts(&entry.started_tasks, "&");
    line.append(started.as_str());
    line.append("\n");
    line
}

impl PivotDb {
    /// A log kept in `file_path`, with the entries read from it, or none if
    /// nothing could be read.
    pub fn from_loaded(file_path: String, loaded: Option<Vec<LogEntry>>) -> (db: Self)
        ensures
            db.file_path@ == file_path@,
            db.entries@ == match loaded {
                Some(entries) => entries@,
                None => Seq::<LogEntry>::empty(),
            },
    {
        let entries = match loaded {
            Some(entries) => entries,
            None => Vec::new(),
        };
        PivotDb { entries, file_path }
    }

    /// Records a transition at the given instant, after the entries already
    /// logged.
    pub fn log_transition_at(
        &mut self,
        at: Timestamp,
        ended_tasks: Vec<String>,
        started_tasks: Vec<String>,
    )
        ensures
            final(self).file_path == old(self).file_path,
            final(self).entries@.len() == old(self).entries@.len() + 1,
            final(self).entries@.take(old(self).entries@.len() as int) == old(self).entries@,
            final(self).entries@.last().timestamp == at,
            final(self).entries@.last().ended_tasks@ == ended_tasks@,
            final(self).entries@.last().started_tasks@ == started_tasks@,
    {
        let entry = LogEntry { timestamp: at, ended_tasks, started_tasks };
        self.entries.push(entry);
        assert(self.entries@.take(old(self).entries@.len() as int) =~= old(self).entries@);
    }

    /// The positions of the entries in order of time, stable.
    fn time_order(&self) -> (order: Vec<usize>)
        ensures
            order@.len() == self.entries@.len(),
            forall|k: int| 0 <= k < order@.len() ==> (#[trigger] order@[k]) < self.entries@.len(),
            order@.map_values(|j: usize| entry_views(self.entries@)[j as int]) == sort_by_time(
                entry_views(self.entries@),
            ),
    {
        let ghost all = entry_views(self.entries@);
        let n = self.entries.len();
        let mut order: Vec<usize> = Vec::new();
        for i in 0..n
            invariant
                n == self.entries@.len(),
                all == entry_views(self.entries@),
                order@.len() == i,
                forall|k: int| 0 <= k < order@.len() ==> (#[trigger] order@[k]) < i,
                order@.map_values(|j: usize| all[j as int]) == sort_by_time(all.take(i as int)),
        {
            let ghost before = order@.map_values(|j: usize| all[j as int]);
            let t = self.entries[i].timestamp;
            let mut at = order.len();
            while at > 0 && !self.entries[order[at - 1]].timestamp.not_later_than(&t)
                invariant
                    n == self.entries@.len(),
                    all == entry_views(self.entries@),
                    i < n,
                    t == all[i as int].timestamp,
                    order@.len() == i,
                    forall|k: int| 0 <= k < order@.len() ==> (#[trigger] order@[k]) < i,
                    before == order@.map_values(|j: usize| all[j as int]),
                    at <= order@.len(),
                    forall|q: int| at <= q < before.len() ==> !not_later(#[trigger] before[q].timestamp, t),
                decreases at,
            {
                at = at - 1;
            }
            proof {
                assert(all.take(i + 1).drop_last() =~= all.take(i as int));
                assert(all.take(i + 1).last() == all[i as int]);
                lemma_insert_at(before, all[i as int], at as int);
            }
            order.insert(at, i);
            assert(order@.map_values(|j: usize| all[j as int]) =~= before.take(at as int).push(
                all[i as int],
            ) + before.skip(at as int));
        }
        assert(all.take(n as int) =~= all);
        order
    }

    /// The log as legacy text: entries in order of time, each day headed by
    /// its date, each transition on a line of its own.
    #[verifier::rlimit(40)]
    pub fn convert_to_legacy(&self) -> (text: String)
        ensures
            text@ == legacy_text(entry_views(self.entries@)),
    {
        let order = self.time_order();
        let ghost sorted = sort_by_time(entry_views(self.entries@));
        let mut output = String::new();
        let mut last_day = String::new();
        let n = order.len();
        assert(sorted.skip(0) =~= sorted);
        assert(last_day@ == Seq::<char>::empty());
        assert(output@ + legacy_from(sorted.skip(0), last_day@) =~= legacy_from(sorted, Seq::empty()));
        for k in 0..n
            invariant
                n == order@.len(),
                forall|q: int| 0 <= q < order@.len() ==> (#[trigger] order@[q]) < self.entries@.len(),
                order@.map_values(|j: usize| entry_views(self.entries@)[j as int]) == sorted,
                output@ + legacy_from(sorted.skip(k as int), last_day@) == legacy_from(
                    sorted,
                    Seq::empty(),
                ),
        {
            let entry = &self.entries[order[k]];
            assert(entry@ == sorted[k as int]);
            let ghost rest = sorted.skip(k as int);
            let ghost prior = output@;
            let ghost prior_day = last_day@;
            assert(rest.drop_first() =~= sorted.skip(k + 1));
            assert(rest[0] == entry@);
            let day = entry.timestamp.day_text();
            if day != last_day {
                if !last_day.as_str().is_empty() {
                    output.append("\n");
                }
                output.append(day.as_str());
                output.append("\n");
                last_day = day;
            }
            let line = line_of(entry);
            output.append(line.as_str());
            assert(output@ + legacy_from(sorted.skip(k + 1), last_day@) =~= prior + legacy_from(
                rest,
                prior_day,
            ));
        }
        assert(sorted.skip(n as int) =~= Seq::<EntryView>::empty());
        output
    }
}

} // verus!
