//! Log analysis: lines of the form `timestamp|LEVEL|message` are parsed into
//! entries, and an analyzer filters, counts and orders the entries of a list
//! of lines. Lines that do not parse are skipped.
use vstd::prelude::*;
use crate::seqs::{lemma_filter_take_step, lemma_take_all};
use crate::text::{
    chars_of, parse_unsigned_slice, occurs_in, parse_unsigned, slice_is, split_bounds, split_on,
    string_of_slice, find_from,
};

verus! {

/// The severity of a log entry.
#[derive(Debug, PartialEq, Eq, Hash, Clone, Copy, Structural)]
pub enum LogLevel {
    Debug,
    Info,
    Warning,
    Error,
}

/// One parsed log line.
#[derive(Debug, Clone, PartialEq)]
pub struct LogEntry {
    pub timestamp: u64,
    pub level: LogLevel,
    pub message: String,
}

/// What a log entry holds.
pub struct EntryView {
    pub timestamp: u64,
    pub level: LogLevel,
    pub message: Seq<char>,
}

impl View for LogEntry {
    type V = EntryView;

    open spec fn view(&self) -> EntryView {
        EntryView { timestamp: self.timestamp, level: self.level, message: self.message@ }
    }
}

/// The level named by `s`, if any.
pub open spec fn level_named(s: Seq<char>) -> Option<LogLevel> {
    if s == "DEBUG"@ {
        Some(LogLevel::Debug)
    } else if s == "INFO"@ {
        Some(LogLevel::Info)
    } else if s == "WARNING"@ {
        Some(LogLevel::Warning)
    } else if s == "ERROR"@ {
        Some(LogLevel::Error)
    } else {
        None
    }
}

/// What a line parses to: exactly three `|`-separated parts, a timestamp that
/// `u64` parsing accepts, a known level name, and the message as is.
pub open spec fn parse_line(line: Seq<char>) -> Option<EntryView> {
    let parts = split_on(line, '|');
    if parts.len() != 3 {
        None
    } else {
        match parse_unsigned(parts[0], u64::MAX as int) {
            None => None,
            Some(ts) => match level_named(parts[1]) {
                None => None,
                Some(level) => Some(EntryView { timestamp: ts as u64, level, message: parts[2] }),
            },
        }
    }
}

/// The entries of the lines that parse, in the order of the lines.
pub open spec fn parsed(lines: Seq<Seq<char>>) -> Seq<EntryView>
    decreases lines.len(),
{
    if lines.len() == 0 {
        Seq::empty()
    } else {
        match parse_line(lines.last()) {
            Some(e) => parsed(lines.drop_last()).push(e),
            None => parsed(lines.drop_last()),
        }
    }
}

/// The characters of each line.
pub open spec fn line_views(lines: Seq<String>) -> Seq<Seq<char>> {
    lines.map_values(|l: String| l@)
}

/// The views of a list of entries.
pub open spec fn entry_views(entries: Seq<LogEntry>) -> Seq<EntryView> {
    entries.map_values(|e: LogEntry| e@)
}

/// Inserts `e` into the entries `s`, kept in ascending order of timestamps,
/// after every entry whose timestamp is at most that of `e`.
pub open spec fn insert_by_time(s: Seq<EntryView>, e: EntryView) -> Seq<EntryView>
    decreases s.len(),
{
    if s.len() == 0 {
        seq![e]
    } else if s.last().timestamp <= e.timestamp {
        s.push(e)
    } else {
        insert_by_time(s.drop_last(), e).push(s.last())
    }
}

/// The entries in ascending order of timestamps, entries with the same
/// timestamp in their original order (a stable sort by timestamp).
pub open spec fn sort_by_time(s: Seq<EntryView>) -> Seq<EntryView>
    decreases s.len(),
{
    if s.len() == 0 {
        Seq::empty()
    } else {
        insert_by_time(sort_by_time(s.drop_last()), s.last())
    }
}

/// The number of entries of `s` whose level is `l`.
pub open spec fn level_count(s: Seq<EntryView>, l: LogLevel) -> nat {
    s.filter(|e: EntryView| e.level == l).len()
}

/// Every entry has one of the four levels: the counts per level add up to
/// the number of entries (what `total_entries` gives for an analyzer's
/// entries), and so they are all zero exactly when there is no entry.
pub proof fn law_level_counts_add_up(s: Seq<EntryView>)
    ensures
        level_count(s, LogLevel::Debug) + level_count(s, LogLevel::Info) + level_count(
            s,
            LogLevel::Warning,
        ) + level_count(s, LogLevel::Error) == s.len(),
        (forall|l: LogLevel| #[trigger] level_count(s, l) == 0) <==> s.len() == 0,
    decreases s.len(),
{
    if s.len() > 0 {
        let d = s.drop_last();
        law_level_counts_add_up(d);
        assert(d.push(s.last()) =~= s);
        assert forall|l: LogLevel| #[trigger] level_count(s, l) == level_count(d, l) + (if s.last().level
            == l {
            1int
        } else {
            0
        }) by {
            reveal_with_fuel(Seq::filter, 1);
        }
        assert(level_count(s, s.last().level) > 0);
    } else {
        assert forall|l: LogLevel| #[trigger] level_count(s, l) == 0 by {
            assert(s.filter(|e: EntryView| e.level == l) =~= Seq::<EntryView>::empty());
        }
    }
}

/// The number of entries per level (levels without entries count zero).
#[derive(Debug, Clone, Copy, PartialEq, Eq)]
pub struct LevelCounts {
    debug: usize,
    info: usize,
    warning: usize,
    error: usize,
}

impl LevelCounts {
    /// The count for `level`.
    pub closed spec fn count_of(self, level: LogLevel) -> nat {
        match level {
            LogLevel::Debug => self.debug as nat,
            LogLevel::Info => self.info as nat,
            LogLevel::Warning => self.warning as nat,
            LogLevel::Error => self.error as nat,
        }
    }

    /// The count for `level`, or `None` when it is zero (a level that never
    /// occurred has no entry).
    pub fn get(&self, level: &LogLevel) -> (r: Option<&usize>)
        ensures
            self.count_of(*level) == 0 ==> r is None,
            self.count_of(*level) > 0 ==> r is Some && *r.unwrap() == self.count_of(*level),
    {
        let n = match level {
            LogLevel::Debug => &self.debug,
            LogLevel::Info => &self.info,
            LogLevel::Warning => &self.warning,
            LogLevel::Error => &self.error,
        };
        if *n == 0 {
            None
        } else {
            Some(n)
        }
    }

    /// The number of levels that occurred.
    pub fn len(&self) -> (r: usize)
        ensures
            r == (if self.count_of(LogLevel::Debug) > 0 { 1int } else { 0 }) + (if self.count_of(
                LogLevel::Info,
            ) > 0 { 1int } else { 0 }) + (if self.count_of(LogLevel::Warning) > 0 {
                1int
            } else {
                0
            }) + (if self.count_of(LogLevel::Error) > 0 { 1int } else { 0 }),
    {
        (if self.debug > 0 { 1 } else { 0 }) + (if self.info > 0 { 1 } else { 0 }) + (if self.warning
            > 0 {
            1
        } else {
            0
        }) + (if self.error > 0 { 1 } else { 0 })
    }

    /// Whether no level occurred.
    pub fn is_empty(&self) -> (r: bool)
        ensures
            r == forall|l: LogLevel| self.count_of(l) == 0,
    {
        let r = self.debug == 0 && self.info == 0 && self.warning == 0 && self.error == 0;
        proof {
            if !r {
                if self.debug > 0 {
                    assert(self.count_of(LogLevel::Debug) != 0);
                } else if self.info > 0 {
                    assert(self.count_of(LogLevel::Info) != 0);
                } else if self.warning > 0 {
                    assert(self.count_of(LogLevel::Warning) != 0);
                } else {
                    assert(self.count_of(LogLevel::Error) != 0);
                }
            }
        }
        r
    }
}

/// The level named by `v[from..to]`, if any.
fn level_of(v: &Vec<char>, from: usize, to: usize) -> (r: Option<LogLevel>)
    requires
        from <= to <= v@.len(),
    ensures
        r == level_named(v@.subrange(from as int, to as int)),
{
    if slice_is(v, from, to, "DEBUG") {
        Some(LogLevel::Debug)
    } else if slice_is(v, from, to, "INFO") {
        Some(LogLevel::Info)
    } else if slice_is(v, from, to, "WARNING") {
        Some(LogLevel::Warning)
    } else if slice_is(v, from, to, "ERROR") {
        Some(LogLevel::Error)
    } else {
        None
    }
}

impl LogEntry {
    /// Parses a line `timestamp|LEVEL|message`; `None` unless the line has
    /// exactly three parts, the timestamp is a `u64` and the level is one of
    /// `DEBUG`, `INFO`, `WARNING`, `ERROR`.
    pub fn parse(line: &str) -> (r: Option<LogEntry>)
        ensures
            match parse_line(line@) {
                Some(e) => r is Some && r.unwrap()@ == e,
                None => r is None,
            },
    {
        let v = chars_of(line);
        let parts = split_bounds(&v, '|');
        if parts.len() != 3 {
            return None;
        }
        let (a0, b0) = parts[0];
        let (a1, b1) = parts[1];
        let (a2, b2) = parts[2];
        assert(split_on(v@, '|')[0] == v@.subrange(a0 as int, b0 as int));
        assert(split_on(v@, '|')[1] == v@.subrange(a1 as int, b1 as int));
        assert(split_on(v@, '|')[2] == v@.subrange(a2 as int, b2 as int));
        let timestamp = match parse_unsigned_slice(&v, a0, b0, u64::MAX) {
            Some(n) => n,
            None => {
                return None;
            },
        };
        let level = match level_of(&v, a1, b1) {
            Some(l) => l,
            None => {
                return None;
            },
        };
        let message = string_of_slice(&v, a2, b2);
        Some(LogEntry { timestamp, level, message })
    }

    /// An entry with the given fields.
    pub fn new(timestamp: u64, level: LogLevel, message: String) -> (r: Self)
        ensures
            r.timestamp == timestamp,
            r.level == level,
            r.message == message,
    {
        LogEntry { timestamp, level, message }
    }
}

/// An analyzer over a list of log lines.
pub struct LogAnalyzer<'a> {
    lines: &'a [String],
}

impl<'a> LogAnalyzer<'a> {
    /// The characters of the analyzed lines.
    pub closed spec fn lines(self) -> Seq<Seq<char>> {
        line_views(self.lines@)
    }

    /// The entries of the lines that parse, in the order of the lines.
    pub open spec fn entries(self) -> Seq<EntryView> {
        parsed(self.lines())
    }

    /// An analyzer over `lines`.
    pub fn new(lines: &'a [String]) -> (r: Self)
        ensures
            r.lines() == line_views(lines@),
    {
        LogAnalyzer { lines }
    }

    /// The entries of the lines that parse, in the order of the lines.
    pub fn parse_entries(&self) -> (r: Vec<LogEntry>)
        ensures
            entry_views(r@) == self.entries(),
    {
        let mut r: Vec<LogEntry> = Vec::new();
        let mut i: usize = 0;
        while i < self.lines.len()
            invariant
                i <= self.lines@.len(),
                entry_views(r@) == parsed(line_views(self.lines@).take(i as int)),
            decreases self.lines@.len() - i,
        {
            let ghost pre = line_views(self.lines@).take(i as int);
            let ghost cur = line_views(self.lines@).take(i + 1);
            assert(cur.drop_last() =~= pre);
            assert(cur.last() == self.lines@[i as int]@);
            let ghost old_r = r@;
            match LogEntry::parse(self.lines[i].as_str()) {
                Some(e) => {
                    r.push(e);
                    assert(entry_views(r@) =~= entry_views(old_r).push(e@));
                },
                None => {},
            }
            i = i + 1;
        }
        assert(line_views(self.lines@).take(self.lines@.len() as int) =~= line_views(
            self.lines@,
        ));
        r
    }

    /// The entries whose level is `Error`, in order.
    pub fn errors_only(&self) -> (r: Vec<LogEntry>)
        ensures
            entry_views(r@) == self.entries().filter(|e: EntryView| e.level == LogLevel::Error),
    {
        self.filter_by_level(LogLevel::Error)
    }

    /// The entries with `start <= timestamp <= end`, in order.
    pub fn in_time_range(&self, start: u64, end: u64) -> (r: Vec<LogEntry>)
        ensures
            entry_views(r@) == self.entries().filter(
                |e: EntryView| start <= e.timestamp && e.timestamp <= end,
            ),
    {
        let all = self.parse_entries();
        let mut r: Vec<LogEntry> = Vec::new();
        let mut i: usize = 0;
        while i < all.len()
            invariant
                i <= all@.len(),
                entry_views(r@) == entry_views(all@).take(i as int).filter(
                    |e: EntryView| start <= e.timestamp && e.timestamp <= end,
                ),
            decreases all@.len() - i,
        {
            proof {
                lemma_filter_take_step(entry_views(all@), |e: EntryView| start <= e.timestamp && e.timestamp <= end, i as int);
            }
            let e = &all[i];
            assert(entry_views(all@)[i as int] == e@);
            if start <= e.timestamp && e.timestamp <= end {
                let ghost old_r = r@;
                r.push(LogEntry { timestamp: e.timestamp, level: e.level, message: e.message.clone() });
                assert(entry_views(r@) =~= entry_views(old_r).push(e@));
            }
            i = i + 1;
        }
        proof {
            lemma_take_all(entry_views(all@));
        }
        r
    }

    /// The number of entries of each level.
    pub fn count_by_level(&self) -> (r: LevelCounts)
        ensures
            forall|l: LogLevel| #[trigger] r.count_of(l) == level_count(self.entries(), l),
    {
        let all = self.parse_entries();
        let mut c = LevelCounts { debug: 0, info: 0, warning: 0, error: 0 };
        let mut i: usize = 0;
        while i < all.len()
            invariant
                i <= all@.len(),
                forall|l: LogLevel| #[trigger]
                    c.count_of(l) == level_count(entry_views(all@).take(i as int), l),
            decreases all@.len() - i,
        {
            let ghost pre = entry_views(all@).take(i as int);
            let ghost cur = entry_views(all@).take(i + 1);
            proof {
                reveal_with_fuel(Seq::filter, 1);
                assert(cur.drop_last() =~= pre);
                assert forall|l: LogLevel| #[trigger] level_count(cur, l) == level_count(pre, l) + (
                if all@[i as int].level == l {
                    1int
                } else {
                    0
                }) by {
                    reveal_with_fuel(Seq::filter, 1);
                    assert(cur.last() == all@[i as int]@);
                }
                lemma_filter_len_le(pre, i as nat);
                assert(c.count_of(LogLevel::Debug) <= i);
                assert(c.count_of(LogLevel::Info) <= i);
                assert(c.count_of(LogLevel::Warning) <= i);
                assert(c.count_of(LogLevel::Error) <= i);
            }
            let ghost old_c = c;
            match all[i].level {
                LogLevel::Debug => c.debug = c.debug + 1,
                LogLevel::Info => c.info = c.info + 1,
                LogLevel::Warning => c.warning = c.warning + 1,
                LogLevel::Error => c.error = c.error + 1,
            }
            assert forall|l: LogLevel| #[trigger]
                c.count_of(l) == level_count(cur, l) by {
                assert(old_c.count_of(l) == level_count(pre, l));
            }
            i = i + 1;
        }
        assert(entry_views(all@).take(all@.len() as int) =~= entry_views(all@));
        c
    }

    /// The `n` entries with the latest timestamps, latest first: the entries
    /// sorted by timestamp (stable), reversed, and cut after `n`.
    pub fn most_recent(&self, n: usize) -> (r: Vec<LogEntry>)
        ensures
            entry_views(r@) == sort_by_time(self.entries()).reverse().take(
                if n < self.entries().len() { n as int } else { self.entries().len() as int },
            ),
    {
        let all = self.parse_entries();
        let mut sorted: Vec<LogEntry> = Vec::new();
        let mut i: usize = 0;
        while i < all.len()
            invariant
                i <= all@.len(),
                entry_views(sorted@) == sort_by_time(entry_views(all@).take(i as int)),
                sorted@.len() == i,
            decreases all@.len() - i,
        {
            let e = &all[i];
            let ghost before = entry_views(sorted@);
            proof {
                assert(entry_views(all@).take(i + 1).drop_last() =~= entry_views(all@).take(
                    i as int,
                ));
            }
            let mut j = sorted.len();
            while j > 0 && sorted[j - 1].timestamp > e.timestamp
                invariant
                    j <= sorted@.len(),
                    entry_views(sorted@) == before,
                    forall|m: int| j <= m < sorted@.len() ==> sorted@[m].timestamp > e.timestamp,
                decreases j,
            {
                j = j - 1;
            }
            proof {
                lemma_insert_at(before, e@, j as int);
            }
            let ghost old_sorted = sorted@;
            sorted.insert(j, LogEntry { timestamp: e.timestamp, level: e.level, message: e.message.clone() });
            assert(entry_views(sorted@) =~= entry_views(old_sorted).insert(j as int, e@));
            i = i + 1;
        }
        assert(entry_views(all@).take(all@.len() as int) =~= entry_views(all@));
        let len = sorted.len();
        let count = if n < len { n } else { len };
        let mut r: Vec<LogEntry> = Vec::new();
        let mut k: usize = 0;
        while k < count
            invariant
                count <= sorted@.len(),
                k <= count,
                entry_views(r@) == entry_views(sorted@).reverse().take(k as int),
            decreases count - k,
        {
            let e = &sorted[sorted.len() - 1 - k];
            let ghost old_r = r@;
            r.push(LogEntry { timestamp: e.timestamp, level: e.level, message: e.message.clone() });
            assert(entry_views(sorted@).reverse()[k as int] == e@);
            assert(entry_views(r@) =~= entry_views(old_r).push(e@));
            assert(entry_views(r@) =~= entry_views(sorted@).reverse().take(k + 1));
            k = k + 1;
        }
        r
    }

    /// The number of entries.
    pub fn total_entries(&self) -> (r: usize)
        ensures
            r == self.entries().len(),
    {
        self.parse_entries().len()
    }

    /// The entries whose level is `level`, in order.
    pub fn filter_by_level(&self, level: LogLevel) -> (r: Vec<LogEntry>)
        ensures
            entry_views(r@) == self.entries().filter(|e: EntryView| e.level == level),
    {
        let all = self.parse_entries();
        let mut r: Vec<LogEntry> = Vec::new();
        let mut i: usize = 0;
        while i < all.len()
            invariant
                i <= all@.len(),
                entry_views(r@) == entry_views(all@).take(i as int).filter(
                    |e: EntryView| e.level == level,
                ),
            decreases all@.len() - i,
        {
            proof {
                lemma_filter_take_step(entry_views(all@), |e: EntryView| e.level == level, i as int);
            }
            let e = &all[i];
            assert(entry_views(all@)[i as int] == e@);
            if e.level == level {
                let ghost old_r = r@;
                r.push(LogEntry { timestamp: e.timestamp, level: e.level, message: e.message.clone() });
                assert(entry_views(r@) =~= entry_views(old_r).push(e@));
            }
            i = i + 1;
        }
        proof {
            lemma_take_all(entry_views(all@));
        }
        r
    }

    /// The entries whose message contains `substring` (case-sensitive), in
    /// order.
    pub fn messages_containing(&self, substring: &str) -> (r: Vec<LogEntry>)
        ensures
            entry_views(r@) == self.entries().filter(
                |e: EntryView| occurs_in(e.message, substring@),
            ),
    {
        let all = self.parse_entries();
        let pat = chars_of(substring);
        let mut r: Vec<LogEntry> = Vec::new();
        let mut i: usize = 0;
        while i < all.len()
            invariant
                i <= all@.len(),
                pat@ == substring@,
                entry_views(r@) == entry_views(all@).take(i as int).filter(
                    |e: EntryView| occurs_in(e.message, substring@),
                ),
            decreases all@.len() - i,
        {
            proof {
                lemma_filter_take_step(entry_views(all@), |e: EntryView| occurs_in(e.message, substring@), i as int);
            }
            let e = &all[i];
            assert(entry_views(all@)[i as int] == e@);
            let m = chars_of(e.message.as_str());
            let found = find_from(&m, &pat, 0);
            proof {
                if found is None {
                    assert(!occurs_in(e@.message, substring@)) by {
                        if occurs_in(e@.message, substring@) {
                            let j = choose|j: int| crate::text::occurs_at(e@.message, substring@, j);
                            assert(0 <= j);
                        }
                    }
                }
            }
            if found.is_some() {
                let ghost old_r = r@;
                r.push(LogEntry { timestamp: e.timestamp, level: e.level, message: e.message.clone() });
                assert(entry_views(r@) =~= entry_views(old_r).push(e@));
            }
            i = i + 1;
        }
        proof {
            lemma_take_all(entry_views(all@));
        }
        r
    }
}

proof fn lemma_filter_len_le(s: Seq<EntryView>, n: nat)
    requires
        s.len() == n,
    ensures
        forall|l: LogLevel| #[trigger] level_count(s, l) <= n,
{
    assert forall|l: LogLevel| #[trigger] level_count(s, l) <= n by {
        s.lemma_filter_len(|e: EntryView| e.level == l);
    }
}

/// Inserting `e` at position `j` of a sequence sorted by time, after the
/// entries with timestamps at most that of `e` and before those with later
/// timestamps, is `insert_by_time`.
proof fn lemma_insert_at(s: Seq<EntryView>, e: EntryView, j: int)
    requires
        0 <= j <= s.len(),
        forall|m: int| j <= m < s.len() ==> s[m].timestamp > e.timestamp,
        j > 0 ==> s[j - 1].timestamp <= e.timestamp,
    ensures
        insert_by_time(s, e) == s.insert(j, e),
    decreases s.len(),
{
    if s.len() == 0 {
        assert(s.insert(j, e) =~= seq![e]);
    } else if j == s.len() {
        assert(s.insert(j, e) =~= s.push(e));
    } else {
        lemma_insert_at(s.drop_last(), e, j);
        assert(s.insert(j, e) =~= s.drop_last().insert(j, e).push(s.last()));
    }
}

} // verus!
