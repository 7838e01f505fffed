//! The download ledger: the durable record that keeps each (show, episode)
//! pair from being downloaded twice.
//!
//! The ledger is persisted as plain text, one `title|episode` line per
//! completed download, append-only. This module holds the in-memory form and
//! the line format; reading and appending the file itself is left to the
//! caller, who rebuilds the ledger from the file's lines and appends the
//! rendered line of each new record.

use vstd::prelude::*;
use crate::string_distance::str_eq;

verus! {

/// One durable record of a completed download.
#[derive(Debug)]
pub struct LedgerEntry {
    pub title: String,
    pub episode: String,
}

impl View for LedgerEntry {
    type V = (Seq<char>, Seq<char>);

    open spec fn view(&self) -> (Seq<char>, Seq<char>) {
        (self.title@, self.episode@)
    }
}

/// The set of already-downloaded (title, episode) pairs, in record order.
#[derive(Debug)]
pub struct Ledger {
    pub entries: Vec<LedgerEntry>,
}

impl View for Ledger {
    type V = Seq<(Seq<char>, Seq<char>)>;

    open spec fn view(&self) -> Seq<(Seq<char>, Seq<char>)> {
        self.entries@.map_values(|e: LedgerEntry| e@)
    }
}

/// Whether a (title, episode) pair is on record.
pub open spec fn ledger_has_spec(
    entries: Seq<(Seq<char>, Seq<char>)>,
    title: Seq<char>,
    episode: Seq<char>,
) -> bool {
    exists|i: int| 0 <= i < entries.len() && entries[i] == (title, episode)
}

/// A line index `k` is the single delimiter position of a well-formed ledger
/// line: the one `'|'` in the line.
pub open spec fn is_single_pipe(s: Seq<char>, k: int) -> bool {
    &&& 0 <= k < s.len()
    &&& s[k] == '|'
    &&& forall|m: int| 0 <= m < s.len() && m != k ==> s[m] != '|'
}

/// What one ledger line means: a line with exactly one `'|'` records the
/// title before it and the episode after it; any other line records nothing.
pub open spec fn parse_line_spec(s: Seq<char>) -> Option<(Seq<char>, Seq<char>)> {
    if exists|k: int| is_single_pipe(s, k) {
        let k = choose|k: int| is_single_pipe(s, k);
        Some((s.take(k), s.skip(k + 1)))
    } else {
        None
    }
}

/// The records carried by a sequence of ledger-file lines, in file order,
/// lines without exactly one delimiter contributing nothing.
pub open spec fn ledger_of_lines(lines: Seq<Seq<char>>) -> Seq<(Seq<char>, Seq<char>)>
    decreases lines.len(),
{
    if lines.len() == 0 {
        Seq::empty()
    } else {
        let rest = ledger_of_lines(lines.drop_last());
        match parse_line_spec(lines.last()) {
            Some(p) => rest.push(p),
            None => rest,
        }
    }
}

/// Split one ledger-file line on its delimiter: `Some` exactly when the line
/// holds one `'|'`, with the fields on either side of it.
pub fn parse_line(line: &str) -> (r: Option<LedgerEntry>)
    ensures
        match r {
            Some(e) => parse_line_spec(line@) == Some(e@),
            None => parse_line_spec(line@) is None,
        },
{
    let n = line.unicode_len();
    let mut first: usize = 0;
    let mut count: usize = 0;
    let ghost mut gp: int = 0;
    let ghost mut gq: int = 0;
    let mut i: usize = 0;
    while i < n
        invariant
            i <= n,
            n == line@.len(),
            count == 0 ==> forall|m: int| 0 <= m < i ==> line@[m] != '|',
            count == 1 ==> first < i && line@[first as int] == '|' && forall|m: int|
                0 <= m < i && m != first ==> line@[m] != '|',
            count >= 2 ==> 0 <= gp < gq < i && line@[gp] == '|' && line@[gq] == '|',
        decreases n - i,
    {
        if line.get_char(i) == '|' {
            if count == 0 {
                first = i;
            } else if count == 1 {
                proof {
                    gp = first as int;
                    gq = i as int;
                }
            }
            if count < 2 {
                count += 1;
            }
        }
        i += 1;
    }
    if count == 1 {
        proof {
            assert(is_single_pipe(line@, first as int));
            let k = choose|k: int| is_single_pipe(line@, k);
            assert(line@[k] == '|');
            assert(k == first as int);
        }
        let title = line.substring_char(0, first);
        let episode = line.substring_char(first + 1, n);
        proof {
            assert(title@ =~= line@.take(first as int));
            assert(episode@ =~= line@.skip(first as int + 1));
        }
        Some(LedgerEntry { title: title.to_owned(), episode: episode.to_owned() })
    } else {
        proof {
            if exists|k: int| is_single_pipe(line@, k) {
                let k = choose|k: int| is_single_pipe(line@, k);
                if count == 0 {
                    assert(line@[k] != '|');
                } else {
                    assert(gp != k || gq != k);
                    if gp != k {
                        assert(line@[gp] != '|');
                    } else {
                        assert(line@[gq] != '|');
                    }
                }
            }
        }
        None
    }
}

/// Render the ledger-file line of one record: the title, the delimiter, the
/// episode.
pub fn render_entry(title: &str, episode: &str) -> (r: String)
    ensures
        r@ == title@ + seq!['|'] + episode@,
{
    proof {
        reveal_strlit("|");
        assert("|"@ =~= seq!['|']);
    }
    let mut r = String::from_str(title);
    r.append("|");
    r.append(episode);
    r
}

/// A rendered record parses back to itself, as long as neither field holds
/// the delimiter character: what `record` writes, a reloaded ledger reads.
pub proof fn lemma_render_parse_round_trip(title: Seq<char>, episode: Seq<char>)
    requires
        forall|m: int| 0 <= m < title.len() ==> title[m] != '|',
        forall|m: int| 0 <= m < episode.len() ==> episode[m] != '|',
    ensures
        parse_line_spec(title + seq!['|'] + episode) == Some((title, episode)),
{
    let s = title + seq!['|'] + episode;
    let k = title.len() as int;
    assert(s[k] == '|');
    assert forall|m: int| 0 <= m < s.len() && m != k implies s[m] != '|' by {
        if m < k {
            assert(s[m] == title[m]);
        } else {
            assert(s[m] == episode[m - k - 1]);
        }
    }
    assert(is_single_pipe(s, k));
    let k2 = choose|k2: int| is_single_pipe(s, k2);
    assert(s[k2] == '|');
    assert(k2 == k);
    assert(s.take(k) =~= title);
    assert(s.skip(k + 1) =~= episode);
}

impl Ledger {
    /// An empty ledger: nothing is on record.
    pub fn new() -> (r: Ledger)
        ensures
            r@ == Seq::<(Seq<char>, Seq<char>)>::empty(),
    {
        let r = Ledger { entries: Vec::new() };
        proof {
            assert(r@ =~= Seq::<(Seq<char>, Seq<char>)>::empty());
        }
        r
    }

    /// Rebuild the ledger from the lines of its file, in order; a missing
    /// file hands in no lines and yields an empty ledger.
    pub fn from_lines(lines: &Vec<String>) -> (r: Ledger)
        ensures
            r@ == ledger_of_lines(lines@.map_values(|l: String| l@)),
    {
        let ghost lines_v = lines@.map_values(|l: String| l@);
        let mut r = Ledger { entries: Vec::new() };
        proof {
            assert(r@ =~= ledger_of_lines(lines_v.take(0)));
        }
        let mut i: usize = 0;
        while i < lines.len()
            invariant
                i <= lines@.len(),
                lines_v == lines@.map_values(|l: String| l@),
                r@ == ledger_of_lines(lines_v.take(i as int)),
            decreases lines@.len() - i,
        {
            proof {
                assert(lines_v.take(i as int + 1).drop_last() =~= lines_v.take(i as int));
                assert(lines_v.take(i as int + 1).last() == lines_v[i as int]);
            }
            let ghost prev = r@;
            match parse_line(lines[i].as_str()) {
                Some(entry) => {
                    let ghost ev = entry@;
                    r.entries.push(entry);
                    proof {
                        assert(r@ =~= prev.push(ev));
                    }
                },
                None => {},
            }
            i += 1;
        }
        proof {
            assert(lines_v.take(lines_v.len() as int) =~= lines_v);
        }
        r
    }

    /// Whether this (title, episode) pair is already on record: an exact
    /// match of both fields against some entry.
    pub fn has(&self, title: &str, episode: &str) -> (r: bool)
        ensures
            r == ledger_has_spec(self@, title@, episode@),
    {
        let mut i: usize = 0;
        while i < self.entries.len()
            invariant
                i <= self.entries@.len(),
                forall|t: int| 0 <= t < i ==> self@[t] != (title@, episode@),
            decreases self.entries@.len() - i,
        {
            let entry = &self.entries[i];
            if str_eq(entry.title.as_str(), title) && str_eq(entry.episode.as_str(), episode) {
                proof {
                    assert(self@[i as int] == (title@, episode@));
                }
                return true;
            }
            i += 1;
        }
        false
    }

    /// Append one record. Duplicates may accumulate; `has` is unaffected by
    /// them.
    pub fn record(&mut self, title: &str, episode: &str)
        ensures
            final(self)@ == old(self)@.push((title@, episode@)),
    {
        let ghost prev = self@;
        self.entries.push(LedgerEntry { title: title.to_owned(), episode: episode.to_owned() });
        proof {
            assert(self@ =~= prev.push((title@, episode@)));
        }
    }
}

/// Once a pair is recorded it stays on record: `has` answers `true` after
/// `record`, and keeps answering `true` however many further records —
/// duplicates of it included — are appended.
pub proof fn lemma_record_then_has(
    entries: Seq<(Seq<char>, Seq<char>)>,
    title: Seq<char>,
    episode: Seq<char>,
)
    ensures
        ledger_has_spec(entries.push((title, episode)), title, episode),
{
    assert(entries.push((title, episode))[entries.len() as int] == (title, episode));
}

/// `has` is monotone: appending records never erases one.
pub proof fn lemma_has_monotone(
    entries: Seq<(Seq<char>, Seq<char>)>,
    extra: (Seq<char>, Seq<char>),
    title: Seq<char>,
    episode: Seq<char>,
)
    requires
        ledger_has_spec(entries, title, episode),
    ensures
        ledger_has_spec(entries.push(extra), title, episode),
{
    let i = choose|i: int| 0 <= i < entries.len() && entries[i] == (title, episode);
    assert(entries.push(extra)[i] == (title, episode));
}

} // verus!
