//! The table of known vulnerabilities and its line-oriented text form.

use vstd::prelude::*;
use crate::string_map::StringMap;
use crate::text::{chars_of, split_lines, split_tokens, lines_of, tokens_of};

verus! {

/// A line is an entry when it holds exactly two tokens: a key and a description.
pub open spec fn is_entry(line: Seq<char>) -> bool {
    tokens_of(line).len() == 2
}

/// The table that the lines build, read in order: each entry line stores its second
/// token under its first, replacing an earlier description of the same key; other
/// lines are skipped.
pub open spec fn db_of_lines(lines: Seq<Seq<char>>) -> Map<Seq<char>, Seq<char>>
    decreases lines.len(),
{
    if lines.len() == 0 {
        Map::empty()
    } else {
        let m = db_of_lines(lines.drop_last());
        let t = tokens_of(lines.last());
        if t.len() == 2 {
            m.insert(t[0], t[1])
        } else {
            m
        }
    }
}

/// The table that a text source describes.
pub open spec fn parse_db(s: Seq<char>) -> Map<Seq<char>, Seq<char>> {
    db_of_lines(lines_of(s))
}

/// Every key of the table comes from an entry line whose description the table holds,
/// and every entry line's key is in the table.
pub proof fn lemma_only_entry_lines_count(lines: Seq<Seq<char>>, k: Seq<char>)
    ensures
        db_of_lines(lines).dom().contains(k) <==> exists|i: int|
            0 <= i < lines.len() && is_entry(#[trigger] lines[i]) && tokens_of(lines[i])[0] == k,
        db_of_lines(lines).dom().contains(k) ==> exists|i: int|
            0 <= i < lines.len() && is_entry(#[trigger] lines[i]) && tokens_of(lines[i])[0] == k
                && tokens_of(lines[i])[1] == db_of_lines(lines)[k],
    decreases lines.len(),
{
    if lines.len() > 0 {
        let prev = lines.drop_last();
        lemma_only_entry_lines_count(prev, k);
        let n = lines.len() - 1;
        let t = tokens_of(lines[n]);
        if exists|i: int|
            0 <= i < lines.len() && is_entry(#[trigger] lines[i]) && tokens_of(lines[i])[0] == k {
            let i = choose|i: int|
                0 <= i < lines.len() && is_entry(#[trigger] lines[i]) && tokens_of(lines[i])[0]
                    == k;
            if i < n {
                assert(prev[i] == lines[i]);
            }
        }
        if db_of_lines(lines).dom().contains(k) {
            if t.len() == 2 && t[0] == k {
                assert(is_entry(lines[n]));
            } else {
                let i = choose|i: int|
                    0 <= i < prev.len() && is_entry(#[trigger] prev[i]) && tokens_of(prev[i])[0] == k
                        && tokens_of(prev[i])[1] == db_of_lines(prev)[k];
                assert(lines[i] == prev[i]);
            }
        }
    }
}

/// Where an entry line is the last one with its key, the table holds that line's description.
pub proof fn lemma_last_entry_wins(lines: Seq<Seq<char>>, i: int)
    requires
        0 <= i < lines.len(),
        is_entry(lines[i]),
        forall|j: int|
            i < j < lines.len() && is_entry(#[trigger] lines[j]) ==> tokens_of(lines[j])[0]
                != tokens_of(lines[i])[0],
    ensures
        db_of_lines(lines).dom().contains(tokens_of(lines[i])[0]),
        db_of_lines(lines)[tokens_of(lines[i])[0]] == tokens_of(lines[i])[1],
    decreases lines.len(),
{
    let n = lines.len() - 1;
    if i < n {
        let prev = lines.drop_last();
        assert(prev[i] == lines[i]);
        assert forall|j: int| i < j < prev.len() && is_entry(#[trigger] prev[j]) implies tokens_of(
            prev[j],
        )[0] != tokens_of(prev[i])[0] by {
            assert(prev[j] == lines[j]);
        }
        lemma_last_entry_wins(prev, i);
    }
}

/// Known vulnerabilities: a description for each key.
pub struct VulnerabilityDB {
    vulnerabilities: StringMap,
}

impl View for VulnerabilityDB {
    type V = Map<Seq<char>, Seq<char>>;

    closed spec fn view(&self) -> Map<Seq<char>, Seq<char>> {
        self.vulnerabilities@
    }
}

impl VulnerabilityDB {
    /// Builds the table from its text form: each line with exactly two whitespace-separated
    /// tokens stores the second under the first, a later line winning over an earlier one;
    /// all other lines are skipped.
    pub fn parse(contents: &str) -> (r: VulnerabilityDB)
        ensures
            r@ == parse_db(contents@),
    {
        let cs = chars_of(contents);
        let lines = split_lines(&cs);
        let ghost ls = lines@.map_values(|l: Vec<char>| l@);
        let mut m = StringMap::new();
        for i in 0..lines.len()
            invariant
                ls == lines@.map_values(|l: Vec<char>| l@),
                ls == lines_of(contents@),
                m@ == db_of_lines(ls.take(i as int)),
        {
            let mut toks = split_tokens(&lines[i]);
            assert(ls.take(i + 1).drop_last() =~= ls.take(i as int));
            assert(ls.take(i + 1).last() == lines[i as int]@);
            if toks.len() == 2 {
                let value = toks.pop().unwrap();
                let key = toks.pop().unwrap();
                m.insert(key, value);
            }
        }
        assert(ls.take(lines.len() as int) =~= ls);
        VulnerabilityDB { vulnerabilities: m }
    }

    /// Whether `key` names a known vulnerability.
    pub fn contains_key(&self, key: &String) -> (r: bool)
        ensures
            r == self@.dom().contains(key@),
    {
        self.vulnerabilities.contains_key(key)
    }

    /// The description stored under `key`, if any.
    pub fn get(&self, key: &String) -> (r: Option<&String>)
        ensures
            match r {
                Some(v) => self@.dom().contains(key@) && self@[key@] == v@,
                None => !self@.dom().contains(key@),
            },
    {
        self.vulnerabilities.get(key)
    }

    /// The number of known vulnerabilities.
    pub fn len(&self) -> (r: usize)
        ensures
            r == self@.dom().len(),
    {
        self.vulnerabilities.len()
    }
}

} // verus!
