//! Line and token structure of plain text.

use vstd::prelude::*;

verus! {

/// Unicode `White_Space`: the characters that separate tokens.
pub open spec fn is_ws(c: char) -> bool {
    let u = c as u32;
    (0x9 <= u && u <= 0xD) || u == 0x20 || u == 0x85 || u == 0xA0 || u == 0x1680 || (0x2000 <= u
        && u <= 0x200A) || u == 0x2028 || u == 0x2029 || u == 0x202F || u == 0x205F || u == 0x3000
}

/// Whether `c` separates tokens.
pub fn is_whitespace_char(c: char) -> (r: bool)
    ensures
        r == is_ws(c),
{
    let u = c as u32;
    (0x9 <= u && u <= 0xD) || u == 0x20 || u == 0x85 || u == 0xA0 || u == 0x1680 || (0x2000 <= u
        && u <= 0x200A) || u == 0x2028 || u == 0x2029 || u == 0x202F || u == 0x205F || u == 0x3000
}

/// The pieces of `s` between line breaks, in order: a text with k breaks has k + 1 pieces.
pub open spec fn lines_of(s: Seq<char>) -> Seq<Seq<char>>
    decreases s.len(),
{
    if s.len() == 0 {
        seq![Seq::empty()]
    } else {
        let prev = lines_of(s.drop_last());
        if s.last() == '\n' {
            prev.push(Seq::empty())
        } else {
            prev.update(prev.len() - 1, prev.last().push(s.last()))
        }
    }
}

/// The maximal runs of non-whitespace characters of `s`, in order.
pub open spec fn tokens_of(s: Seq<char>) -> Seq<Seq<char>>
    decreases s.len(),
{
    if s.len() == 0 {
        Seq::empty()
    } else {
        let prev = tokens_of(s.drop_last());
        let c = s.last();
        if is_ws(c) {
            prev
        } else if s.len() == 1 || is_ws(s[s.len() - 2]) {
            prev.push(seq![c])
        } else {
            prev.update(prev.len() - 1, prev.last().push(c))
        }
    }
}

/// Relies on `String::push`: appends one character.
#[verifier::external_body]
fn push_char(s: &mut String, c: char)
    ensures
        final(s)@ == old(s)@.push(c),
{
    s.push(c);
}

/// The characters of `s`, in order.
pub fn chars_of(s: &str) -> (r: Vec<char>)
    ensures
        r@ == s@,
{
    let mut r: Vec<char> = Vec::new();
    for c in it: s.chars()
        invariant
            r@ == it.seq().take(it.index() as int),
            it.seq() == s@,
    {
        r.push(c);
    }
    r
}

/// The pieces of `cs` between line breaks.
pub fn split_lines(cs: &Vec<char>) -> (r: Vec<Vec<char>>)
    ensures
        r@.map_values(|l: Vec<char>| l@) == lines_of(cs@),
{
    let mut r: Vec<Vec<char>> = Vec::new();
    r.push(Vec::new());
    assert(r@.map_values(|l: Vec<char>| l@) =~= lines_of(cs@.take(0)));
    for i in 0..cs.len()
        invariant
            r.len() >= 1,
            r@.map_values(|l: Vec<char>| l@) == lines_of(cs@.take(i as int)),
    {
        let c = cs[i];
        assert(cs@.take(i + 1).drop_last() =~= cs@.take(i as int));
        let ghost before = r@.map_values(|l: Vec<char>| l@);
        if c == '\n' {
            r.push(Vec::new());
            assert(r@.map_values(|l: Vec<char>| l@) =~= before.push(Seq::empty()));
        } else {
            let mut last = r.pop().unwrap();
            last.push(c);
            r.push(last);
            assert(r@.map_values(|l: Vec<char>| l@) =~= before.update(
                before.len() - 1,
                before.last().push(c),
            ));
        }
    }
    assert(cs@.take(cs.len() as int) =~= cs@);
    r
}

/// The tokens of `line`: its maximal runs of non-whitespace characters.
pub fn split_tokens(line: &Vec<char>) -> (r: Vec<String>)
    ensures
        r@.map_values(|t: String| t@) == tokens_of(line@),
{
    let mut r: Vec<String> = Vec::new();
    let mut in_token = false;
    assert(r@.map_values(|t: String| t@) =~= tokens_of(line@.take(0)));
    for i in 0..line.len()
        invariant
            in_token ==> r.len() >= 1,
            in_token == (i > 0 && !is_ws(line@[i - 1])),
            r@.map_values(|t: String| t@) == tokens_of(line@.take(i as int)),
    {
        let c = line[i];
        let ghost cur = line@.take(i + 1);
        assert(cur.drop_last() =~= line@.take(i as int));
        assert(cur.last() == c);
        assert(i > 0 ==> cur[cur.len() - 2] == line@[i - 1]);
        let ghost before = r@.map_values(|t: String| t@);
        if is_whitespace_char(c) {
            in_token = false;
        } else if !in_token {
            let mut t = String::new();
            push_char(&mut t, c);
            r.push(t);
            assert(r@.map_values(|t: String| t@) =~= before.push(seq![c]));
            in_token = true;
        } else {
            let mut t = r.pop().unwrap();
            push_char(&mut t, c);
            r.push(t);
            assert(r@.map_values(|t: String| t@) =~= before.update(
                before.len() - 1,
                before.last().push(c),
            ));
        }
    }
    assert(line@.take(line.len() as int) =~= line@);
    r
}

} // verus!
