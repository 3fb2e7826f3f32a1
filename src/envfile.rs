//! The `.env` file that may sit beside a function: `KEY=VALUE` lines, blank
//! lines and `#` comments skipped, keys and values trimmed, and one pair of
//! matching quotes around a value removed.
use crate::gateway::{find_char, index_of};
use crate::routing::{split_from, split_text};
use vstd::prelude::*;
use vstd::string::*;

verus! {

pub open spec fn is_blank(c: char) -> bool {
    c == ' ' || c == '\t' || c == '\r'
}

pub open spec fn skip_blank(s: Seq<char>, i: int) -> int
    decreases s.len() - i,
{
    if i < 0 || i >= s.len() || !is_blank(s[i]) {
        i
    } else {
        skip_blank(s, i + 1)
    }
}

pub open spec fn back_blank(s: Seq<char>, j: int, lo: int) -> int
    decreases j - lo,
{
    if j <= lo || j > s.len() || !is_blank(s[j - 1]) {
        j
    } else {
        back_blank(s, j - 1, lo)
    }
}

/// `s` without blanks at either end.
pub open spec fn trim(s: Seq<char>) -> Seq<char> {
    let a = skip_blank(s, 0);
    s.subrange(a, back_blank(s, s.len() as int, a))
}

/// `s` without one pair of matching single or double quotes around it.
pub open spec fn unquote(s: Seq<char>) -> Seq<char> {
    if s.len() >= 2 && (s[0] == '"' || s[0] == '\'') && s[s.len() - 1] == s[0] {
        s.subrange(1, s.len() - 1)
    } else {
        s
    }
}

/// The pair a line holds, if it holds one.
pub open spec fn env_line(line: Seq<char>) -> Option<(Seq<char>, Seq<char>)> {
    let t = trim(line);
    let e = index_of(t, '=', 0);
    if t.len() == 0 || t[0] == '#' || e >= t.len() || trim(t.subrange(0, e)).len() == 0 {
        None
    } else {
        Some((trim(t.subrange(0, e)), unquote(trim(t.subrange(e + 1, t.len() as int)))))
    }
}

pub open spec fn env_pairs(lines: Seq<Seq<char>>) -> Seq<(Seq<char>, Seq<char>)>
    decreases lines.len(),
{
    if lines.len() == 0 {
        Seq::empty()
    } else {
        let init = env_pairs(lines.drop_last());
        match env_line(lines.last()) {
            Some(p) => init.push(p),
            None => init,
        }
    }
}

/// The pairs of a file, in the order of its lines.
pub open spec fn env_file(text: Seq<char>) -> Seq<(Seq<char>, Seq<char>)> {
    env_pairs(split_from(text, '\n', 0))
}

proof fn lemma_skip_blank(s: Seq<char>, i: int)
    requires
        0 <= i <= s.len(),
    ensures
        i <= skip_blank(s, i) <= s.len(),
    decreases s.len() - i,
{
    if i < s.len() && is_blank(s[i]) {
        lemma_skip_blank(s, i + 1);
    }
}

proof fn lemma_back_blank(s: Seq<char>, j: int, lo: int)
    requires
        0 <= lo <= j <= s.len(),
    ensures
        lo <= back_blank(s, j, lo) <= j,
    decreases j - lo,
{
    if j > lo && is_blank(s[j - 1]) {
        lemma_back_blank(s, j - 1, lo);
    }
}

fn blank_at(s: &str, i: usize) -> (r: bool)
    requires
        i < s@.len(),
    ensures
        r == is_blank(s@[i as int]),
{
    let c = s.get_char(i);
    c == ' ' || c == '\t' || c == '\r'
}

pub fn trim_text(s: &str) -> (r: &str)
    ensures
        r@ == trim(s@),
{
    let n = s.unicode_len();
    let mut a: usize = 0;
    proof {
        lemma_skip_blank(s@, 0);
    }
    while a < n && blank_at(s, a)
        invariant
            n == s@.len(),
            0 <= a <= n,
            skip_blank(s@, 0) == skip_blank(s@, a as int),
        decreases n - a,
    {
        a = a + 1;
    }
    let mut b: usize = n;
    proof {
        lemma_back_blank(s@, n as int, a as int);
    }
    while b > a && blank_at(s, b - 1)
        invariant
            n == s@.len(),
            0 <= a <= b <= n,
            a == skip_blank(s@, 0),
            back_blank(s@, n as int, a as int) == back_blank(s@, b as int, a as int),
        decreases b - a,
    {
        b = b - 1;
    }
    s.substring_char(a, b)
}

fn unquote_text(s: &str) -> (r: &str)
    ensures
        r@ == unquote(s@),
{
    let n = s.unicode_len();
    if n >= 2 {
        let first = s.get_char(0);
        if (first == '"' || first == '\'') && s.get_char(n - 1) == first {
            return s.substring_char(1, n - 1);
        }
    }
    s
}

/// The pair a line holds, if it holds one.
pub fn parse_env_line(line: &str) -> (r: Option<(String, String)>)
    ensures
        match r {
            Some((k, v)) => env_line(line@) == Some((k@, v@)),
            None => env_line(line@) is None,
        },
{
    let t = trim_text(line);
    let n = t.unicode_len();
    if n == 0 || t.get_char(0) == '#' {
        return None;
    }
    let e = find_char(t, '=', 0);
    if e >= n {
        return None;
    }
    let key = trim_text(t.substring_char(0, e));
    if key.unicode_len() == 0 {
        return None;
    }
    let value = unquote_text(trim_text(t.substring_char(e + 1, n)));
    Some((key.to_owned(), value.to_owned()))
}

/// Reads the pairs of a `.env` file, in the order of its lines.
pub fn parse_env(text: &str) -> (r: Vec<(String, String)>)
    ensures
        r@.map_values(|p: (String, String)| (p.0@, p.1@)) == env_file(text@),
{
    let lines = split_text(text, '\n');
    let ghost ls = lines@.map_values(|x: String| x@);
    let mut out: Vec<(String, String)> = Vec::new();
    let mut i: usize = 0;
    assert(ls.subrange(0, 0) =~= Seq::<Seq<char>>::empty());
    assert(out@.map_values(|p: (String, String)| (p.0@, p.1@)) =~= Seq::<(Seq<char>, Seq<char>)>::empty());
    while i < lines.len()
        invariant
            ls == lines@.map_values(|x: String| x@),
            ls == split_from(text@, '\n', 0),
            0 <= i <= lines@.len(),
            out@.map_values(|p: (String, String)| (p.0@, p.1@)) == env_pairs(ls.subrange(0, i as int)),
        decreases lines@.len() - i,
    {
        let ghost before = out@.map_values(|p: (String, String)| (p.0@, p.1@));
        assert(ls.subrange(0, i + 1).drop_last() =~= ls.subrange(0, i as int));
        assert(ls[i as int] == lines@[i as int]@);
        match parse_env_line(lines[i].as_str()) {
            Some(p) => {
                let ghost pv = (p.0@, p.1@);
                out.push(p);
                assert(out@.map_values(|p: (String, String)| (p.0@, p.1@)) =~= before.push(pv));
            },
            None => {},
        }
        i = i + 1;
    }
    assert(ls.subrange(0, lines@.len() as int) =~= ls);
    out
}

} // verus!
