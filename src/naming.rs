//! Names derived from a function's name.
use crate::routing::{split_from, split_text};
use vstd::prelude::*;
use vstd::string::*;

verus! {

/// What `char::to_uppercase` yields for a character.
pub uninterp spec fn upper_char(c: char) -> Seq<char>;

/// Relies on `char::to_uppercase`: the result depends on the character alone.
#[verifier::external_body]
fn char_upper(c: char) -> (r: String)
    ensures
        r@ == upper_char(c),
{
    c.to_uppercase().collect()
}

/// A word with its first character upper-cased.
pub open spec fn capitalized(w: Seq<char>) -> Seq<char> {
    if w.len() == 0 {
        w
    } else {
        upper_char(w[0]) + w.drop_first()
    }
}

pub open spec fn join_capitalized(words: Seq<Seq<char>>) -> Seq<char>
    decreases words.len(),
{
    if words.len() == 0 {
        Seq::empty()
    } else {
        join_capitalized(words.drop_last()) + capitalized(words.last())
    }
}

/// `snake_case` to `PascalCase`: each `_`-separated word capitalized, the
/// underscores dropped.
pub open spec fn pascal_case(s: Seq<char>) -> Seq<char> {
    join_capitalized(split_from(s, '_', 0))
}

pub fn to_pascal_case(s: &str) -> (r: String)
    ensures
        r@ == pascal_case(s@),
{
    let words = split_text(s, '_');
    let ghost ws = words@.map_values(|x: String| x@);
    let mut out = String::new();
    let mut i: usize = 0;
    assert(ws.subrange(0, 0) =~= Seq::<Seq<char>>::empty());
    while i < words.len()
        invariant
            ws == words@.map_values(|x: String| x@),
            ws == split_from(s@, '_', 0),
            0 <= i <= words@.len(),
            out@ == join_capitalized(ws.subrange(0, i as int)),
        decreases words@.len() - i,
    {
        let w = words[i].as_str();
        let n = w.unicode_len();
        if n > 0 {
            let first = char_upper(w.get_char(0));
            out.append(first.as_str());
            out.append(w.substring_char(1, n));
            assert(w@.subrange(1, n as int) =~= w@.drop_first());
        }
        assert(ws.subrange(0, i + 1).drop_last() =~= ws.subrange(0, i as int));
        assert(ws[i as int] == w@);
        i = i + 1;
    }
    assert(ws.subrange(0, words@.len() as int) =~= ws);
    out
}

} // verus!
