use vstd::prelude::*;

use std::collections::VecDeque;

verus! {

/// The characters that separate tokens: space, tab, line feed, form feed and carriage return.
pub open spec fn is_ascii_ws(c: char) -> bool {
    c == ' ' || c == '\t' || c == '\n' || c == '\x0C' || c == '\r'
}

/// The tokens of `s` from position `i` on, where `cur` is the part of a token already read.
pub open spec fn tokens_from(s: Seq<char>, i: int, cur: Seq<char>) -> Seq<Seq<char>>
    decreases s.len() - i,
{
    let done = if cur.len() > 0 {
        seq![cur]
    } else {
        seq![]
    };
    if i >= s.len() || i < 0 {
        done
    } else if is_ascii_ws(s[i]) {
        done + tokens_from(s, i + 1, seq![])
    } else {
        tokens_from(s, i + 1, cur.push(s[i]))
    }
}

/// The maximal runs of characters of `s` that hold no ASCII whitespace, in order.
pub open spec fn tokens_of(s: Seq<char>) -> Seq<Seq<char>> {
    tokens_from(s, 0, seq![])
}

/// The characters of each string.
pub open spec fn texts(q: Seq<String>) -> Seq<Seq<char>> {
    q.map_values(|t: String| t@)
}

/// Relies on str::split_ascii_whitespace: the sub-slices of the text that lie between runs of
/// ASCII whitespace, in order, with no empty ones.
#[verifier::external_body]
fn split_tokens(text: &str) -> (r: VecDeque<String>)
    ensures
        texts(r@) == tokens_of(text@),
{
    text.split_ascii_whitespace().map(String::from).collect()
}

/// The whitespace-separated tokens of a text, handed out one at a time.
pub struct Scanner {
    tokens: VecDeque<String>,
}

impl Scanner {
    /// The tokens not yet handed out.
    pub closed spec fn view(&self) -> Seq<Seq<char>> {
        texts(self.tokens@)
    }

    /// A scanner over the tokens of `text`.
    pub fn new(text: &str) -> (r: Self)
        ensures
            r@ == tokens_of(text@),
    {
        Scanner { tokens: split_tokens(text) }
    }

    /// The next token, or `None` where all have been handed out.
    pub fn next(&mut self) -> (r: Option<String>)
        ensures
            old(self)@.len() == 0 ==> r is None && final(self)@ == old(self)@,
            old(self)@.len() > 0 ==> r is Some && r->0@ == old(self)@[0] && final(self)@
                == old(self)@.drop_first(),
    {
        let r = self.tokens.pop_front();
        proof {
            if r is Some {
                assert(texts(self.tokens@) =~= texts(old(self).tokens@).drop_first());
            }
        }
        r
    }
}

} // verus!
