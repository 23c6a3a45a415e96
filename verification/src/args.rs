//! The tokens of a line, and the stream that hands them out one by one.

use crate::text::{is_space, is_whitespace, lemma_run_len, lemma_run_len_bounds, run_len};
use vstd::prelude::*;

verus! {

/// What keeps a character inside a token: it is no white space.
pub open spec fn in_token() -> spec_fn(char) -> bool {
    |c: char| !is_space(c)
}

/// The tokens of a line, in order: its longest runs of characters that are
/// no white space.
pub open spec fn tokens(s: Seq<char>) -> Seq<Seq<char>>
    decreases s.len(),
{
    if s.len() == 0 {
        Seq::empty()
    } else if is_space(s[0]) {
        tokens(s.drop_first())
    } else {
        let n = run_len(s, in_token());
        proof {
            lemma_run_len_bounds(s, in_token());
        }
        seq![s.take(n as int)] + tokens(s.skip(n as int))
    }
}

/// A token: not empty, and free of white space.
pub open spec fn is_word(w: Seq<char>) -> bool {
    w.len() > 0 && forall|k: int| 0 <= k < w.len() ==> !is_space(#[trigger] w[k])
}

/// A gap: white space only, possibly none.
pub open spec fn is_blank(g: Seq<char>) -> bool {
    forall|k: int| 0 <= k < g.len() ==> is_space(#[trigger] g[k])
}

/// The line made of `words` with `gaps` around them: a gap, then each word
/// followed by a gap.
pub open spec fn joined(gaps: Seq<Seq<char>>, words: Seq<Seq<char>>) -> Seq<char>
    recommends
        gaps.len() == words.len() + 1,
    decreases words.len(),
{
    if words.len() == 0 {
        gaps[0]
    } else {
        gaps[0] + words[0] + joined(gaps.drop_first(), words.drop_first())
    }
}

/// A line of white space holds no token.
pub proof fn lemma_tokens_blank(s: Seq<char>)
    requires
        is_blank(s),
    ensures
        tokens(s) == Seq::<Seq<char>>::empty(),
    decreases s.len(),
{
    if s.len() != 0 {
        let rest = s.drop_first();
        assert(is_space(s[0]));
        assert forall|k: int| 0 <= k < rest.len() implies is_space(#[trigger] rest[k]) by {
            assert(rest[k] == s[k + 1]);
        }
        lemma_tokens_blank(rest);
    }
}

/// Where the first token lies: after `a` characters of white space, up to
/// `b`, where the line ends or white space follows.
pub proof fn lemma_tokens_first(s: Seq<char>, a: int, b: int)
    requires
        0 <= a < b <= s.len(),
        forall|k: int| 0 <= k < a ==> is_space(#[trigger] s[k]),
        forall|k: int| a <= k < b ==> !is_space(#[trigger] s[k]),
        b < s.len() ==> is_space(s[b]),
    ensures
        tokens(s) == seq![s.subrange(a, b)] + tokens(s.skip(b)),
    decreases a,
{
    if a == 0 {
        assert forall|k: int| 0 <= k < b implies in_token()(#[trigger] s[k]) by {}
        lemma_run_len(s, in_token(), b);
        assert(s.take(b) =~= s.subrange(0, b));
    } else {
        let rest = s.drop_first();
        assert(is_space(s[0]));
        assert forall|k: int| 0 <= k < a - 1 implies is_space(#[trigger] rest[k]) by {
            assert(rest[k] == s[k + 1]);
        }
        assert forall|k: int| a - 1 <= k < b - 1 implies !is_space(#[trigger] rest[k]) by {
            assert(rest[k] == s[k + 1]);
        }
        if b < s.len() {
            assert(rest[b - 1] == s[b]);
        }
        lemma_tokens_first(rest, a - 1, b - 1);
        assert(rest.subrange(a - 1, b - 1) =~= s.subrange(a, b));
        assert(rest.skip(b - 1) =~= s.skip(b));
    }
}

/// No token is empty, and none holds white space.
pub proof fn lemma_tokens_are_words(s: Seq<char>)
    ensures
        forall|i: int| 0 <= i < tokens(s).len() ==> is_word(#[trigger] tokens(s)[i]),
    decreases s.len(),
{
    if s.len() == 0 {
        assert(tokens(s).len() == 0);
    } else if is_space(s[0]) {
        lemma_tokens_are_words(s.drop_first());
        assert(tokens(s) == tokens(s.drop_first()));
    } else {
        let n = run_len(s, in_token());
        lemma_run_len_bounds(s, in_token());
        lemma_tokens_are_words(s.skip(n as int));
        let first = s.take(n as int);
        assert forall|k: int| 0 <= k < first.len() implies !is_space(#[trigger] first[k]) by {
            assert(in_token()(s[k]));
        }
        assert(is_word(first));
        let later = tokens(s.skip(n as int));
        assert(tokens(s) == seq![first] + later);
        assert forall|i: int| 0 <= i < tokens(s).len() implies is_word(#[trigger] tokens(s)[i]) by {
            if i > 0 {
                assert(tokens(s)[i] == later[i - 1]);
                assert(is_word(later[i - 1]));
            } else {
                assert(tokens(s)[0] == first);
            }
        }
    }
}

/// Splitting gives back the words that a line was made of, in order and
/// nothing else, however much white space stands between and around them.
pub proof fn lemma_tokens_of_joined(gaps: Seq<Seq<char>>, words: Seq<Seq<char>>)
    requires
        gaps.len() == words.len() + 1,
        forall|i: int| 0 <= i < words.len() ==> is_word(#[trigger] words[i]),
        forall|i: int| 0 <= i < gaps.len() ==> is_blank(#[trigger] gaps[i]),
        forall|i: int| 0 < i < words.len() ==> (#[trigger] gaps[i]).len() > 0,
    ensures
        tokens(joined(gaps, words)) == words,
    decreases words.len(),
{
    if words.len() == 0 {
        assert(is_blank(gaps[0]));
        lemma_tokens_blank(gaps[0]);
        assert(words =~= Seq::<Seq<char>>::empty());
    } else {
        let later_gaps = gaps.drop_first();
        let later_words = words.drop_first();
        let rest = joined(later_gaps, later_words);
        let line = joined(gaps, words);
        let a = gaps[0].len() as int;
        let b = a + words[0].len();
        assert(is_blank(gaps[0]));
        assert(is_word(words[0]));
        assert forall|i: int| 0 <= i < later_words.len() implies is_word(
            #[trigger] later_words[i],
        ) by {
            assert(later_words[i] == words[i + 1]);
        }
        assert forall|i: int| 0 <= i < later_gaps.len() implies is_blank(
            #[trigger] later_gaps[i],
        ) by {
            assert(later_gaps[i] == gaps[i + 1]);
        }
        assert forall|i: int| 0 < i < later_words.len() implies (#[trigger] later_gaps[i]).len()
            > 0 by {
            assert(later_gaps[i] == gaps[i + 1]);
        }
        lemma_tokens_of_joined(later_gaps, later_words);
        assert forall|k: int| 0 <= k < a implies is_space(#[trigger] line[k]) by {
            assert(line[k] == gaps[0][k]);
        }
        assert forall|k: int| a <= k < b implies !is_space(#[trigger] line[k]) by {
            assert(line[k] == words[0][k - a]);
        }
        if b < line.len() {
            assert(line[b] == rest[0]);
            assert(is_blank(later_gaps[0]));
            if later_words.len() == 0 {
                assert(rest[0] == later_gaps[0][0]);
            } else {
                assert(later_gaps[0] == gaps[1]);
                assert(rest[0] == later_gaps[0][0]);
            }
        }
        lemma_tokens_first(line, a, b);
        assert(line.subrange(a, b) =~= words[0]);
        assert(line.skip(b) =~= rest);
        assert(words =~= seq![words[0]] + later_words);
    }
}

/// The tokens of a line that are still to come. A callback takes them one
/// by one with `next`.
pub struct Args<'a> {
    rest: &'a str,
}

impl<'a> View for Args<'a> {
    type V = Seq<Seq<char>>;

    /// The tokens still to come, in order.
    closed spec fn view(&self) -> Seq<Seq<char>> {
        tokens(self.rest@)
    }
}

impl<'a> Args<'a> {
    /// The stream of the tokens of `line`.
    pub fn new(line: &'a str) -> (args: Self)
        ensures
            args@ == tokens(line@),
    {
        Args { rest: line }
    }

    /// Takes the next token off the stream, if one is left.
    pub fn next(&mut self) -> (token: Option<&'a str>)
        ensures
            old(self)@.len() == 0 ==> token is None && final(self)@ == old(self)@,
            old(self)@.len() > 0 ==> token is Some && token->0@ == old(self)@[0] && final(self)@
                == old(self)@.drop_first(),
    {
        let s: &'a str = self.rest;
        let n = s.unicode_len();
        let mut start: usize = 0;
        let mut end: usize = 0;
        let mut i: usize = 0;
        let mut found = false;
        let mut done = false;
        for c in it: s.chars()
            invariant
                it.seq() == s@,
                n == s@.len(),
                i == it.index(),
                i <= n,
                forall|k: int| 0 <= k < start ==> is_space(#[trigger] s@[k]),
                !found ==> start == i && !done,
                found ==> start < end <= i,
                found && !done ==> end == i,
                done ==> end < n && is_space(s@[end as int]),
                forall|k: int| start <= k < end ==> !is_space(#[trigger] s@[k]),
        {
            if !done {
                if is_whitespace(c) {
                    if found {
                        done = true;
                    } else {
                        start = i + 1;
                    }
                } else {
                    found = true;
                    end = i + 1;
                }
            }
            i += 1;
        }
        if found {
            let token = s.substring_char(start, end);
            self.rest = s.substring_char(end, n);
            proof {
                lemma_tokens_first(s@, start as int, end as int);
                assert(s@.subrange(end as int, n as int) =~= s@.skip(end as int));
                assert((seq![s@.subrange(start as int, end as int)] + tokens(
                    s@.skip(end as int),
                )).drop_first() =~= tokens(s@.skip(end as int)));
            }
            Some(token)
        } else {
            proof {
                lemma_tokens_blank(s@);
            }
            None
        }
    }
}

} // verus!
