//! Compiled path patterns and their matching semantics.
//!
//! A directive value such as `/*video.html$` compiles into an ordered token
//! sequence: literal text, the `*` wildcard, and the `$` end-of-string anchor.
//! Literal chunks are percent-decoded when the pattern is compiled.  Matching
//! walks the tokens left to right with a greedy search to the next literal;
//! there is no backtracking.

use vstd::prelude::*;
use crate::chars::{
    str_to_chars, chars_to_string, chars_eq_vec, copy_range, prefix_at, find_prefix_from,
    first_prefix_pos, lemma_first_prefix_pos, lemma_skip_skip,
};
use crate::foreign::{percent_decoded, percent_decode_text};
use crate::model::path::Path;

verus! {

/// One token of a compiled path pattern.
#[derive(Debug)]
pub enum PathPatternToken {
    /// A literal, percent-decoded piece of text.
    Text(Vec<char>),
    /// The `*` wildcard: any run of characters.
    AnyString,
    /// The `$` anchor: the end of the subject.
    TerminateString,
}

/// The mathematical form of a pattern token.
pub enum SpecPathToken {
    Text(Seq<char>),
    AnyString,
    TerminateString,
}

impl View for PathPatternToken {
    type V = SpecPathToken;

    open spec fn view(&self) -> SpecPathToken {
        match self {
            PathPatternToken::Text(t) => SpecPathToken::Text(t@),
            PathPatternToken::AnyString => SpecPathToken::AnyString,
            PathPatternToken::TerminateString => SpecPathToken::TerminateString,
        }
    }
}

/// The views of a sequence of pattern tokens.
pub open spec fn token_views(s: Seq<PathPatternToken>) -> Seq<SpecPathToken> {
    s.map_values(|t: PathPatternToken| t@)
}

/// A compiled path pattern: the ordered token sequence a directive value
/// compiles to.
#[derive(Debug)]
pub struct PathPattern {
    pub tokens: Vec<PathPatternToken>,
}

impl View for PathPattern {
    type V = Seq<SpecPathToken>;

    open spec fn view(&self) -> Seq<SpecPathToken> {
        token_views(self.tokens@)
    }
}

/// Append a token, collapsing it into the previous one when both are equal;
/// this is how consecutive duplicate tokens (`**`) are removed.
pub open spec fn push_token(toks: Seq<SpecPathToken>, t: SpecPathToken) -> Seq<SpecPathToken> {
    if toks.len() > 0 && toks.last() == t {
        toks
    } else {
        toks.push(t)
    }
}

/// Append the pending literal chunk, percent-decoded, if it is non-empty.
pub open spec fn flush_text(toks: Seq<SpecPathToken>, acc: Seq<char>) -> Seq<SpecPathToken> {
    if acc.len() > 0 {
        push_token(toks, SpecPathToken::Text(percent_decoded(acc)))
    } else {
        toks
    }
}

/// One scan step of the pattern compiler: `s` is the remaining input, `acc`
/// the pending literal chunk, `toks` the tokens produced so far.  At the end
/// of the input, a pattern that ends in literal text receives an implicit
/// trailing wildcard.
pub open spec fn compile_rec(
    s: Seq<char>,
    acc: Seq<char>,
    toks: Seq<SpecPathToken>,
) -> Seq<SpecPathToken>
    decreases s.len(),
{
    if s.len() == 0 {
        let flushed = flush_text(toks, acc);
        if flushed.len() > 0 && flushed.last() is Text {
            push_token(flushed, SpecPathToken::AnyString)
        } else {
            flushed
        }
    } else if s[0] == '*' {
        compile_rec(s.skip(1), Seq::empty(), push_token(flush_text(toks, acc), SpecPathToken::AnyString))
    } else if s[0] == '$' {
        compile_rec(
            s.skip(1),
            Seq::empty(),
            push_token(flush_text(toks, acc), SpecPathToken::TerminateString),
        )
    } else {
        compile_rec(s.skip(1), acc.push(s[0]), toks)
    }
}

/// The token sequence a directive value compiles to.
pub open spec fn compiled_pattern(s: Seq<char>) -> Seq<SpecPathToken> {
    compile_rec(s, Seq::empty(), Seq::empty())
}

/// Whether the token sequence `toks` matches the subject text `path`.
///
/// A literal must occur at the cursor; a wildcard followed by a literal jumps
/// to the first position where that literal occurs (greedy, no backtracking);
/// a wildcard followed by anything else consumes the rest of the subject; the
/// anchor demands that the subject is exhausted.
pub open spec fn matches_from(toks: Seq<SpecPathToken>, path: Seq<char>) -> bool
    decreases toks.len(),
{
    if toks.len() == 0 {
        true
    } else {
        match toks[0] {
            SpecPathToken::Text(t) => t.is_prefix_of(path) && matches_from(
                toks.skip(1),
                path.skip(t.len() as int),
            ),
            SpecPathToken::AnyString => {
                if toks.len() >= 2 && toks[1] is Text {
                    match toks[1] {
                        SpecPathToken::Text(t) => match first_prefix_pos(path, t) {
                            Some(k) => matches_from(toks.skip(2), path.skip(k + t.len())),
                            None => false,
                        },
                        _ => false,
                    }
                } else {
                    matches_from(toks.skip(1), Seq::empty())
                }
            },
            SpecPathToken::TerminateString => path.len() == 0 && matches_from(toks.skip(1), path),
        }
    }
}

/// The number of bytes one character occupies in UTF-8.
pub open spec fn char_utf8_weight(c: char) -> nat {
    if (c as u32) < 0x80 {
        1
    } else if (c as u32) < 0x800 {
        2
    } else if (c as u32) < 0x10000 {
        3
    } else {
        4
    }
}

/// The UTF-8 byte length of a piece of text.
pub open spec fn text_weight(s: Seq<char>) -> nat
    decreases s.len(),
{
    if s.len() == 0 {
        0
    } else {
        char_utf8_weight(s[0]) + text_weight(s.skip(1))
    }
}

/// `text_weight` is exactly the length of the text's UTF-8 encoding.
pub proof fn lemma_text_weight_is_utf8_len(s: Seq<char>)
    ensures
        text_weight(s) == vstd::utf8::encode_utf8(s).len(),
    decreases s.len(),
{
    if s.len() > 0 {
        vstd::utf8::char_is_scalar(s[0]);
        lemma_text_weight_is_utf8_len(s.drop_first());
        assert(s.drop_first() =~= s.skip(1));
    }
}

/// The specificity weight of one token: the UTF-8 byte length of its literal
/// text, or one for a wildcard or anchor.
pub open spec fn token_weight(t: SpecPathToken) -> nat {
    match t {
        SpecPathToken::Text(s) => text_weight(s),
        SpecPathToken::AnyString => 1,
        SpecPathToken::TerminateString => 1,
    }
}

/// The specificity weight of a whole pattern: the sum of its token weights.
pub open spec fn pattern_weight(toks: Seq<SpecPathToken>) -> nat
    decreases toks.len(),
{
    if toks.len() == 0 {
        0
    } else {
        token_weight(toks[0]) + pattern_weight(toks.skip(1))
    }
}

/// The pattern weight as the `len` method reports it: capped at `usize::MAX`.
pub open spec fn capped_weight(toks: Seq<SpecPathToken>) -> nat {
    if pattern_weight(toks) <= usize::MAX as nat {
        pattern_weight(toks)
    } else {
        usize::MAX as nat
    }
}

/// The number of bytes one character occupies in UTF-8.
fn char_weight(c: char) -> (r: usize)
    ensures
        r as nat == char_utf8_weight(c),
{
    let u = c as u32;
    if u < 0x80 {
        1
    } else if u < 0x800 {
        2
    } else if u < 0x10000 {
        3
    } else {
        4
    }
}

impl PathPatternToken {
    /// The specificity weight of this token, capped at `usize::MAX`.
    pub fn len(&self) -> (r: usize)
        ensures
            r as nat == if token_weight(self@) <= usize::MAX as nat {
                token_weight(self@)
            } else {
                usize::MAX as nat
            },
    {
        match self {
            PathPatternToken::Text(t) => {
                let n = t.len();
                let mut total: usize = 0;
                let mut i: usize = 0;
                assert(t@.skip(0) =~= t@);
                while i < n
                    invariant
                        n == t@.len(),
                        i <= n,
                        total as nat == if text_weight(t@) - text_weight(t@.skip(i as int))
                            <= usize::MAX as nat {
                            (text_weight(t@) - text_weight(t@.skip(i as int))) as nat
                        } else {
                            usize::MAX as nat
                        },
                        text_weight(t@.skip(i as int)) <= text_weight(t@),
                    decreases n - i,
                {
                    let ghost suffix = t@.skip(i as int);
                    proof {
                        lemma_skip_skip(t@, i as int, 1);
                        assert(suffix[0] == t@[i as int]);
                    }
                    let w = char_weight(t[i]);
                    if total > usize::MAX - w {
                        total = usize::MAX;
                    } else {
                        total = total + w;
                    }
                    i = i + 1;
                }
                assert(t@.skip(i as int) =~= Seq::<char>::empty());
                total
            },
            PathPatternToken::AnyString => 1,
            PathPatternToken::TerminateString => 1,
        }
    }
}

/// Append a token to a token vector, collapsing consecutive duplicates.
fn push_token_exec(toks: &mut Vec<PathPatternToken>, t: PathPatternToken)
    ensures
        token_views(final(toks)@) == push_token(token_views(old(toks)@), t@),
{
    let n = toks.len();
    if n > 0 {
        let same = match &toks[n - 1] {
            PathPatternToken::Text(a) => match &t {
                PathPatternToken::Text(b) => chars_eq_vec(a, b),
                _ => false,
            },
            PathPatternToken::AnyString => match &t {
                PathPatternToken::AnyString => true,
                _ => false,
            },
            PathPatternToken::TerminateString => match &t {
                PathPatternToken::TerminateString => true,
                _ => false,
            },
        };
        if same {
            assert(token_views(toks@).last() == t@);
            return ;
        }
        assert(token_views(toks@).last() != t@);
    }
    toks.push(t);
    assert(token_views(toks@) =~= token_views(old(toks)@).push(t@));
}

/// Append the literal chunk `chars[start..end]`, percent-decoded, if any.
fn flush_chunk(toks: &mut Vec<PathPatternToken>, chars: &Vec<char>, start: usize, end: usize)
    requires
        start <= end <= chars@.len(),
    ensures
        token_views(final(toks)@) == flush_text(
            token_views(old(toks)@),
            chars@.subrange(start as int, end as int),
        ),
{
    if start < end {
        let chunk = copy_range(chars, start, end);
        let chunk_text = chars_to_string(&chunk);
        let decoded = percent_decode_text(chunk_text.as_str());
        let decoded_chars = str_to_chars(decoded.as_str());
        push_token_exec(toks, PathPatternToken::Text(decoded_chars));
    }
}

impl PathPattern {
    /// Compile a directive value into a pattern.
    pub fn new(path: &str) -> (r: PathPattern)
        ensures
            r@ == compiled_pattern(path@),
    {
        let chars = str_to_chars(path);
        let n = chars.len();
        let mut toks: Vec<PathPatternToken> = Vec::new();
        let mut start: usize = 0;
        let mut i: usize = 0;
        assert(chars@.skip(0) =~= chars@);
        assert(chars@.subrange(0, 0) =~= Seq::<char>::empty());
        assert(token_views(toks@) =~= Seq::<SpecPathToken>::empty());
        while i < n
            invariant
                n == chars@.len(),
                chars@ == path@,
                start <= i <= n,
                compiled_pattern(path@) == compile_rec(
                    chars@.skip(i as int),
                    chars@.subrange(start as int, i as int),
                    token_views(toks@),
                ),
            decreases n - i,
        {
            let ghost prev = chars@.skip(i as int);
            proof {
                lemma_skip_skip(chars@, i as int, 1);
                assert(prev[0] == chars@[i as int]);
            }
            let c = chars[i];
            if c == '*' {
                flush_chunk(&mut toks, &chars, start, i);
                push_token_exec(&mut toks, PathPatternToken::AnyString);
                i = i + 1;
                start = i;
                assert(chars@.subrange(start as int, i as int) =~= Seq::<char>::empty());
            } else if c == '$' {
                flush_chunk(&mut toks, &chars, start, i);
                push_token_exec(&mut toks, PathPatternToken::TerminateString);
                i = i + 1;
                start = i;
                assert(chars@.subrange(start as int, i as int) =~= Seq::<char>::empty());
            } else {
                i = i + 1;
                assert(chars@.subrange(start as int, i as int) =~= chars@.subrange(
                    start as int,
                    i as int - 1,
                ).push(chars@[i as int - 1]));
            }
        }
        assert(chars@.skip(i as int) =~= Seq::<char>::empty());
        flush_chunk(&mut toks, &chars, start, n);
        let m = toks.len();
        if m > 0 {
            let is_text = match &toks[m - 1] {
                PathPatternToken::Text(_) => true,
                _ => false,
            };
            if is_text {
                push_token_exec(&mut toks, PathPatternToken::AnyString);
            }
        }
        PathPattern { tokens: toks }
    }

    /// The pattern that matches every subject: one wildcard token.
    pub fn all() -> (r: PathPattern)
        ensures
            r@ == seq![SpecPathToken::AnyString],
    {
        let tokens: Vec<PathPatternToken> = vec![PathPatternToken::AnyString];
        assert(token_views(tokens@) =~= seq![SpecPathToken::AnyString]);
        PathPattern { tokens }
    }

    /// Whether this pattern matches the given decoded path.
    pub fn applies_to(&self, path: &Path) -> (r: bool)
        ensures
            r == matches_from(self@, path@),
    {
        let subject = str_to_chars(path.as_str());
        assert(self@.skip(0) =~= self@);
        assert(subject@.skip(0) =~= subject@);
        matches_at(&self.tokens, 0, &subject, 0)
    }

    /// The specificity weight of this pattern, capped at `usize::MAX`: the
    /// key by which overlapping rules are ordered.
    pub fn len(&self) -> (r: usize)
        ensures
            r == capped_weight(self@),
    {
        let n = self.tokens.len();
        let mut total: usize = 0;
        let mut i: usize = 0;
        assert(token_views(self.tokens@).skip(0) =~= self@);
        while i < n
            invariant
                n == self.tokens@.len(),
                i <= n,
                total as nat == if pattern_weight(self@) - pattern_weight(
                    token_views(self.tokens@).skip(i as int),
                ) <= usize::MAX as nat {
                    (pattern_weight(self@) - pattern_weight(
                        token_views(self.tokens@).skip(i as int),
                    )) as nat
                } else {
                    usize::MAX as nat
                },
                pattern_weight(token_views(self.tokens@).skip(i as int)) <= pattern_weight(self@),
            decreases n - i,
        {
            let ghost suffix = token_views(self.tokens@).skip(i as int);
            proof {
                lemma_skip_skip(token_views(self.tokens@), i as int, 1);
                assert(suffix[0] == self.tokens@[i as int]@);
            }
            let w = self.tokens[i].len();
            if total > usize::MAX - w {
                total = usize::MAX;
            } else {
                total = total + w;
            }
            i = i + 1;
        }
        assert(token_views(self.tokens@).skip(i as int) =~= Seq::<SpecPathToken>::empty());
        total
    }
}

/// Match tokens `ti..` against the subject characters `pi..`.
fn matches_at(tokens: &Vec<PathPatternToken>, ti: usize, subject: &Vec<char>, pi: usize) -> (r:
    bool)
    requires
        ti <= tokens@.len(),
        pi <= subject@.len(),
    ensures
        r == matches_from(token_views(tokens@).skip(ti as int), subject@.skip(pi as int)),
    decreases tokens@.len() - ti,
{
    let n = tokens.len();
    let slen = subject.len();
    if ti == n {
        assert(token_views(tokens@).skip(ti as int) =~= Seq::<SpecPathToken>::empty());
        return true;
    }
    let ghost toks = token_views(tokens@).skip(ti as int);
    let ghost path = subject@.skip(pi as int);
    proof {
        assert(toks[0] == tokens@[ti as int]@);
        lemma_skip_skip(token_views(tokens@), ti as int, 1);
    }
    match &tokens[ti] {
        PathPatternToken::Text(t) => {
            if prefix_at(subject, pi, t) {
                proof {
                    assert(pi + t@.len() <= slen);
                    lemma_skip_skip(subject@, pi as int, t@.len() as int);
                }
                matches_at(tokens, ti + 1, subject, pi + t.len())
            } else {
                false
            }
        },
        PathPatternToken::AnyString => {
            let mut next_is_text = false;
            if ti + 1 < n {
                next_is_text = match &tokens[ti + 1] {
                    PathPatternToken::Text(_) => true,
                    _ => false,
                };
            }
            proof {
                if 1 <= toks.len() - 1 {
                    assert(toks[1] == tokens@[ti as int + 1]@);
                }
            }
            if next_is_text {
                match &tokens[ti + 1] {
                    PathPatternToken::Text(t2) => {
                        match find_prefix_from(subject, pi, t2) {
                            Some(k) => {
                                proof {
                                    lemma_first_prefix_pos(path, t2@);
                                    assert(t2@.is_prefix_of(path.skip(k - pi)));
                                    assert(k + t2@.len() <= slen);
                                    lemma_skip_skip(token_views(tokens@), ti as int, 2);
                                    lemma_skip_skip(subject@, pi as int, k - pi + t2@.len());
                                }
                                matches_at(tokens, ti + 2, subject, k + t2.len())
                            },
                            None => false,
                        }
                    },
                    _ => {
                        // `next_is_text` ruled this arm out.
                        proof {
                            assert(false);
                        }
                        false
                    },
                }
            } else {
                assert(subject@.skip(subject@.len() as int) =~= Seq::<char>::empty());
                matches_at(tokens, ti + 1, subject, subject.len())
            }
        },
        PathPatternToken::TerminateString => {
            if pi == subject.len() {
                matches_at(tokens, ti + 1, subject, pi)
            } else {
                false
            }
        },
    }
}

} // verus!
