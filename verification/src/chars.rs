//! Character-level text helpers shared by the parser and the matcher.
//!
//! The parser works on `Vec<char>` values so that every scan is an ordinary
//! indexed loop; these helpers convert between `&str` and `Vec<char>` and
//! provide the searching, trimming and splitting routines the scanners need,
//! each against a recursive specification of the same operation.

use vstd::prelude::*;
use crate::is_space_char;

verus! {

/// Copy the characters of a string slice into a vector.
pub fn str_to_chars(s: &str) -> (r: Vec<char>)
    ensures
        r@ == s@,
{
    let n = s.unicode_len();
    let mut r: Vec<char> = Vec::new();
    let mut i: usize = 0;
    while i < n
        invariant
            n == s@.len(),
            i <= n,
            r@ == s@.subrange(0, i as int),
        decreases n - i,
    {
        r.push(s.get_char(i));
        i = i + 1;
        assert(r@ =~= s@.subrange(0, i as int));
    }
    assert(r@ =~= s@);
    r
}

/// Relies on `String::push` of std: appends one character to the string.
pub assume_specification[ String::push ](s: &mut String, c: char)
    ensures
        final(s)@ == old(s)@.push(c),
;

/// Build a string out of a vector of characters.
pub fn chars_to_string(v: &Vec<char>) -> (r: String)
    ensures
        r@ == v@,
{
    let mut r = String::new();
    let mut i: usize = 0;
    while i < v.len()
        invariant
            i <= v@.len(),
            r@ == v@.subrange(0, i as int),
        decreases v@.len() - i,
    {
        r.push(v[i]);
        i = i + 1;
        assert(r@ =~= v@.subrange(0, i as int));
    }
    assert(r@ =~= v@);
    r
}

/// Copy the character range `[lo, hi)` out of a vector.
pub fn copy_range(v: &Vec<char>, lo: usize, hi: usize) -> (r: Vec<char>)
    requires
        lo <= hi <= v@.len(),
    ensures
        r@ == v@.subrange(lo as int, hi as int),
{
    let mut r: Vec<char> = Vec::new();
    let mut i: usize = lo;
    while i < hi
        invariant
            lo <= i <= hi <= v@.len(),
            r@ == v@.subrange(lo as int, i as int),
        decreases hi - i,
    {
        r.push(v[i]);
        i = i + 1;
        assert(r@ =~= v@.subrange(lo as int, i as int));
    }
    r
}

/// Whether a character counts as whitespace when a directive line is trimmed.
pub fn is_space(c: char) -> (r: bool)
    ensures
        r == is_space_char(c),
{
    let u = c as u32;
    c == ' ' || c == '\t' || c == '\n' || c == '\r' || c == '\x0b' || c == '\x0c' || c == '\u{85}'
        || c == '\u{a0}' || c == '\u{1680}' || (('\u{2000}' as u32) <= u && u <= ('\u{200a}'
        as u32)) || c == '\u{2028}' || c == '\u{2029}' || c == '\u{202f}' || c == '\u{205f}' || c
        == '\u{3000}'
}

/// Index of the first occurrence of `c` in `s`, if any.
pub open spec fn first_index_of(s: Seq<char>, c: char) -> Option<int>
    decreases s.len(),
{
    if s.len() == 0 {
        None
    } else if s[0] == c {
        Some(0int)
    } else {
        match first_index_of(s.skip(1), c) {
            Some(i) => Some(i + 1),
            None => None,
        }
    }
}

/// Skipping `a` then `b` elements is skipping `a + b` elements.
pub proof fn lemma_skip_skip<A>(s: Seq<A>, a: int, b: int)
    requires
        0 <= a,
        0 <= b,
        a + b <= s.len(),
    ensures
        s.skip(a).skip(b) == s.skip(a + b),
{
    assert(s.skip(a).skip(b) =~= s.skip(a + b));
}

pub proof fn lemma_first_index_of(s: Seq<char>, c: char)
    ensures
        match first_index_of(s, c) {
            Some(i) => 0 <= i < s.len() && s[i] == c && (forall|j: int| 0 <= j < i ==> s[j] != c),
            None => forall|j: int| 0 <= j < s.len() ==> s[j] != c,
        },
    decreases s.len(),
{
    if s.len() != 0 && s[0] != c {
        lemma_first_index_of(s.skip(1), c);
        assert forall|j: int| 1 <= j < s.len() implies s[j] == s.skip(1)[j - 1] by {}
    }
}

/// Find the first occurrence of `c` in `v` at or after position `from`.
pub fn find_char_from(v: &Vec<char>, from: usize, c: char) -> (r: Option<usize>)
    requires
        from <= v@.len(),
    ensures
        match r {
            Some(i) => from <= i < v@.len() && first_index_of(v@.skip(from as int), c) == Some(
                i - from,
            ),
            None => first_index_of(v@.skip(from as int), c) is None,
        },
{
    proof {
        lemma_first_index_of(v@.skip(from as int), c);
        assert forall|j: int| 0 <= j < v@.skip(from as int).len() implies #[trigger] v@.skip(
            from as int,
        )[j] == v@[j + from] by {}
    }
    let mut i: usize = from;
    while i < v.len()
        invariant
            from <= i <= v@.len(),
            forall|j: int| from <= j < i ==> v@[j] != c,
        decreases v@.len() - i,
    {
        if v[i] == c {
            proof {
                let s = v@.skip(from as int);
                lemma_first_index_of(s, c);
                assert(s[i - from] == c);
                assert forall|j: int| 0 <= j < i - from implies s[j] != c by {
                    assert(s[j] == v@[j + from]);
                }
            }
            return Some(i);
        }
        i = i + 1;
    }
    None
}

/// `s` with its leading whitespace removed.
pub open spec fn trim_left_spec(s: Seq<char>) -> Seq<char>
    decreases s.len(),
{
    if s.len() > 0 && is_space_char(s[0]) {
        trim_left_spec(s.skip(1))
    } else {
        s
    }
}

/// `s` with its trailing whitespace removed.
pub open spec fn trim_right_spec(s: Seq<char>) -> Seq<char>
    decreases s.len(),
{
    if s.len() > 0 && is_space_char(s.last()) {
        trim_right_spec(s.drop_last())
    } else {
        s
    }
}

/// `s` with leading and trailing whitespace removed.
pub open spec fn trim_spec(s: Seq<char>) -> Seq<char> {
    trim_right_spec(trim_left_spec(s))
}

/// Trim whitespace from both ends of a character vector.
pub fn trim_vec(v: &Vec<char>) -> (r: Vec<char>)
    ensures
        r@ == trim_spec(v@),
{
    assert(v@.skip(0) =~= v@);
    let mut a: usize = 0;
    while a < v.len() && is_space(v[a])
        invariant
            a <= v@.len(),
            trim_left_spec(v@) == trim_left_spec(v@.skip(a as int)),
        decreases v@.len() - a,
    {
        proof {
            assert(v@.skip(a as int).skip(1) =~= v@.skip(a as int + 1));
        }
        a = a + 1;
    }
    assert(trim_left_spec(v@) == v@.subrange(a as int, v@.len() as int)) by {
        assert(v@.skip(a as int) =~= v@.subrange(a as int, v@.len() as int));
    }
    let mut b: usize = v.len();
    while b > a && is_space(v[b - 1])
        invariant
            a <= b <= v@.len(),
            trim_right_spec(v@.subrange(a as int, v@.len() as int)) == trim_right_spec(
                v@.subrange(a as int, b as int),
            ),
        decreases b,
    {
        proof {
            assert(v@.subrange(a as int, b as int).drop_last() =~= v@.subrange(
                a as int,
                b as int - 1,
            ));
        }
        b = b - 1;
    }
    copy_range(v, a, b)
}

/// Position of the first place in `s` where `t` occurs as a prefix of the
/// remaining text, if any.
pub open spec fn first_prefix_pos(s: Seq<char>, t: Seq<char>) -> Option<int>
    decreases s.len(),
{
    if t.is_prefix_of(s) {
        Some(0int)
    } else if s.len() == 0 {
        None
    } else {
        match first_prefix_pos(s.skip(1), t) {
            Some(k) => Some(k + 1),
            None => None,
        }
    }
}

pub proof fn lemma_first_prefix_pos(s: Seq<char>, t: Seq<char>)
    ensures
        match first_prefix_pos(s, t) {
            Some(k) => 0 <= k <= s.len() && t.is_prefix_of(s.skip(k)) && (forall|j: int|
                0 <= j < k ==> !t.is_prefix_of(s.skip(j))),
            None => forall|j: int| 0 <= j <= s.len() ==> !t.is_prefix_of(s.skip(j)),
        },
    decreases s.len(),
{
    assert(s.skip(0) =~= s);
    if !t.is_prefix_of(s) && s.len() != 0 {
        lemma_first_prefix_pos(s.skip(1), t);
        assert forall|j: int| 1 <= j <= s.len() implies s.skip(1).skip(j - 1) == #[trigger] s.skip(
            j,
        ) by {
            lemma_skip_skip(s, 1, j - 1);
        }
    }
}

/// Check whether `t` occurs as a prefix of `v` starting at position `from`.
pub fn prefix_at(v: &Vec<char>, from: usize, t: &Vec<char>) -> (r: bool)
    requires
        from <= v@.len(),
    ensures
        r == t@.is_prefix_of(v@.skip(from as int)),
{
    let n = v.len();
    if t.len() > n - from {
        return false;
    }
    let mut j: usize = 0;
    while j < t.len()
        invariant
            n == v@.len(),
            from <= n,
            t@.len() <= n - from,
            j <= t@.len(),
            forall|k: int| 0 <= k < j ==> t@[k] == v@[from + k],
        decreases t@.len() - j,
    {
        if t[j] != v[from + j] {
            assert(!t@.is_prefix_of(v@.skip(from as int))) by {
                assert(v@.skip(from as int)[j as int] == v@[from + j]);
            }
            return false;
        }
        j = j + 1;
    }
    assert(t@.is_prefix_of(v@.skip(from as int))) by {
        assert forall|k: int| 0 <= k < t@.len() implies v@.skip(from as int)[k] == v@[from + k] by {}
        assert(t@ =~= v@.skip(from as int).subrange(0, t@.len() as int));
    }
    true
}

/// Find the first position at or after `from` where `t` occurs in `v`.
pub fn find_prefix_from(v: &Vec<char>, from: usize, t: &Vec<char>) -> (r: Option<usize>)
    requires
        from <= v@.len(),
    ensures
        match r {
            Some(k) => from <= k <= v@.len() && first_prefix_pos(v@.skip(from as int), t@) == Some(
                k - from,
            ),
            None => first_prefix_pos(v@.skip(from as int), t@) is None,
        },
{
    let mut k: usize = from;
    while k < v.len()
        invariant
            from <= k <= v@.len(),
            forall|j: int| from <= j < k ==> !t@.is_prefix_of(v@.skip(j)),
        decreases v@.len() - k,
    {
        if prefix_at(v, k, t) {
            proof {
                let s = v@.skip(from as int);
                lemma_first_prefix_pos(s, t@);
                lemma_skip_skip(v@, from as int, k - from);
                assert(t@.is_prefix_of(s.skip(k - from)));
                assert forall|j: int| 0 <= j < k - from implies !t@.is_prefix_of(
                    #[trigger] s.skip(j),
                ) by {
                    lemma_skip_skip(v@, from as int, j);
                }
            }
            return Some(k);
        }
        k = k + 1;
    }
    let found = prefix_at(v, k, t);
    proof {
        let s = v@.skip(from as int);
        lemma_first_prefix_pos(s, t@);
        lemma_skip_skip(v@, from as int, k - from);
        assert forall|j: int| 0 <= j < k - from implies !t@.is_prefix_of(
            #[trigger] s.skip(j),
        ) by {
            lemma_skip_skip(v@, from as int, j);
        }
    }
    if found {
        return Some(k);
    }
    None
}

/// Whether `needle` occurs anywhere inside `hay` as a contiguous substring.
pub open spec fn has_substring(hay: Seq<char>, needle: Seq<char>) -> bool {
    exists|k: int| 0 <= k <= hay.len() && needle.is_prefix_of(hay.skip(k))
}

/// Substring search.
pub fn contains_substring(hay: &Vec<char>, needle: &Vec<char>) -> (r: bool)
    ensures
        r == has_substring(hay@, needle@),
{
    proof {
        lemma_first_prefix_pos(hay@, needle@);
        assert(hay@.skip(0) =~= hay@);
    }
    match find_prefix_from(hay, 0, needle) {
        Some(_) => true,
        None => false,
    }
}

/// Compare two character vectors.
pub fn chars_eq_vec(a: &Vec<char>, b: &Vec<char>) -> (r: bool)
    ensures
        r == (a@ == b@),
{
    if a.len() != b.len() {
        return false;
    }
    let mut i: usize = 0;
    while i < a.len()
        invariant
            a@.len() == b@.len(),
            i <= a@.len(),
            forall|j: int| 0 <= j < i ==> a@[j] == b@[j],
        decreases a@.len() - i,
    {
        if a[i] != b[i] {
            return false;
        }
        i = i + 1;
    }
    assert(a@ =~= b@);
    true
}

/// Compare two string slices.
pub fn str_eq_str(a: &str, b: &str) -> (r: bool)
    ensures
        r == (a@ == b@),
{
    let n = a.unicode_len();
    if b.unicode_len() != n {
        return false;
    }
    let mut i: usize = 0;
    while i < n
        invariant
            n == a@.len() == b@.len(),
            i <= n,
            forall|j: int| 0 <= j < i ==> a@[j] == b@[j],
        decreases n - i,
    {
        if a.get_char(i) != b.get_char(i) {
            return false;
        }
        i = i + 1;
    }
    assert(a@ =~= b@);
    true
}

/// Compare a character vector against a string slice.
pub fn chars_eq_str(v: &Vec<char>, s: &str) -> (r: bool)
    ensures
        r == (v@ == s@),
{
    let n = s.unicode_len();
    if v.len() != n {
        return false;
    }
    let mut i: usize = 0;
    while i < n
        invariant
            n == s@.len() == v@.len(),
            i <= n,
            forall|j: int| 0 <= j < i ==> v@[j] == s@[j],
        decreases n - i,
    {
        if v[i] != s.get_char(i) {
            return false;
        }
        i = i + 1;
    }
    assert(v@ =~= s@);
    true
}

/// The views of a sequence of character vectors.
pub open spec fn views_of(s: Seq<Vec<char>>) -> Seq<Seq<char>> {
    s.map_values(|x: Vec<char>| x@)
}

/// Split `s` at every occurrence of `c`, keeping empty pieces.
pub open spec fn split_on_char(s: Seq<char>, c: char) -> Seq<Seq<char>>
    decreases s.len(),
    via split_on_char_decreases
{
    match first_index_of(s, c) {
        None => seq![s],
        Some(i) => seq![s.take(i)] + split_on_char(s.skip(i + 1), c),
    }
}

#[via_fn]
proof fn split_on_char_decreases(s: Seq<char>, c: char) {
    lemma_first_index_of(s, c);
}

/// Split the suffix of `v` that starts at `from` at every occurrence of `c`.
pub fn split_char_from(v: &Vec<char>, from: usize, c: char) -> (r: Vec<Vec<char>>)
    requires
        from <= v@.len(),
    ensures
        views_of(r@) == split_on_char(v@.skip(from as int), c),
    decreases v@.len() - from,
{
    proof {
        lemma_first_index_of(v@.skip(from as int), c);
    }
    match find_char_from(v, from, c) {
        None => {
            let piece = copy_range(v, from, v.len());
            let r: Vec<Vec<char>> = vec![piece];
            assert(v@.subrange(from as int, v@.len() as int) =~= v@.skip(from as int));
            assert(views_of(r@) =~= split_on_char(v@.skip(from as int), c));
            r
        },
        Some(i) => {
            let n = v.len();
            assert(i < n);
            let piece = copy_range(v, from, i);
            let mut rest = split_char_from(v, i + 1, c);
            let mut r: Vec<Vec<char>> = vec![piece];
            r.append(&mut rest);
            proof {
                assert(v@.subrange(from as int, i as int) =~= v@.skip(from as int).take(
                    i - from,
                ));
                assert(v@.skip(i as int + 1) =~= v@.skip(from as int).skip(i - from + 1));
                assert(views_of(r@) =~= split_on_char(v@.skip(from as int), c));
            }
            r
        },
    }
}

} // verus!
