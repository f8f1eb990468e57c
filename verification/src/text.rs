//! Character and string helpers shared by the whole crate: ASCII
//! lower-casing, whitespace trimming, digit classification, and
//! case-insensitive substring search.
//!
//! Case handling is ASCII-only: `'A'..'Z'` fold to `'a'..'z'` and every
//! other character is left as it is. Trimming removes the ASCII whitespace
//! characters space, tab, carriage return and line feed.

use vstd::prelude::*;

verus! {

/// The whitespace characters this crate trims.
pub open spec fn is_space_char(c: char) -> bool {
    c == ' ' || c == '\t' || c == '\n' || c == '\r'
}

/// ASCII decimal digit `'0'..'9'`.
pub open spec fn is_digit_char(c: char) -> bool {
    48 <= c as u32 && c as u32 <= 57
}

/// Numeric value of an ASCII digit.
pub open spec fn digit_val(c: char) -> nat {
    (c as u32 - 48) as nat
}

/// The ASCII digit character for a value below ten.
pub open spec fn digit_char(d: nat) -> char {
    ((48 + d) as u8) as char
}

/// ASCII-only lower-casing of one character.
pub open spec fn lower_char(c: char) -> char {
    if 65 <= c as u32 && c as u32 <= 90 {
        ((c as u32 + 32) as u8) as char
    } else {
        c
    }
}

/// ASCII-only lower-casing of a character sequence.
pub open spec fn lower_seq(s: Seq<char>) -> Seq<char> {
    Seq::new(s.len(), |i: int| lower_char(s[i]))
}

pub open spec fn trim_front(s: Seq<char>) -> Seq<char>
    decreases s.len(),
{
    if s.len() > 0 && is_space_char(s[0]) {
        trim_front(s.drop_first())
    } else {
        s
    }
}

pub open spec fn trim_back(s: Seq<char>) -> Seq<char>
    decreases s.len(),
{
    if s.len() > 0 && is_space_char(s[s.len() - 1]) {
        trim_back(s.drop_last())
    } else {
        s
    }
}

/// What trimming leading and trailing whitespace leaves of `s`.
pub open spec fn trim_seq(s: Seq<char>) -> Seq<char> {
    trim_back(trim_front(s))
}

/// Trimmed and lower-cased form of `s`: the shape in which duration
/// strings and key tokens are interpreted.
pub open spec fn normalize(s: Seq<char>) -> Seq<char> {
    lower_seq(trim_seq(s))
}

/// A sequence is blank when every character is whitespace; `str::trim`
/// leaves the empty string exactly then.
pub open spec fn is_blank(s: Seq<char>) -> bool {
    forall|k: int| 0 <= k < s.len() ==> is_space_char(s[k])
}

pub proof fn lemma_trim_front_at(s: Seq<char>, i: int)
    requires
        0 <= i <= s.len(),
        forall|k: int| 0 <= k < i ==> is_space_char(s[k]),
        i == s.len() || !is_space_char(s[i]),
    ensures
        trim_front(s) =~= s.subrange(i, s.len() as int),
    decreases i,
{
    if i == 0 {
        if s.len() > 0 && is_space_char(s[0]) {
            assert(false);
        }
        assert(trim_front(s) =~= s.subrange(0, s.len() as int));
    } else {
        assert(is_space_char(s[0]));
        let t = s.drop_first();
        assert(forall|k: int| 0 <= k < i - 1 ==> is_space_char(t[k]));
        lemma_trim_front_at(t, i - 1);
        assert(t.subrange(i - 1, t.len() as int) =~= s.subrange(i, s.len() as int));
    }
}

pub proof fn lemma_trim_back_at(s: Seq<char>, j: int)
    requires
        0 <= j <= s.len(),
        forall|k: int| j <= k < s.len() ==> is_space_char(s[k]),
        j == 0 || !is_space_char(s[j - 1]),
    ensures
        trim_back(s) =~= s.subrange(0, j),
    decreases s.len() - j,
{
    if j == s.len() {
        if s.len() > 0 && is_space_char(s[s.len() - 1]) {
            assert(false);
        }
        assert(trim_back(s) =~= s.subrange(0, j));
    } else {
        assert(is_space_char(s[s.len() - 1]));
        let t = s.drop_last();
        assert(forall|k: int| j <= k < t.len() ==> is_space_char(t[k]));
        lemma_trim_back_at(t, j);
        assert(t.subrange(0, j) =~= s.subrange(0, j));
    }
}

pub fn is_space_char_exec(c: char) -> (r: bool)
    ensures
        r == is_space_char(c),
{
    c == ' ' || c == '\t' || c == '\n' || c == '\r'
}

pub fn is_digit_char_exec(c: char) -> (r: bool)
    ensures
        r == is_digit_char(c),
{
    let u = c as u32;
    48 <= u && u <= 57
}

pub fn lower_char_exec(c: char) -> (r: char)
    ensures
        r == lower_char(c),
{
    let u = c as u32;
    if 65 <= u && u <= 90 {
        ((u + 32) as u8) as char
    } else {
        c
    }
}

/// The characters of a string slice, as a vector.
pub fn str_chars(s: &str) -> (r: Vec<char>)
    ensures
        r@ == s@,
{
    let n = s.unicode_len();
    let mut out: Vec<char> = Vec::new();
    let mut i: usize = 0;
    while i < n
        invariant
            n == s@.len(),
            i <= n,
            out@ =~= s@.subrange(0, i as int),
        decreases n - i,
    {
        out.push(s.get_char(i));
        proof {
            assert(out@ =~= s@.subrange(0, i + 1 as int));
        }
        i = i + 1;
    }
    proof {
        assert(out@ =~= s@);
    }
    out
}

/// Lower-cases every character of a string slice, without trimming.
pub fn lower_chars(s: &str) -> (r: Vec<char>)
    ensures
        r@ == lower_seq(s@),
{
    let n = s.unicode_len();
    let mut out: Vec<char> = Vec::new();
    let mut i: usize = 0;
    while i < n
        invariant
            n == s@.len(),
            i <= n,
            out@ =~= lower_seq(s@.subrange(0, i as int)),
        decreases n - i,
    {
        out.push(lower_char_exec(s.get_char(i)));
        proof {
            assert(out@ =~= lower_seq(s@.subrange(0, i + 1 as int)));
        }
        i = i + 1;
    }
    proof {
        assert(out@ =~= lower_seq(s@));
    }
    out
}

/// Trims surrounding whitespace and lower-cases the rest of a character
/// vector.
pub fn normalize_vec(v: &Vec<char>) -> (r: Vec<char>)
    ensures
        r@ == normalize(v@),
{
    let n = v.len();
    let mut start: usize = 0;
    while start < n && is_space_char_exec(v[start])
        invariant
            n == v@.len(),
            start <= n,
            forall|k: int| 0 <= k < start ==> is_space_char(v@[k]),
        decreases n - start,
    {
        start = start + 1;
    }
    let mut end: usize = n;
    while end > start && is_space_char_exec(v[end - 1])
        invariant
            n == v@.len(),
            start <= end <= n,
            forall|k: int| end <= k < n ==> is_space_char(v@[k]),
        decreases end,
    {
        end = end - 1;
    }
    proof {
        lemma_trim_front_at(v@, start as int);
        let t = v@.subrange(start as int, n as int);
        assert(forall|k: int| end - start <= k < t.len() ==> is_space_char(t[k]));
        lemma_trim_back_at(t, end - start);
        assert(trim_seq(v@) =~= v@.subrange(start as int, end as int));
    }
    let mut out: Vec<char> = Vec::new();
    let mut i: usize = start;
    while i < end
        invariant
            n == v@.len(),
            start <= i <= end <= n,
            out@ =~= lower_seq(v@.subrange(start as int, i as int)),
        decreases end - i,
    {
        out.push(lower_char_exec(v[i]));
        proof {
            assert(out@ =~= lower_seq(v@.subrange(start as int, i + 1 as int)));
        }
        i = i + 1;
    }
    proof {
        assert(out@ =~= normalize(v@));
    }
    out
}

/// Trims surrounding whitespace and lower-cases the rest, as a vector of
/// characters.
pub fn normalize_chars(s: &str) -> (r: Vec<char>)
    ensures
        r@ == normalize(s@),
{
    let v = str_chars(s);
    normalize_vec(&v)
}

/// Whether the string contains the character `c`.
pub fn str_contains_char(s: &str, c: char) -> (r: bool)
    ensures
        r == s@.contains(c),
{
    let n = s.unicode_len();
    let mut i: usize = 0;
    while i < n
        invariant
            n == s@.len(),
            i <= n,
            forall|k: int| 0 <= k < i ==> s@[k] != c,
        decreases n - i,
    {
        if s.get_char(i) == c {
            return true;
        }
        i = i + 1;
    }
    proof {
        assert(forall|k: int| 0 <= k < s@.len() ==> s@[k] != c);
    }
    false
}

/// Character-wise equality of a vector against a string slice.
pub fn chars_eq_str(v: &Vec<char>, s: &str) -> (r: bool)
    ensures
        r == (v@ == s@),
{
    let n = s.unicode_len();
    if v.len() != n {
        proof {
            assert(v@.len() != s@.len());
        }
        return false;
    }
    let mut i: usize = 0;
    while i < n
        invariant
            n == s@.len(),
            v@.len() == n,
            i <= n,
            forall|k: int| 0 <= k < i ==> v@[k] == s@[k],
        decreases n - i,
    {
        if v[i] != s.get_char(i) {
            return false;
        }
        i = i + 1;
    }
    proof {
        assert(v@ =~= s@);
    }
    true
}

/// Whether `s` consists of whitespace alone (so that trimming it leaves
/// nothing).
pub fn is_blank_str(s: &str) -> (r: bool)
    ensures
        r == is_blank(s@),
{
    let n = s.unicode_len();
    let mut i: usize = 0;
    while i < n
        invariant
            n == s@.len(),
            i <= n,
            forall|k: int| 0 <= k < i ==> is_space_char(s@[k]),
        decreases n - i,
    {
        if !is_space_char_exec(s.get_char(i)) {
            return false;
        }
        i = i + 1;
    }
    true
}

/// `needle` occurs in `hay` at position `i`, compared ASCII
/// case-insensitively.
pub open spec fn matches_at(hay: Seq<char>, needle: Seq<char>, i: int) -> bool {
    &&& 0 <= i
    &&& i + needle.len() <= hay.len()
    &&& forall|j: int| 0 <= j < needle.len() ==> lower_char(hay[i + j]) == lower_char(needle[j])
}

/// ASCII case-insensitive substring containment.
pub open spec fn contains_ci(hay: Seq<char>, needle: Seq<char>) -> bool {
    exists|i: int| matches_at(hay, needle, i)
}

fn matches_at_exec(hay: &str, needle: &str, i: usize) -> (r: bool)
    requires
        i + needle@.len() <= hay@.len(),
        hay@.len() <= usize::MAX,
    ensures
        r == matches_at(hay@, needle@, i as int),
{
    let m = needle.unicode_len();
    let mut j: usize = 0;
    while j < m
        invariant
            m == needle@.len(),
            i + m <= hay@.len() <= usize::MAX,
            j <= m,
            forall|k: int| 0 <= k < j ==> lower_char(hay@[i + k]) == lower_char(needle@[k]),
        decreases m - j,
    {
        if lower_char_exec(hay.get_char(i + j)) != lower_char_exec(needle.get_char(j)) {
            return false;
        }
        j = j + 1;
    }
    true
}

/// The parts of `s` between occurrences of `sep`, in order. As with
/// `str::split`, an empty input yields one empty part, and separators at
/// the edges or next to each other yield empty parts.
pub open spec fn split_at_sep(s: Seq<char>, sep: char) -> Seq<Seq<char>>
    decreases s.len(),
{
    if s.len() == 0 {
        seq![Seq::<char>::empty()]
    } else if s[0] == sep {
        seq![Seq::<char>::empty()] + split_at_sep(s.drop_first(), sep)
    } else {
        let rest = split_at_sep(s.drop_first(), sep);
        seq![seq![s[0]] + rest[0]] + rest.drop_first()
    }
}

/// A separator-free sequence is one single part.
pub proof fn lemma_split_whole(s: Seq<char>, sep: char)
    requires
        forall|k: int| 0 <= k < s.len() ==> s[k] != sep,
    ensures
        split_at_sep(s, sep) == seq![s],
    decreases s.len(),
{
    if s.len() == 0 {
        assert(split_at_sep(s, sep) =~~= seq![s]);
    } else {
        lemma_split_whole(s.drop_first(), sep);
        let rest = split_at_sep(s.drop_first(), sep);
        assert(seq![s[0]] + rest[0] =~= s);
        assert(split_at_sep(s, sep) =~~= seq![s]);
    }
}

/// Splitting at the first separator: a separator-free prefix becomes one
/// part, and the remainder splits on its own.
pub proof fn lemma_split_joint(a: Seq<char>, b: Seq<char>, sep: char)
    requires
        forall|k: int| 0 <= k < a.len() ==> a[k] != sep,
    ensures
        split_at_sep(a + seq![sep] + b, sep) == seq![a] + split_at_sep(b, sep),
    decreases a.len(),
{
    let s = a + seq![sep] + b;
    if a.len() == 0 {
        assert(s[0] == sep);
        assert(s.drop_first() =~= b);
        assert(split_at_sep(s, sep) =~~= seq![a] + split_at_sep(b, sep));
    } else {
        assert(s[0] == a[0]);
        assert(s[0] != sep);
        assert(s.drop_first() =~= a.drop_first() + seq![sep] + b);
        lemma_split_joint(a.drop_first(), b, sep);
        let rest = split_at_sep(s.drop_first(), sep);
        assert(rest == seq![a.drop_first()] + split_at_sep(b, sep));
        assert(rest[0] == a.drop_first());
        assert(seq![s[0]] + rest[0] =~= a);
        assert(rest.drop_first() =~= split_at_sep(b, sep));
        assert(split_at_sep(s, sep) =~~= seq![a] + split_at_sep(b, sep));
    }
}

/// Splits a character vector at a separator character.
pub fn split_vec(v: &Vec<char>, sep: char) -> (r: Vec<Vec<char>>)
    ensures
        r.deep_view() == split_at_sep(v@, sep),
{
    let n = v.len();
    let mut parts: Vec<Vec<char>> = Vec::new();
    let mut start: usize = 0;
    let mut i: usize = 0;
    proof {
        assert(v@.subrange(0, n as int) =~= v@);
    }
    while i < n
        invariant
            n == v@.len(),
            start <= i <= n,
            forall|k: int| start <= k < i ==> v@[k] != sep,
            split_at_sep(v@, sep) == parts.deep_view() + split_at_sep(
                v@.subrange(start as int, n as int),
                sep,
            ),
        decreases n - i,
    {
        if v[i] == sep {
            let mut part: Vec<char> = Vec::new();
            let mut j: usize = start;
            while j < i
                invariant
                    n == v@.len(),
                    start <= j <= i <= n,
                    part@ =~= v@.subrange(start as int, j as int),
                decreases i - j,
            {
                part.push(v[j]);
                proof {
                    assert(part@ =~= v@.subrange(start as int, j + 1 as int));
                }
                j = j + 1;
            }
            let ghost old_deep = parts.deep_view();
            let ghost a = v@.subrange(start as int, i as int);
            let ghost b = v@.subrange(i + 1 as int, n as int);
            proof {
                assert(v@.subrange(start as int, n as int) =~= a + seq![sep] + b);
                lemma_split_joint(a, b, sep);
            }
            parts.push(part);
            proof {
                assert(part@ == a);
                assert(parts.deep_view() =~~= old_deep + seq![a]);
                assert((old_deep + seq![a]) + split_at_sep(b, sep) =~~= old_deep + (seq![a]
                    + split_at_sep(b, sep)));
                assert(split_at_sep(v@, sep) == parts.deep_view() + split_at_sep(b, sep));
            }
            start = i + 1;
        }
        i = i + 1;
    }
    let mut last: Vec<char> = Vec::new();
    let mut j: usize = start;
    while j < n
        invariant
            n == v@.len(),
            start <= j <= n,
            last@ =~= v@.subrange(start as int, j as int),
        decreases n - j,
    {
        last.push(v[j]);
        proof {
            assert(last@ =~= v@.subrange(start as int, j + 1 as int));
        }
        j = j + 1;
    }
    let ghost old_deep = parts.deep_view();
    proof {
        lemma_split_whole(v@.subrange(start as int, n as int), sep);
    }
    parts.push(last);
    proof {
        assert(parts.deep_view() =~~= old_deep + seq![last@]);
        assert(parts.deep_view() =~~= split_at_sep(v@, sep));
    }
    parts
}

/// ASCII case-insensitive substring search, the match discipline used on
/// process names.
pub fn contains_ci_exec(hay: &str, needle: &str) -> (r: bool)
    ensures
        r == contains_ci(hay@, needle@),
{
    let n = hay.unicode_len();
    let m = needle.unicode_len();
    if m > n {
        proof {
            assert(forall|i: int| !matches_at(hay@, needle@, i));
        }
        return false;
    }
    let mut i: usize = 0;
    while i <= n - m
        invariant
            n == hay@.len(),
            m == needle@.len(),
            m <= n,
            i <= n - m + 1,
            forall|k: int| 0 <= k < i ==> !matches_at(hay@, needle@, k),
        decreases n + 1 - m - i,
    {
        if matches_at_exec(hay, needle, i) {
            return true;
        }
        i = i + 1;
    }
    proof {
        assert(forall|k: int| k >= i ==> !matches_at(hay@, needle@, k));
    }
    false
}

} // verus!
