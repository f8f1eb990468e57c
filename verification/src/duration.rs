//! Durations and their textual form.
//!
//! A duration is a number of milliseconds. The textual form is a decimal
//! number with an optional unit suffix: `ms` (milliseconds), `s` (seconds)
//! or `m` (minutes); a bare number means milliseconds. Parsing trims
//! surrounding whitespace and is case-insensitive. The compact display form
//! picks the largest unit that divides the value evenly: whole minutes as
//! `Nm`, else whole seconds as `Ns`, else `Nms`.

use vstd::prelude::*;
use vstd::string::StrSliceExecFns;
use vstd::string::StringExecFns;
use crate::text::{
    digit_char, digit_val, is_digit_char, is_space_char, lower_char, normalize, normalize_chars,
};

verus! {

/// A span of time held as whole milliseconds.
///
/// The value is bounded by `u64`; durations beyond that (about 584 million
/// years) are rejected by the parser as overflow.
#[derive(Debug, Clone, Copy, PartialEq, Eq, Structural)]
pub struct DurationMs {
    pub millis: u64,
}

impl DurationMs {
    pub fn from_millis(ms: u64) -> (r: DurationMs)
        ensures
            r.millis == ms,
    {
        DurationMs { millis: ms }
    }

    pub fn from_secs(secs: u64) -> (r: DurationMs)
        requires
            secs * 1000 <= u64::MAX,
        ensures
            r.millis == secs * 1000,
    {
        DurationMs { millis: secs * 1000 }
    }

    pub fn as_millis(&self) -> (r: u64)
        ensures
            r == self.millis,
    {
        self.millis
    }
}

/// Why a duration string was rejected.
#[derive(Debug, Clone, Copy, PartialEq, Eq, Structural)]
pub enum DurationError {
    /// The string is not a decimal number with an optional `ms`/`s`/`m`
    /// suffix.
    Invalid,
    /// The string is well-formed but the value exceeds `u64` milliseconds.
    Overflow,
}

/// Every character is an ASCII digit.
pub open spec fn all_digits(s: Seq<char>) -> bool {
    forall|k: int| 0 <= k < s.len() ==> is_digit_char(s[k])
}

/// The value of a most-significant-first digit string.
pub open spec fn digits_to_nat(s: Seq<char>) -> nat
    decreases s.len(),
{
    if s.len() == 0 {
        0
    } else {
        10 * digits_to_nat(s.drop_last()) + digit_val(s[s.len() - 1])
    }
}

/// The canonical decimal digit string of `n`: no sign, no leading zeros
/// (except for `0` itself).
pub open spec fn dec_digits(n: nat) -> Seq<char>
    decreases n,
{
    if n < 10 {
        seq![digit_char(n)]
    } else {
        dec_digits(n / 10) + seq![digit_char(n % 10)]
    }
}

/// The number part of a normalized duration string: what precedes the
/// `ms`, `s` or `m` suffix, or the whole string when there is none.
/// The two-letter suffix is recognized first, so `5ms` is five
/// milliseconds, not five minutes followed by a stray letter.
pub open spec fn duration_number(t: Seq<char>) -> Seq<char> {
    if t.len() >= 2 && t[t.len() - 2] == 'm' && t[t.len() - 1] == 's' {
        t.take(t.len() - 2)
    } else if t.len() >= 1 && t[t.len() - 1] == 's' {
        t.take(t.len() - 1)
    } else if t.len() >= 1 && t[t.len() - 1] == 'm' {
        t.take(t.len() - 1)
    } else {
        t
    }
}

/// Milliseconds per unit of the suffix of a normalized duration string.
pub open spec fn duration_multiplier(t: Seq<char>) -> nat {
    if t.len() >= 2 && t[t.len() - 2] == 'm' && t[t.len() - 1] == 's' {
        1
    } else if t.len() >= 1 && t[t.len() - 1] == 's' {
        1000
    } else if t.len() >= 1 && t[t.len() - 1] == 'm' {
        60000
    } else {
        1
    }
}

/// The number of milliseconds a duration string denotes, or `None` when it
/// is malformed. The value is unbounded here; the executable parser
/// additionally rejects values above `u64::MAX` milliseconds.
pub open spec fn duration_value(s: Seq<char>) -> Option<nat> {
    let t = normalize(s);
    let num = duration_number(t);
    if num.len() > 0 && all_digits(num) {
        Some(digits_to_nat(num) * duration_multiplier(t))
    } else {
        None
    }
}

/// The compact display form: whole minutes as `Nm`, else whole seconds as
/// `Ns`, else `Nms`.
pub open spec fn duration_display(ms: nat) -> Seq<char> {
    if ms >= 60000 && ms % 60000 == 0 {
        dec_digits(ms / 60000) + seq!['m']
    } else if ms >= 1000 && ms % 1000 == 0 {
        dec_digits(ms / 1000) + seq!['s']
    } else {
        dec_digits(ms) + seq!['m', 's']
    }
}

proof fn lemma_digits_take_step(s: Seq<char>, i: int)
    requires
        0 <= i < s.len(),
    ensures
        digits_to_nat(s.take(i + 1)) == 10 * digits_to_nat(s.take(i)) + digit_val(s[i]),
{
    let t = s.take(i + 1);
    assert(t.drop_last() =~= s.take(i));
    assert(t[t.len() - 1] == s[i]);
}

proof fn lemma_digits_take_monotone(s: Seq<char>, i: int)
    requires
        0 <= i <= s.len(),
    ensures
        digits_to_nat(s) >= digits_to_nat(s.take(i)),
    decreases s.len() - i,
{
    if i == s.len() {
        assert(s.take(i) =~= s);
    } else {
        lemma_digits_take_step(s, i);
        lemma_digits_take_monotone(s, i + 1);
    }
}

/// A digit string denotes its own value: reading back the canonical
/// decimal form of `n` yields `n`.
pub proof fn lemma_dec_digits_value(n: nat)
    ensures
        digits_to_nat(dec_digits(n)) == n,
    decreases n,
{
    if n < 10 {
        let s = dec_digits(n);
        assert(s =~= seq![digit_char(n)]);
        assert(s.drop_last() =~= Seq::<char>::empty());
        assert(digits_to_nat(s) == 10 * digits_to_nat(s.drop_last()) + digit_val(s[s.len() - 1]));
        assert(digit_val(digit_char(n)) == n);
    } else {
        lemma_dec_digits_value(n / 10);
        let s = dec_digits(n);
        assert(s.len() == dec_digits(n / 10).len() + 1);
        assert(s.drop_last() =~= dec_digits(n / 10));
        assert(s[s.len() - 1] == digit_char(n % 10));
        assert(digit_val(digit_char(n % 10)) == n % 10);
        assert(10 * (n / 10) + n % 10 == n) by {
            vstd::arithmetic::div_mod::lemma_fundamental_div_mod(n as int, 10);
        }
    }
}

/// Canonical decimal strings consist of digits.
pub proof fn lemma_dec_digits_shape(n: nat)
    ensures
        dec_digits(n).len() >= 1,
        all_digits(dec_digits(n)),
    decreases n,
{
    if n < 10 {
        assert(is_digit_char(digit_char(n)));
    } else {
        lemma_dec_digits_shape(n / 10);
        assert(is_digit_char(digit_char(n % 10)));
        assert forall|k: int| 0 <= k < dec_digits(n).len() implies is_digit_char(
            dec_digits(n)[k],
        ) by {
            if k < dec_digits(n / 10).len() {
                assert(dec_digits(n)[k] == dec_digits(n / 10)[k]);
            }
        }
    }
}

/// A sequence of digits and lower-case letters is already in normalized
/// form: trimming and lower-casing leave it unchanged.
proof fn lemma_normalize_fixed(s: Seq<char>)
    requires
        forall|k: int| 0 <= k < s.len() ==> !is_space_char(s[k]),
        forall|k: int| 0 <= k < s.len() ==> lower_char(s[k]) == s[k],
    ensures
        normalize(s) == s,
{
    crate::text::lemma_trim_front_at(s, 0);
    assert(s.subrange(0, s.len() as int) =~= s);
    crate::text::lemma_trim_back_at(s, s.len() as int);
    assert(crate::text::trim_seq(s) == s);
    assert(crate::text::lower_seq(s) =~= s);
}

/// Digits are neither whitespace nor upper-case.
proof fn lemma_digit_chars_plain(s: Seq<char>)
    requires
        all_digits(s),
    ensures
        forall|k: int| 0 <= k < s.len() ==> !is_space_char(s[k]),
        forall|k: int| 0 <= k < s.len() ==> lower_char(s[k]) == s[k],
{
    assert forall|k: int| 0 <= k < s.len() implies !is_space_char(s[k]) && lower_char(s[k])
        == s[k] by {
        assert(is_digit_char(s[k]));
    }
}

/// Parses the digit prefix `t[..end]` and scales it by `mult`
/// milliseconds per unit.
fn parse_scaled(t: &Vec<char>, end: usize, mult: u64) -> (r: Result<u64, DurationError>)
    requires
        end <= t@.len(),
        1 <= mult,
    ensures
        ({
            let num = t@.take(end as int);
            match r {
                Ok(v) => num.len() > 0 && all_digits(num) && v == digits_to_nat(num) * mult,
                Err(e) => match e {
                    DurationError::Invalid => num.len() == 0 || !all_digits(num),
                    DurationError::Overflow => num.len() > 0 && all_digits(num) && digits_to_nat(
                        num,
                    ) * mult > u64::MAX,
                },
            }
        }),
{
    let ghost num = t@.take(end as int);
    if end == 0 {
        return Err(DurationError::Invalid);
    }
    let mut i: usize = 0;
    while i < end
        invariant
            end <= t@.len(),
            i <= end,
            num == t@.take(end as int),
            forall|k: int| 0 <= k < i ==> is_digit_char(t@[k]),
        decreases end - i,
    {
        if !crate::text::is_digit_char_exec(t[i]) {
            proof {
                assert(num[i as int] == t@[i as int]);
                assert(!is_digit_char(num[i as int]));
            }
            return Err(DurationError::Invalid);
        }
        i = i + 1;
    }
    proof {
        assert(all_digits(num));
    }
    let mut acc: u64 = 0;
    let mut j: usize = 0;
    while j < end
        invariant
            end <= t@.len(),
            j <= end,
            1 <= mult,
            all_digits(num),
            num == t@.take(end as int),
            acc == digits_to_nat(num.take(j as int)),
        decreases end - j,
    {
        let c = t[j];
        proof {
            assert(num[j as int] == t@[j as int]);
            assert(is_digit_char(num[j as int]));
        }
        let d: u64 = (c as u32 - 48) as u64;
        let scaled = match acc.checked_mul(10) {
            Some(x) => x,
            None => {
                proof {
                    lemma_digits_take_step(num, j as int);
                    lemma_digits_take_monotone(num, j + 1);
                    assert(digits_to_nat(num) * mult >= digits_to_nat(num) * 1) by (
                    nonlinear_arith)
                        requires
                            mult >= 1,
                    ;
                }
                return Err(DurationError::Overflow);
            },
        };
        let next = match scaled.checked_add(d) {
            Some(x) => x,
            None => {
                proof {
                    lemma_digits_take_step(num, j as int);
                    lemma_digits_take_monotone(num, j + 1);
                    assert(digits_to_nat(num) * mult >= digits_to_nat(num) * 1) by (
                    nonlinear_arith)
                        requires
                            mult >= 1,
                    ;
                }
                return Err(DurationError::Overflow);
            },
        };
        proof {
            lemma_digits_take_step(num, j as int);
        }
        acc = next;
        j = j + 1;
    }
    proof {
        assert(num.take(end as int) =~= num);
    }
    match acc.checked_mul(mult) {
        Some(v) => Ok(v),
        None => Err(DurationError::Overflow),
    }
}

/// Parses a duration string such as `1500ms`, `5s`, `2m` or a bare
/// number of milliseconds. Whitespace around the value is ignored and the
/// suffix is case-insensitive. Returns `Invalid` for anything that is not
/// a decimal number with a recognized suffix, and `Overflow` for a
/// well-formed value above `u64::MAX` milliseconds.
pub fn parse_duration(s: &str) -> (r: Result<DurationMs, DurationError>)
    ensures
        ({
            let v = duration_value(s@);
            match r {
                Ok(d) => v == Some(d.millis as nat),
                Err(e) => match e {
                    DurationError::Invalid => v is None,
                    DurationError::Overflow => v matches Some(n) && n > u64::MAX,
                },
            }
        }),
{
    let t = normalize_chars(s);
    let n = t.len();
    let scaled: Result<u64, DurationError> = if n >= 2 && t[n - 2] == 'm' && t[n - 1] == 's' {
        parse_scaled(&t, n - 2, 1)
    } else if n >= 1 && t[n - 1] == 's' {
        parse_scaled(&t, n - 1, 1000)
    } else if n >= 1 && t[n - 1] == 'm' {
        parse_scaled(&t, n - 1, 60000)
    } else {
        parse_scaled(&t, n, 1)
    };
    proof {
        assert(t@ == normalize(s@));
        assert(duration_number(t@) == t@.take(duration_number(t@).len() as int));
    }
    match scaled {
        Ok(v) => Ok(DurationMs { millis: v }),
        Err(e) => Err(e),
    }
}

/// The decimal digit as a one-character string slice.
fn digit_str(d: u64) -> (r: &'static str)
    requires
        d < 10,
    ensures
        r@ == seq![digit_char(d as nat)],
{
    if d == 0 {
        proof {
            reveal_strlit("0");
            assert("0"@ =~= seq![digit_char(0)]);
        }
        "0"
    } else if d == 1 {
        proof {
            reveal_strlit("1");
            assert("1"@ =~= seq![digit_char(1)]);
        }
        "1"
    } else if d == 2 {
        proof {
            reveal_strlit("2");
            assert("2"@ =~= seq![digit_char(2)]);
        }
        "2"
    } else if d == 3 {
        proof {
            reveal_strlit("3");
            assert("3"@ =~= seq![digit_char(3)]);
        }
        "3"
    } else if d == 4 {
        proof {
            reveal_strlit("4");
            assert("4"@ =~= seq![digit_char(4)]);
        }
        "4"
    } else if d == 5 {
        proof {
            reveal_strlit("5");
            assert("5"@ =~= seq![digit_char(5)]);
        }
        "5"
    } else if d == 6 {
        proof {
            reveal_strlit("6");
            assert("6"@ =~= seq![digit_char(6)]);
        }
        "6"
    } else if d == 7 {
        proof {
            reveal_strlit("7");
            assert("7"@ =~= seq![digit_char(7)]);
        }
        "7"
    } else if d == 8 {
        proof {
            reveal_strlit("8");
            assert("8"@ =~= seq![digit_char(8)]);
        }
        "8"
    } else {
        proof {
            reveal_strlit("9");
            assert("9"@ =~= seq![digit_char(9)]);
        }
        "9"
    }
}

/// Writes `n` in decimal, without sign or leading zeros.
pub fn u64_to_string(n: u64) -> (r: String)
    ensures
        r@ == dec_digits(n as nat),
    decreases n,
{
    if n < 10 {
        String::from_str(digit_str(n))
    } else {
        let mut s = u64_to_string(n / 10);
        s.append(digit_str(n % 10));
        proof {
            assert(s@ =~= dec_digits(n as nat));
        }
        s
    }
}

/// Writes a duration in its compact human form: `Nm` for whole minutes,
/// `Ns` for whole seconds, `Nms` otherwise.
pub fn duration_to_string(d: DurationMs) -> (r: String)
    ensures
        r@ == duration_display(d.millis as nat),
{
    let ms = d.millis;
    if ms >= 60000 && ms % 60000 == 0 {
        let mut s = u64_to_string(ms / 60000);
        s.append("m");
        proof {
            reveal_strlit("m");
            assert(s@ =~= duration_display(ms as nat));
        }
        s
    } else if ms >= 1000 && ms % 1000 == 0 {
        let mut s = u64_to_string(ms / 1000);
        s.append("s");
        proof {
            reveal_strlit("s");
            assert(s@ =~= duration_display(ms as nat));
        }
        s
    } else {
        let mut s = u64_to_string(ms);
        s.append("ms");
        proof {
            reveal_strlit("ms");
            assert(s@ =~= duration_display(ms as nat));
        }
        s
    }
}

/// The compact display form always loads back: parsing what
/// `duration_display` wrote yields the written value again. With the
/// three canonical-form lemmas below this makes saved durations stable:
/// load-then-save reproduces the saved text.
pub proof fn lemma_duration_display_parses_back(ms: u64)
    ensures
        duration_value(duration_display(ms as nat)) == Some(ms as nat),
{
    if ms >= 60000 && ms % 60000 == 0 {
        let n = ms / 60000;
        assert(n >= 1);
        assert(n * 60000 == ms) by (nonlinear_arith)
            requires
                n == ms / 60000,
                ms % 60000 == 0,
        ;
        lemma_round_trip_mins(n);
    } else if ms >= 1000 && ms % 1000 == 0 {
        let n = ms / 1000;
        assert(n * 1000 == ms) by (nonlinear_arith)
            requires
                n == ms / 1000,
                ms % 1000 == 0,
        ;
        assert(n % 60 != 0) by (nonlinear_arith)
            requires
                n * 1000 == ms,
                ms % 60000 != 0,
        ;
        lemma_round_trip_secs(n);
    } else {
        lemma_parse_millis_form(ms);
    }
}

/// `Nms` parses to `N` milliseconds, for any `N` in canonical decimal
/// form.
proof fn lemma_parse_millis_form(n: u64)
    ensures
        duration_value(dec_digits(n as nat) + seq!['m', 's']) == Some(n as nat),
{
    let d = dec_digits(n as nat);
    let v = d + seq!['m', 's'];
    lemma_dec_digits_shape(n as nat);
    lemma_dec_digits_value(n as nat);
    assert(forall|k: int| 0 <= k < d.len() ==> !is_space_char(#[trigger] v[k]) && lower_char(
        v[k],
    ) == v[k]) by {
        lemma_digit_chars_plain(d);
    }
    assert(!is_space_char('m') && lower_char('m') == 'm');
    assert(!is_space_char('s') && lower_char('s') == 's');
    lemma_normalize_fixed(v);
    assert(v[v.len() - 2] == 'm' && v[v.len() - 1] == 's');
    assert(duration_number(v) =~= d);
    assert(duration_multiplier(v) == 1);
    assert(digits_to_nat(d) * 1 == n);
}

/// A canonical millisecond string round-trips: `Nms` parses to `N`
/// milliseconds, and — when `N` is not a whole number of seconds — `N`
/// milliseconds displays as `Nms` again.
pub proof fn lemma_round_trip_millis(n: u64)
    requires
        n % 1000 != 0,
    ensures
        duration_value(dec_digits(n as nat) + seq!['m', 's']) == Some(n as nat),
        duration_display(n as nat) == dec_digits(n as nat) + seq!['m', 's'],
{
    lemma_parse_millis_form(n);
    assert(n % 60000 != 0) by {
        if n % 60000 == 0 {
            assert(n % 1000 == 0) by (nonlinear_arith)
                requires
                    n % 60000 == 0,
            ;
        }
    }
}

/// A canonical second string round-trips: `Ns` parses to `N` seconds, and
/// — when `N` is not a whole number of minutes — that value displays as
/// `Ns` again.
pub proof fn lemma_round_trip_secs(n: u64)
    requires
        n % 60 != 0,
        n * 1000 <= u64::MAX,
    ensures
        duration_value(dec_digits(n as nat) + seq!['s']) == Some((n * 1000) as nat),
        duration_display((n * 1000) as nat) == dec_digits(n as nat) + seq!['s'],
{
    let d = dec_digits(n as nat);
    let v = d + seq!['s'];
    lemma_dec_digits_shape(n as nat);
    lemma_dec_digits_value(n as nat);
    assert(forall|k: int| 0 <= k < d.len() ==> !is_space_char(#[trigger] v[k]) && lower_char(
        v[k],
    ) == v[k]) by {
        lemma_digit_chars_plain(d);
    }
    assert(!is_space_char('s') && lower_char('s') == 's');
    lemma_normalize_fixed(v);
    assert(v.len() >= 2 ==> v[v.len() - 2] != 'm') by {
        if v.len() >= 2 {
            assert(is_digit_char(d[d.len() - 1]));
            assert(v[v.len() - 2] == d[d.len() - 1]);
        }
    }
    assert(duration_number(v) =~= d);
    assert(duration_multiplier(v) == 1000);
    let ms = (n * 1000) as nat;
    assert(ms % 1000 == 0 && ms / 1000 == n) by (nonlinear_arith)
        requires
            ms == n * 1000,
    ;
    assert(n >= 1);
    assert(ms >= 1000) by (nonlinear_arith)
        requires
            ms == n * 1000,
            n >= 1,
    ;
    assert(ms % 60000 != 0) by {
        if ms % 60000 == 0 {
            assert(n % 60 == 0) by (nonlinear_arith)
                requires
                    ms == n * 1000,
                    ms % 60000 == 0,
            ;
        }
    }
}

/// A canonical minute string round-trips: `Nm` parses to `N` minutes, and
/// that value displays as `Nm` again.
pub proof fn lemma_round_trip_mins(n: u64)
    requires
        n >= 1,
        n * 60000 <= u64::MAX,
    ensures
        duration_value(dec_digits(n as nat) + seq!['m']) == Some((n * 60000) as nat),
        duration_display((n * 60000) as nat) == dec_digits(n as nat) + seq!['m'],
{
    let d = dec_digits(n as nat);
    let v = d + seq!['m'];
    lemma_dec_digits_shape(n as nat);
    lemma_dec_digits_value(n as nat);
    assert(forall|k: int| 0 <= k < d.len() ==> !is_space_char(#[trigger] v[k]) && lower_char(
        v[k],
    ) == v[k]) by {
        lemma_digit_chars_plain(d);
    }
    assert(!is_space_char('m') && lower_char('m') == 'm');
    lemma_normalize_fixed(v);
    assert(v[v.len() - 1] == 'm');
    assert(duration_number(v) =~= d);
    assert(duration_multiplier(v) == 60000);
    let ms = (n * 60000) as nat;
    assert(ms % 60000 == 0 && ms / 60000 == n) by (nonlinear_arith)
        requires
            ms == n * 60000,
    ;
    assert(ms >= 60000) by (nonlinear_arith)
        requires
            ms == n * 60000,
            n >= 1,
    ;
}

} // verus!
