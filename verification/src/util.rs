//! Small value grammars and wordings shared across the engine: whole numbers, byte sizes,
//! durations, time zones, and counted nouns.

use vstd::prelude::*;

use crate::text::{
    chars_of, decimal, is_ascii_alpha, is_ascii_digit, is_alpha, is_digit, lower, push_decimal,
    string_of, append_str,
};

verus! {

// ---- whole numbers -----------------------------------------------------------------------

/// Every character of `s` is an ASCII digit.
pub open spec fn all_digits(s: Seq<char>) -> bool {
    forall|i: int| 0 <= i < s.len() ==> is_ascii_digit(#[trigger] s[i])
}

/// The value of the decimal digits `s`, most significant first.
pub open spec fn digits_value(s: Seq<char>) -> nat
    decreases s.len(),
{
    if s.len() == 0 {
        0
    } else {
        digits_value(s.drop_last()) * 10 + ((s.last() as int - 48) as nat)
    }
}

/// What `i64::from_str` reads from `s`: an optional `+` or `-`, then one or more ASCII
/// digits, whose value fits in an `i64`.
pub open spec fn parse_i64(s: Seq<char>) -> Option<int> {
    let signed = s.len() > 0 && (s[0] == '+' || s[0] == '-');
    let d = if signed { s.drop_first() } else { s };
    let v = if signed && s[0] == '-' { -(digits_value(d) as int) } else { digits_value(d) as int };
    if d.len() > 0 && all_digits(d) && i64::MIN <= v <= i64::MAX {
        Some(v)
    } else {
        None
    }
}

proof fn lemma_digits_value_grows(s: Seq<char>, i: int)
    requires
        0 <= i <= s.len(),
        all_digits(s),
    ensures
        digits_value(s.take(i)) <= digits_value(s),
    decreases s.len() - i,
{
    if i < s.len() {
        lemma_digits_value_grows(s, i + 1);
        assert(s.take(i + 1).drop_last() =~= s.take(i));
    } else {
        assert(s.take(i) =~= s);
    }
}

/// The value of the digits `d[from..]`, or `None` when it exceeds `limit`.
pub fn digits_upto(d: &[char], limit: u64) -> (r: Option<u64>)
    requires
        all_digits(d@),
    ensures
        match r {
            Some(v) => v == digits_value(d@) && v <= limit,
            None => digits_value(d@) > limit,
        },
{
    let mut acc: u64 = 0;
    let mut i: usize = 0;
    while i < d.len()
        invariant
            i <= d@.len(),
            all_digits(d@),
            acc == digits_value(d@.take(i as int)),
            acc <= limit,
        decreases d@.len() - i,
    {
        assert(d@.take(i + 1).drop_last() =~= d@.take(i as int));
        assert(is_ascii_digit(d@[i as int]));
        let dig = (d[i] as u32 - 48) as u64;
        if dig > limit || acc > (limit - dig) / 10 {
            proof {
                assert(acc * 10 + dig > limit) by (nonlinear_arith)
                    requires dig > limit || acc > (limit - dig) / 10, acc >= 0;
                lemma_digits_value_grows(d@, i + 1);
            }
            return None;
        }
        proof {
            assert(acc * 10 + dig <= limit) by (nonlinear_arith)
                requires acc <= (limit - dig) / 10, dig <= 9;
        }
        acc = acc * 10 + dig;
        i = i + 1;
    }
    assert(d@.take(d@.len() as int) =~= d@);
    Some(acc)
}

/// Are all of `d` ASCII digits?
fn digits_only(d: &[char]) -> (r: bool)
    ensures
        r == all_digits(d@),
{
    for i in 0..d.len()
        invariant
            forall|j: int| 0 <= j < i ==> is_ascii_digit(#[trigger] d@[j]),
    {
        if !is_digit(d[i]) {
            return false;
        }
    }
    true
}

/// `i64::from_str` over characters: [`parse_i64`].
pub fn parse_i64_chars(s: &[char]) -> (r: Option<i64>)
    ensures
        match r {
            Some(v) => parse_i64(s@) == Some(v as int),
            None => parse_i64(s@) is None,
        },
{
    let signed = s.len() > 0 && (s[0] == '+' || s[0] == '-');
    let negative = signed && s[0] == '-';
    let d: Vec<char> = if signed { crate::text::slice_vec(s, 1, s.len()) } else { crate::text::slice_vec(s, 0, s.len()) };
    proof {
        if signed {
            assert(d@ =~= s@.drop_first());
        } else {
            assert(d@ =~= s@);
        }
    }
    if d.len() == 0 || !digits_only(&d) {
        return None;
    }
    if negative {
        match digits_upto(&d, 9223372036854775808u64) {
            Some(v) => Some((0i128 - v as i128) as i64),
            None => None,
        }
    } else {
        match digits_upto(&d, 9223372036854775807u64) {
            Some(v) => Some(v as i64),
            None => None,
        }
    }
}

/// What `u64::from_str` reads from `s`: an optional `+`, then one or more ASCII digits
/// whose value fits in a `u64`.
pub open spec fn parse_u64(s: Seq<char>) -> Option<nat> {
    let d = if s.len() > 0 && s[0] == '+' { s.drop_first() } else { s };
    if d.len() > 0 && all_digits(d) && digits_value(d) <= u64::MAX {
        Some(digits_value(d))
    } else {
        None
    }
}

/// `u64::from_str` over characters: [`parse_u64`].
pub fn parse_u64_chars(s: &[char]) -> (r: Option<u64>)
    ensures
        match parse_u64(s@) {
            Some(n) => r == Some(n as u64),
            None => r is None,
        },
{
    let signed = s.len() > 0 && s[0] == '+';
    let d: Vec<char> = if signed { crate::text::slice_vec(s, 1, s.len()) } else { crate::text::slice_vec(s, 0, s.len()) };
    proof {
        if signed {
            assert(d@ =~= s@.drop_first());
        } else {
            assert(d@ =~= s@);
        }
    }
    if d.len() == 0 || !digits_only(&d) {
        return None;
    }
    digits_upto(&d, 18446744073709551615u64)
}

// ---- byte sizes --------------------------------------------------------------------------

/// A character of a size's numeric part.
pub open spec fn is_number_char(c: char) -> bool {
    is_ascii_digit(c) || c == '.'
}

/// How many characters of `s`, from the start, are digits or dots.
pub open spec fn number_len(s: Seq<char>) -> nat
    decreases s.len(),
{
    if s.len() > 0 && is_number_char(s[0]) {
        1 + number_len(s.drop_first())
    } else {
        0
    }
}

/// A number: one or more digits, optionally a `.` and one or more digits more.
pub open spec fn is_number(s: Seq<char>) -> bool {
    ||| s.len() > 0 && all_digits(s)
    ||| exists|k: int|
        0 < k < s.len() - 1 && s[k] == '.' && all_digits(#[trigger] s.take(k)) && all_digits(
            s.skip(k + 1),
        )
}

/// A size suffix, lower-cased: nothing, `b`, or one of `k m g t` followed by an optional
/// `i` and an optional `b`.
pub open spec fn is_size_suffix(s: Seq<char>) -> bool {
    let unit = s.len() > 0 && (s[0] == 'k' || s[0] == 'm' || s[0] == 'g' || s[0] == 't');
    ||| s.len() == 0
    ||| s == seq!['b']
    ||| unit && s.len() == 1
    ||| unit && s.len() == 2 && (s[1] == 'i' || s[1] == 'b')
    ||| unit && s.len() == 3 && s[1] == 'i' && s[2] == 'b'
}

/// A byte size: a number followed by a size suffix in any case, such as `512M`, `2G`,
/// `1.5GiB` or `1048576`.
pub open spec fn is_byte_size(s: Seq<char>) -> bool {
    let n = number_len(s) as int;
    is_number(s.take(n)) && is_size_suffix(s.skip(n).map_values(|c: char| lower(c)))
}

proof fn lemma_number_len(s: Seq<char>)
    ensures
        number_len(s) <= s.len(),
        forall|i: int| 0 <= i < number_len(s) ==> is_number_char(#[trigger] s[i]),
        number_len(s) < s.len() ==> !is_number_char(s[number_len(s) as int]),
    decreases s.len(),
{
    if s.len() > 0 && is_number_char(s[0]) {
        lemma_number_len(s.drop_first());
        assert forall|i: int| 0 <= i < number_len(s) implies is_number_char(#[trigger] s[i]) by {
            if i > 0 {
                assert(s[i] == s.drop_first()[i - 1]);
            }
        }
    }
}

/// The length of the numeric part, [`number_len`].
fn number_prefix(s: &[char]) -> (r: usize)
    ensures
        r == number_len(s@),
{
    proof {
        lemma_number_len(s@);
    }
    let mut i: usize = 0;
    while i < s.len() && (is_digit(s[i]) || s[i] == '.')
        invariant
            i <= s@.len(),
            i <= number_len(s@),
            number_len(s@) <= s@.len(),
            forall|j: int| 0 <= j < number_len(s@) ==> is_number_char(#[trigger] s@[j]),
            number_len(s@) < s@.len() ==> !is_number_char(s@[number_len(s@) as int]),
        decreases s@.len() - i,
    {
        i = i + 1;
    }
    i
}

/// Exec form of [`is_number`].
fn number_ok(s: &[char]) -> (r: bool)
    ensures
        r == is_number(s@),
{
    if s.len() == 0 {
        return false;
    }
    let mut dot: Option<usize> = None;
    let mut i: usize = 0;
    while i < s.len()
        invariant
            i <= s@.len(),
            match dot {
                None => all_digits(s@.take(i as int)),
                Some(k) => k < i && s@[k as int] == '.' && all_digits(s@.take(k as int)) && all_digits(
                    s@.subrange(k + 1, i as int),
                ),
            },
        decreases s@.len() - i,
    {
        let c = s[i];
        if c == '.' {
            if dot.is_some() {
                proof {
                    let k = dot->0;
                    assert(!all_digits(s@.take(i + 1)) ) by { assert(s@.take(i + 1)[i as int] == '.'); }
                    assert forall|m: int| 0 < m < s@.len() - 1 && s@[m] == '.' implies !(all_digits(#[trigger] s@.take(m)) && all_digits(s@.skip(m + 1))) by {
                        if m < i {
                            if m < k {
                                assert(s@.skip(m + 1)[k - m - 1] == '.');
                            } else if m > k {
                                assert(s@.take(m)[k as int] == '.');
                            } else {
                                assert(s@.skip(m + 1)[i - m - 1] == '.');
                            }
                        } else if m > i {
                            assert(s@.take(m)[i as int] == '.');
                        } else {
                            assert(s@.take(m)[k as int] == '.');
                        }
                    }
                    assert(!all_digits(s@)) by { assert(s@[i as int] == '.'); }
                }
                return false;
            }
            dot = Some(i);
            assert(s@.take(i as int) =~= s@.take(i as int));
        } else if !is_digit(c) {
            proof {
                assert(!all_digits(s@)) by { assert(!is_ascii_digit(s@[i as int])); }
                assert forall|m: int| 0 < m < s@.len() - 1 && s@[m] == '.' implies !(all_digits(#[trigger] s@.take(m)) && all_digits(s@.skip(m + 1))) by {
                    if m < i {
                        assert(s@.skip(m + 1)[i - m - 1] == c);
                    } else {
                        assert(s@.take(m)[i as int] == c);
                    }
                }
            }
            return false;
        }
        proof {
            match dot {
                None => {
                    assert forall|j: int| 0 <= j < i + 1 implies is_ascii_digit(#[trigger] s@.take(i + 1)[j]) by {
                        if j < i {
                            assert(s@.take(i + 1)[j] == s@.take(i as int)[j]);
                        }
                    }
                },
                Some(k) => {
                    if k < i {
                        assert forall|j: int| 0 <= j < i + 1 - (k + 1) implies is_ascii_digit(#[trigger] s@.subrange(k + 1, i + 1)[j]) by {
                            if j < i - (k + 1) {
                                assert(s@.subrange(k + 1, i + 1)[j] == s@.subrange(k + 1, i as int)[j]);
                            }
                        }
                    }
                },
            }
        }
        if c == '.' {
            proof {
                assert(s@.subrange(i + 1, i + 1) =~= Seq::<char>::empty());
            }
        }
        i = i + 1;
    }
    match dot {
        None => {
            assert(s@.take(s@.len() as int) =~= s@);
            true
        },
        Some(k) => {
            assert(s@.subrange(k + 1, s@.len() as int) =~= s@.skip(k + 1));
            proof {
                assert(!all_digits(s@)) by { assert(s@[k as int] == '.'); }
            }
            if k == 0 || k + 1 == s.len() {
                proof {
                    assert forall|m: int| 0 < m < s@.len() - 1 && s@[m] == '.' implies !(all_digits(#[trigger] s@.take(m)) && all_digits(s@.skip(m + 1))) by {
                        if m < k {
                            assert(s@.skip(m + 1)[k - m - 1] == '.');
                        } else if m > k {
                            assert(s@.take(m)[k as int] == '.');
                        }
                    }
                }
                false
            } else {
                assert(all_digits(s@.take(k as int)));
                true
            }
        },
    }
}

/// Exec form of [`is_size_suffix`] over an already lower-cased suffix.
fn size_suffix_ok(s: &[char]) -> (r: bool)
    ensures
        r == is_size_suffix(s@),
{
    if s.len() == 0 {
        return true;
    }
    if s.len() == 1 && s[0] == 'b' {
        assert(s@ =~= seq!['b']);
        return true;
    }
    let unit = s[0] == 'k' || s[0] == 'm' || s[0] == 'g' || s[0] == 't';
    if s.len() == 1 && s[0] != 'b' {
        assert(s@ != seq!['b']) by { assert(seq!['b'][0] == 'b'); }
        return unit;
    }
    assert(s@ != seq!['b']);
    if s.len() == 2 {
        return unit && (s[1] == 'i' || s[1] == 'b');
    }
    if s.len() == 3 {
        return unit && s[1] == 'i' && s[2] == 'b';
    }
    false
}

/// Exec form of [`is_byte_size`].
pub fn byte_size_ok(s: &[char]) -> (r: bool)
    ensures
        r == is_byte_size(s@),
{
    proof {
        lemma_number_len(s@);
    }
    let n = number_prefix(s);
    let num = crate::text::slice_vec(s, 0, n);
    let rest = crate::text::slice_vec(s, n, s.len());
    let low = crate::text::lower_all(&rest);
    assert(num@ =~= s@.take(n as int));
    assert(rest@ =~= s@.skip(n as int));
    assert(low@ =~= s@.skip(n as int).map_values(|c: char| lower(c)));
    number_ok(&num) && size_suffix_ok(&low)
}

// ---- durations ---------------------------------------------------------------------------

/// How many characters of `s`, from the start, are ASCII digits.
pub open spec fn digits_len(s: Seq<char>) -> nat
    decreases s.len(),
{
    if s.len() > 0 && is_ascii_digit(s[0]) {
        1 + digits_len(s.drop_first())
    } else {
        0
    }
}

/// Seconds in one unit of a duration suffix: none or `s`, `m`, `h`.
pub open spec fn unit_seconds(u: Seq<char>) -> Option<nat> {
    if u.len() == 0 || u == seq!['s'] {
        Some(1)
    } else if u == seq!['m'] {
        Some(60)
    } else if u == seq!['h'] {
        Some(3600)
    } else {
        None
    }
}

/// The seconds a duration such as `30s`, `2m`, `1h` or `90` stands for: one or more
/// digits and an optional unit, the total fitting in a `u64`.
pub open spec fn duration_seconds(s: Seq<char>) -> Option<nat> {
    let n = digits_len(s) as int;
    if n == 0 {
        None
    } else {
        match unit_seconds(s.skip(n)) {
            Some(m) => if digits_value(s.take(n)) * m <= u64::MAX {
                Some(digits_value(s.take(n)) * m)
            } else {
                None
            },
            None => None,
        }
    }
}

/// Is `s` a duration?
pub open spec fn is_duration(s: Seq<char>) -> bool {
    duration_seconds(s) is Some
}

proof fn lemma_digits_len(s: Seq<char>)
    ensures
        digits_len(s) <= s.len(),
        all_digits(s.take(digits_len(s) as int)),
        digits_len(s) < s.len() ==> !is_ascii_digit(s[digits_len(s) as int]),
    decreases s.len(),
{
    if s.len() > 0 && is_ascii_digit(s[0]) {
        lemma_digits_len(s.drop_first());
        let n = digits_len(s) as int;
        assert forall|i: int| 0 <= i < n implies is_ascii_digit(#[trigger] s.take(n)[i]) by {
            if i > 0 {
                assert(s.take(n)[i] == s.drop_first().take(n - 1)[i - 1]);
            }
        }
    } else {
        assert(s.take(0) =~= Seq::<char>::empty());
    }
}

/// The seconds of a duration, [`duration_seconds`].
pub fn parse_duration(s: &str) -> (r: Option<u64>)
    ensures
        match r {
            Some(v) => duration_seconds(s@) == Some(v as nat),
            None => duration_seconds(s@) is None,
        },
{
    let c = chars_of(s);
    proof {
        lemma_digits_len(c@);
    }
    let mut n: usize = 0;
    while n < c.len() && is_digit(c[n])
        invariant
            n <= digits_len(c@),
            digits_len(c@) <= c@.len(),
            all_digits(c@.take(digits_len(c@) as int)),
            digits_len(c@) < c@.len() ==> !is_ascii_digit(c@[digits_len(c@) as int]),
        decreases c@.len() - n,
    {
        assert(c@.take(digits_len(c@) as int)[n as int] == c@[n as int]);
        n = n + 1;
    }
    assert(n == digits_len(c@)) by {
        if n < digits_len(c@) {
            assert(c@.take(digits_len(c@) as int)[n as int] == c@[n as int]);
        }
    }
    if n == 0 {
        return None;
    }
    let unit = crate::text::slice_vec(&c, n, c.len());
    assert(unit@ =~= c@.skip(n as int));
    let m: u64 = if unit.len() == 0 || (unit.len() == 1 && unit[0] == 's') {
        assert(unit@.len() == 1 && unit@[0] == 's' ==> unit@ =~= seq!['s']);
        1
    } else if unit.len() == 1 && unit[0] == 'm' {
        assert(unit@ =~= seq!['m']);
        60
    } else if unit.len() == 1 && unit[0] == 'h' {
        assert(unit@ =~= seq!['h']);
        3600
    } else {
        assert(unit@ != seq!['s'] && unit@ != seq!['m'] && unit@ != seq!['h']) by {
            if unit@.len() == 1 {
                assert(seq!['s'][0] == 's' && seq!['m'][0] == 'm' && seq!['h'][0] == 'h');
            }
        }
        return None;
    };
    let digits = crate::text::slice_vec(&c, 0, n);
    assert(digits@ =~= c@.take(n as int));
    match digits_upto(&digits, u64::MAX / m) {
        Some(v) => {
            assert(v * m <= u64::MAX) by (nonlinear_arith)
                requires v <= u64::MAX / m, m > 0;
            Some(v * m)
        },
        None => {
            assert(digits_value(digits@) * m > u64::MAX) by (nonlinear_arith)
                requires digits_value(digits@) > u64::MAX / m, m > 0;
            None
        },
    }
}

// ---- time zones --------------------------------------------------------------------------

/// A `±HH:MM` offset.
pub open spec fn is_offset(s: Seq<char>) -> bool {
    &&& s.len() == 6
    &&& (s[0] == '+' || s[0] == '-')
    &&& is_ascii_digit(s[1]) && is_ascii_digit(s[2])
    &&& s[3] == ':'
    &&& is_ascii_digit(s[4]) && is_ascii_digit(s[5])
}

/// A character of a named zone after its first letter.
pub open spec fn is_zone_char(c: char) -> bool {
    is_ascii_alpha(c) || is_ascii_digit(c) || c == '/' || c == '_' || c == '-' || c == '+'
}

/// A named zone such as `Europe/Paris` or `UTC`: an ASCII letter, then letters, digits
/// and `/ _ - +`.
pub open spec fn is_named_zone(s: Seq<char>) -> bool {
    s.len() > 0 && is_ascii_alpha(s[0]) && forall|i: int| 0 <= i < s.len() ==> is_zone_char(#[trigger] s[i])
}

/// A time zone: an offset or a named zone.
pub open spec fn is_time_zone(s: Seq<char>) -> bool {
    is_offset(s) || is_named_zone(s)
}

/// Exec form of [`is_time_zone`].
pub fn time_zone_ok(s: &[char]) -> (r: bool)
    ensures
        r == is_time_zone(s@),
{
    if s.len() == 6 && (s[0] == '+' || s[0] == '-') && is_digit(s[1]) && is_digit(s[2]) && s[3] == ':'
        && is_digit(s[4]) && is_digit(s[5]) {
        return true;
    }
    assert(!is_offset(s@));
    if s.len() == 0 || !is_alpha(s[0]) {
        assert(!is_named_zone(s@));
        return false;
    }
    for i in 0..s.len()
        invariant
            !is_offset(s@),
            s@.len() > 0 && is_ascii_alpha(s@[0]),
            forall|j: int| 0 <= j < i ==> is_zone_char(#[trigger] s@[j]),
    {
        let c = s[i];
        if !(is_alpha(c) || is_digit(c) || c == '/' || c == '_' || c == '-' || c == '+') {
            assert(!is_zone_char(s@[i as int]));
            return false;
        }
    }
    true
}

// ---- counted nouns -----------------------------------------------------------------------

/// `"1 row"`, `"3 rows"`: the count, a space, and the noun, plural unless the count is one.
pub open spec fn plural_text(n: nat, noun: Seq<char>) -> Seq<char> {
    decimal(n) + seq![' '] + noun + if n == 1 { seq![] } else { seq!['s'] }
}

/// [`plural_text`] as a `String`.
pub fn plural(n: usize, noun: &str) -> (r: String)
    ensures
        r@ == plural_text(n as nat, noun@),
{
    let mut v: Vec<char> = Vec::new();
    push_decimal(&mut v, n as u64);
    v.push(' ');
    append_str(&mut v, noun);
    if n != 1 {
        v.push('s');
    }
    let r = string_of(&v);
    assert(r@ =~= plural_text(n as nat, noun@));
    r
}

} // verus!
