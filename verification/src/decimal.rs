//! Decimal numerals: how unsigned integers are written (`to_string`), how they
//! are read back (`str::parse`), and which texts read as a floating-point number.
use vstd::prelude::*;
use crate::text::{
    ascii_lower, chars_eq_ignore_ascii_case, copy_range, eq_ignore_ascii_case, free_of, lower_char,
    push_char,
};

verus! {

/// The character of a decimal digit.
pub open spec fn digit_char(d: int) -> char {
    (d + 48) as char
}

/// Whether a character is an ASCII decimal digit.
pub open spec fn is_digit(c: char) -> bool {
    '0' <= c && c <= '9'
}

/// The value of a decimal digit character.
pub open spec fn digit_value(c: char) -> nat {
    ((c as int) - 48) as nat
}

/// Every character is a decimal digit.
pub open spec fn all_digits(s: Seq<char>) -> bool {
    forall|i: int| 0 <= i < s.len() ==> is_digit(#[trigger] s[i])
}

/// The value of a string of decimal digits, most significant first.
pub open spec fn digits_value(s: Seq<char>) -> nat
    decreases s.len(),
{
    if s.len() == 0 {
        0
    } else {
        digits_value(s.drop_last()) * 10 + digit_value(s.last())
    }
}

/// How an unsigned integer is written in decimal (`to_string`): no sign, no
/// leading zeros, a single `0` for zero.
pub open spec fn decimal(n: nat) -> Seq<char>
    decreases n,
{
    if n < 10 {
        seq![digit_char(n as int)]
    } else {
        decimal(n / 10).push(digit_char((n % 10) as int))
    }
}

/// What `str::parse` gives for an unsigned integer type whose largest value is
/// `max`: an optional `+`, then one or more decimal digits whose value fits.
pub open spec fn parse_unsigned(s: Seq<char>, max: nat) -> Option<nat> {
    let body = if s.len() > 0 && s[0] == '+' {
        s.drop_first()
    } else {
        s
    };
    if body.len() > 0 && all_digits(body) && digits_value(body) <= max {
        Some(digits_value(body))
    } else {
        None
    }
}

/// A `+` or `-` sign.
pub open spec fn is_sign(c: char) -> bool {
    c == '+' || c == '-'
}

/// The text without its leading sign, if it has one.
pub open spec fn strip_sign(s: Seq<char>) -> Seq<char> {
    if s.len() > 0 && is_sign(s[0]) {
        s.drop_first()
    } else {
        s
    }
}

/// The position of the first `e` or `E`, or the length where there is none.
pub open spec fn exponent_start(s: Seq<char>) -> int
    decreases s.len(),
{
    if s.len() == 0 {
        0
    } else if ascii_lower(s[0]) == 'e' {
        0
    } else {
        1 + exponent_start(s.drop_first())
    }
}

/// `Digit+ | Digit+ '.' Digit* | Digit* '.' Digit+`.
pub open spec fn is_mantissa(m: Seq<char>) -> bool {
    ||| (m.len() > 0 && all_digits(m))
    ||| exists|p: int|
        0 <= p < m.len() && m[p] == '.' && m.len() >= 2 && all_digits(#[trigger] m.take(p))
            && all_digits(m.skip(p + 1))
}

/// Empty, or `'e' Sign? Digit+` (the `e` in either case).
pub open spec fn is_exponent(e: Seq<char>) -> bool {
    e.len() == 0 || (ascii_lower(e[0]) == 'e' && strip_sign(e.drop_first()).len() > 0
        && all_digits(strip_sign(e.drop_first())))
}

/// `inf`, `infinity` or `nan`, in any mix of cases.
pub open spec fn is_special_float(s: Seq<char>) -> bool {
    ||| eq_ignore_ascii_case(s, seq!['i', 'n', 'f'])
    ||| eq_ignore_ascii_case(s, seq!['i', 'n', 'f', 'i', 'n', 'i', 't', 'y'])
    ||| eq_ignore_ascii_case(s, seq!['n', 'a', 'n'])
}

/// The texts that `f64::from_str` accepts, by the grammar its documentation gives:
/// `Sign? ( 'inf' | 'infinity' | 'nan' | Number )`, where
/// `Number ::= ( Digit+ | Digit+ '.' Digit* | Digit* '.' Digit+ ) Exp?` and
/// `Exp ::= 'e' Sign? Digit+`, letters in either case.
pub open spec fn is_float_literal(s: Seq<char>) -> bool {
    let b = strip_sign(s);
    let e = exponent_start(b);
    is_special_float(b) || (is_mantissa(b.take(e)) && is_exponent(b.skip(e)))
}

pub proof fn lemma_digit_char(d: int)
    requires
        0 <= d < 10,
    ensures
        is_digit(digit_char(d)),
        digit_value(digit_char(d)) == d,
        digit_char(d) != '+',
        digit_char(d) != '|',
{
}

/// The decimal writing of a number is a nonempty string of digits of that value.
pub proof fn lemma_decimal(n: nat)
    ensures
        decimal(n).len() > 0,
        all_digits(decimal(n)),
        digits_value(decimal(n)) == n,
        decimal(n)[0] != '+',
        free_of(decimal(n), '|'),
    decreases n,
{
    let s = decimal(n);
    if n < 10 {
        lemma_digit_char(n as int);
        assert(s.drop_last() =~= seq![]);
        assert(digits_value(s.drop_last()) == 0);
        assert(s.last() == digit_char(n as int));
        assert(digits_value(s) == n);
    } else {
        lemma_decimal(n / 10);
        lemma_digit_char((n % 10) as int);
        assert(s.drop_last() =~= decimal(n / 10));
        assert(s.last() == digit_char((n % 10) as int));
        assert(s[0] == decimal(n / 10)[0]);
        assert((n / 10) * 10 + n % 10 == n);
        assert(digits_value(s) == digits_value(decimal(n / 10)) * 10 + n % 10);
        assert forall|i: int| 0 <= i < s.len() implies is_digit(#[trigger] s[i]) && s[i] != '|' by {
            if i < s.len() - 1 {
                assert(s[i] == decimal(n / 10)[i]);
            }
        }
    }
}

/// Reading back how a number is written gives the number.
pub proof fn law_decimal_round_trip(n: nat, max: nat)
    requires
        n <= max,
    ensures
        parse_unsigned(decimal(n), max) == Some(n),
{
    lemma_decimal(n);
}

/// A longer digit string is worth at least as much as any of its prefixes.
pub proof fn lemma_digits_value_prefix(s: Seq<char>, k: int)
    requires
        0 <= k <= s.len(),
    ensures
        digits_value(s.take(k)) <= digits_value(s),
    decreases s.len(),
{
    if k < s.len() {
        lemma_digits_value_prefix(s.drop_last(), k);
        assert(s.drop_last().take(k) =~= s.take(k));
    } else {
        assert(s.take(k) =~= s);
    }
}

/// The character of a decimal digit.
pub fn digit_to_char(d: u64) -> (c: char)
    requires
        d < 10,
    ensures
        c == digit_char(d as int),
{
    let b: u8 = 48u8 + (d as u8);
    b as char
}

/// Appends how `n` is written in decimal.
pub fn append_decimal(out: &mut String, n: u64)
    ensures
        final(out)@ == old(out)@ + decimal(n as nat),
    decreases n,
{
    if n >= 10 {
        append_decimal(out, n / 10);
    }
    push_char(out, digit_to_char(n % 10));
    proof {
        if n >= 10 {
            assert(decimal(n as nat) == decimal((n / 10) as nat).push(digit_char((n % 10) as int)));
        }
    }
    assert(final(out)@ =~= old(out)@ + decimal(n as nat));
}

/// `n.to_string()` for an unsigned integer.
pub fn decimal_string(n: u64) -> (r: String)
    ensures
        r@ == decimal(n as nat),
{
    let mut r = String::new();
    append_decimal(&mut r, n);
    assert(r@ =~= decimal(n as nat));
    r
}

/// `str::parse` for an unsigned integer type whose largest value is `max`.
pub fn parse_decimal(s: &Vec<char>, max: u64) -> (r: Option<u64>)
    ensures
        r is Some <==> parse_unsigned(s@, max as nat) is Some,
        r matches Some(v) ==> v as nat == parse_unsigned(s@, max as nat)->0,
{
    let start: usize = if s.len() > 0 && s[0] == '+' {
        1
    } else {
        0
    };
    let ghost body = if s@.len() > 0 && s@[0] == '+' {
        s@.drop_first()
    } else {
        s@
    };
    assert(body =~= s@.skip(start as int));
    if start == s.len() {
        return None;
    }
    let mut acc: u64 = 0;
    let mut i: usize = start;
    while i < s.len()
        invariant
            start <= i <= s.len(),
            start < s.len(),
            body == s@.skip(start as int),
            body == (if s@.len() > 0 && s@[0] == '+' {
                s@.drop_first()
            } else {
                s@
            }),
            all_digits(body.take(i - start)),
            acc as nat == digits_value(body.take(i - start)),
            acc <= max,
        decreases s.len() - i,
    {
        let c = s[i];
        if !('0' <= c && c <= '9') {
            assert(body[i - start] == c);
            assert(!all_digits(body));
            return None;
        }
        let d: u64 = (c as u32 - 48) as u64;
        let next: u128 = (acc as u128) * 10 + (d as u128);
        let ghost pre = body.take(i - start);
        let ghost post = body.take(i - start + 1);
        assert(post.drop_last() =~= pre);
        assert(post.last() == c);
        assert(digits_value(post) == digits_value(pre) * 10 + d);
        assert(all_digits(post)) by {
            assert forall|j: int| 0 <= j < post.len() implies is_digit(#[trigger] post[j]) by {
                if j < pre.len() {
                    assert(post[j] == pre[j]);
                }
            }
        }
        if next > max as u128 {
            proof {
                if all_digits(body) {
                    lemma_digits_value_prefix(body, i - start + 1);
                    assert(digits_value(body) > max);
                }
            }
            return None;
        }
        acc = next as u64;
        i += 1;
    }
    assert(body.take(s.len() - start) =~= body);
    Some(acc)
}

/// `str::parse::<u32>`.
pub fn parse_u32(s: &Vec<char>) -> (r: Option<u32>)
    ensures
        r is Some <==> parse_unsigned(s@, u32::MAX as nat) is Some,
        r matches Some(v) ==> v as nat == parse_unsigned(s@, u32::MAX as nat)->0,
{
    match parse_decimal(s, u32::MAX as u64) {
        Some(v) => Some(v as u32),
        None => None,
    }
}

/// `str::parse::<u64>`.
pub fn parse_u64(s: &Vec<char>) -> (r: Option<u64>)
    ensures
        r is Some <==> parse_unsigned(s@, u64::MAX as nat) is Some,
        r matches Some(v) ==> v as nat == parse_unsigned(s@, u64::MAX as nat)->0,
{
    parse_decimal(s, u64::MAX)
}

/// Whether every character from `lo` up to `hi` is a decimal digit.
fn digits_between(s: &Vec<char>, lo: usize, hi: usize) -> (r: bool)
    requires
        lo <= hi <= s.len(),
    ensures
        r == all_digits(s@.subrange(lo as int, hi as int)),
{
    let mut i = lo;
    while i < hi
        invariant
            lo <= i <= hi,
            hi <= s.len(),
            all_digits(s@.subrange(lo as int, i as int)),
        decreases hi - i,
    {
        if !('0' <= s[i] && s[i] <= '9') {
            assert(s@.subrange(lo as int, hi as int)[i - lo] == s@[i as int]);
            return false;
        }
        i += 1;
        assert forall|j: int| 0 <= j < i - lo implies is_digit(
            #[trigger] s@.subrange(lo as int, i as int)[j],
        ) by {
            if j < i - 1 - lo {
                assert(s@.subrange(lo as int, i as int)[j] == s@.subrange(lo as int, i - 1)[j]);
            }
        }
    }
    true
}

/// Whether the characters from `lo` up to `hi` equal a lower-case pattern, ignoring ASCII case.
fn range_eq_ignore_case(s: &Vec<char>, lo: usize, hi: usize, lit: &str) -> (r: bool)
    requires
        lo <= hi <= s.len(),
    ensures
        r == eq_ignore_ascii_case(s@.subrange(lo as int, hi as int), lit@),
{
    let part = copy_range(s, lo, hi);
    chars_eq_ignore_ascii_case(&part, lit)
}

/// The position of the first `e` or `E` from `lo` on, or the length where there is none.
fn find_exponent(s: &Vec<char>, lo: usize) -> (e: usize)
    requires
        lo <= s.len(),
    ensures
        lo <= e <= s.len(),
        exponent_start(s@.subrange(lo as int, s.len() as int)) == e - lo,
{
    let n = s.len();
    let mut e = lo;
    while e < n && lower_char(s[e]) != 'e'
        invariant
            lo <= e <= n,
            n == s.len(),
            exponent_start(s@.subrange(lo as int, n as int)) == (e - lo) + exponent_start(
                s@.subrange(e as int, n as int),
            ),
        decreases n - e,
    {
        assert(s@.subrange(e as int, n as int).drop_first() =~= s@.subrange(e + 1, n as int));
        e += 1;
    }
    e
}

/// Whether the characters from `lo` up to `hi` form a mantissa.
fn mantissa_between(s: &Vec<char>, lo: usize, hi: usize) -> (r: bool)
    requires
        lo <= hi <= s.len(),
    ensures
        r == is_mantissa(s@.subrange(lo as int, hi as int)),
{
    let ghost m = s@.subrange(lo as int, hi as int);
    let mut dot = lo;
    while dot < hi && s[dot] != '.'
        invariant
            lo <= dot <= hi,
            hi <= s.len(),
            forall|j: int| lo <= j < dot ==> s@[j] != '.',
        decreases hi - dot,
    {
        dot += 1;
    }
    if dot == hi {
        proof {
            if is_mantissa(m) && !(m.len() > 0 && all_digits(m)) {
                let p = choose|p: int|
                    0 <= p < m.len() && m[p] == '.' && m.len() >= 2 && all_digits(
                        #[trigger] m.take(p),
                    ) && all_digits(m.skip(p + 1));
                assert(m[p] == s@[lo + p]);
            }
        }
        hi > lo && digits_between(s, lo, hi)
    } else {
        let ok = hi - lo >= 2 && digits_between(s, lo, dot) && digits_between(s, dot + 1, hi);
        proof {
            let p = dot - lo;
            assert(m[p] == '.');
            assert(m.take(p) =~= s@.subrange(lo as int, dot as int));
            assert(m.skip(p + 1) =~= s@.subrange(dot + 1, hi as int));
            if ok {
                assert(is_mantissa(m));
            } else if is_mantissa(m) {
                if m.len() > 0 && all_digits(m) {
                    assert(!is_digit(m[p]));
                } else {
                    let q = choose|q: int|
                        0 <= q < m.len() && m[q] == '.' && m.len() >= 2 && all_digits(
                            #[trigger] m.take(q),
                        ) && all_digits(m.skip(q + 1));
                    if q < p {
                        assert(m[q] == s@[lo + q]);
                    } else if q > p {
                        assert(m.take(q)[p] == m[p]);
                        assert(!is_digit(m.take(q)[p]));
                    }
                }
            }
        }
        ok
    }
}

/// Whether the characters from `lo` to the end form an exponent.
fn exponent_from(s: &Vec<char>, lo: usize) -> (r: bool)
    requires
        lo <= s.len(),
    ensures
        r == is_exponent(s@.subrange(lo as int, s.len() as int)),
{
    let n = s.len();
    let ghost x = s@.subrange(lo as int, n as int);
    if lo == n {
        return true;
    }
    if lower_char(s[lo]) != 'e' {
        return false;
    }
    let xs: usize = if lo + 1 < n && (s[lo + 1] == '+' || s[lo + 1] == '-') {
        lo + 2
    } else {
        lo + 1
    };
    assert(x.drop_first() =~= s@.subrange(lo + 1, n as int));
    assert(strip_sign(x.drop_first()) =~= s@.subrange(xs as int, n as int));
    xs < n && digits_between(s, xs, n)
}

/// Whether `f64::from_str` accepts the text (see [`is_float_literal`]).
pub fn float_literal(s: &Vec<char>) -> (r: bool)
    ensures
        r == is_float_literal(s@),
{
    let n = s.len();
    let lo: usize = if n > 0 && (s[0] == '+' || s[0] == '-') {
        1
    } else {
        0
    };
    let ghost b = strip_sign(s@);
    assert(b =~= s@.subrange(lo as int, n as int));
    proof {
        reveal_strlit("inf");
        reveal_strlit("infinity");
        reveal_strlit("nan");
        assert("inf"@ =~= seq!['i', 'n', 'f']);
        assert("infinity"@ =~= seq!['i', 'n', 'f', 'i', 'n', 'i', 't', 'y']);
        assert("nan"@ =~= seq!['n', 'a', 'n']);
    }
    if range_eq_ignore_case(s, lo, n, "inf") || range_eq_ignore_case(s, lo, n, "infinity")
        || range_eq_ignore_case(s, lo, n, "nan") {
        return true;
    }
    let e = find_exponent(s, lo);
    assert(b.take(e - lo) =~= s@.subrange(lo as int, e as int));
    assert(b.skip(e - lo) =~= s@.subrange(e as int, n as int));
    mantissa_between(s, lo, e) && exponent_from(s, e)
}

/// A character that can occur in a floating-point literal: a digit, a point, a
/// sign, or an ASCII letter.
pub open spec fn is_float_char(c: char) -> bool {
    is_digit(c) || c == '.' || is_sign(c) || ('a' <= ascii_lower(c) && ascii_lower(c) <= 'z')
}

pub proof fn lemma_exponent_start_bounds(s: Seq<char>)
    ensures
        0 <= exponent_start(s) <= s.len(),
        exponent_start(s) < s.len() ==> ascii_lower(s[exponent_start(s)]) == 'e',
        forall|j: int| 0 <= j < exponent_start(s) ==> ascii_lower(#[trigger] s[j]) != 'e',
    decreases s.len(),
{
    if s.len() > 0 && ascii_lower(s[0]) != 'e' {
        lemma_exponent_start_bounds(s.drop_first());
        assert forall|j: int| 0 <= j < exponent_start(s) implies ascii_lower(#[trigger] s[j])
            != 'e' by {
            if j > 0 {
                assert(s[j] == s.drop_first()[j - 1]);
            }
        }
    }
}

/// Every character of a floating-point literal is a digit, a point, a sign or a
/// letter; in particular none is `|` or a line end.
pub proof fn lemma_float_literal_chars(s: Seq<char>)
    requires
        is_float_literal(s),
    ensures
        forall|i: int| 0 <= i < s.len() ==> is_float_char(#[trigger] s[i]),
        free_of(s, '|'),
        free_of(s, '\n'),
{
    let b = strip_sign(s);
    let off: int = if s.len() > 0 && is_sign(s[0]) {
        1
    } else {
        0
    };
    assert(b =~= s.skip(off));
    assert forall|j: int| 0 <= j < b.len() implies is_float_char(#[trigger] b[j]) by {
        if is_special_float(b) {
        } else {
            let e = exponent_start(b);
            lemma_exponent_start_bounds(b);
            let m = b.take(e);
            let x = b.skip(e);
            if j < e {
                assert(b[j] == m[j]);
                if m.len() > 0 && all_digits(m) {
                } else {
                    let p = choose|p: int|
                        0 <= p < m.len() && m[p] == '.' && m.len() >= 2 && all_digits(
                            #[trigger] m.take(p),
                        ) && all_digits(m.skip(p + 1));
                    if j < p {
                        assert(m[j] == m.take(p)[j]);
                    } else if j > p {
                        assert(m[j] == m.skip(p + 1)[j - p - 1]);
                    }
                }
            } else if j == e {
                assert(b[j] == x[0]);
            } else {
                let r = x.drop_first();
                assert(b[j] == r[j - e - 1]);
                if r.len() > 0 && is_sign(r[0]) {
                    if j > e + 1 {
                        assert(r[j - e - 1] == strip_sign(r)[j - e - 2]);
                    }
                } else {
                    assert(r[j - e - 1] == strip_sign(r)[j - e - 1]);
                }
            }
        }
    }
    assert forall|i: int| 0 <= i < s.len() implies is_float_char(#[trigger] s[i]) by {
        if i >= off {
            assert(s[i] == b[i - off]);
        }
    }
    assert forall|i: int| 0 <= i < s.len() implies s[i] != '|' && s[i] != '\n' by {
        assert(is_float_char(s[i]));
    }
}

} // verus!
