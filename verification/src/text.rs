//! Character-level helpers: whitespace trimming, prefixes, and decimal numbers.

use vstd::prelude::*;

verus! {

broadcast use vstd::string::group_string_axioms;

/// The characters of `s`, in order.
pub fn chars_of(s: &str) -> (v: Vec<char>)
    ensures
        v@ == s@,
{
    let mut v: Vec<char> = Vec::new();
    for c in it: s.chars()
        invariant
            it.seq() == s@,
            v@ == it.seq().take(it.index() as int),
    {
        v.push(c);
    }
    v
}

/// Whether `c` has the Unicode `White_Space` property, as `char::is_whitespace` says.
pub open spec fn is_unicode_whitespace(c: char) -> bool {
    ||| '\u{9}' <= c <= '\u{d}'
    ||| c == ' '
    ||| c == '\u{85}'
    ||| c == '\u{a0}'
    ||| c == '\u{1680}'
    ||| '\u{2000}' <= c <= '\u{200a}'
    ||| c == '\u{2028}'
    ||| c == '\u{2029}'
    ||| c == '\u{202f}'
    ||| c == '\u{205f}'
    ||| c == '\u{3000}'
}

/// Tells whether `c` is whitespace (the Unicode `White_Space` property).
pub fn is_whitespace_char(c: char) -> (r: bool)
    ensures
        r == is_unicode_whitespace(c),
{
    ('\u{9}' <= c && c <= '\u{d}') || c == ' ' || c == '\u{85}' || c == '\u{a0}' || c == '\u{1680}'
        || ('\u{2000}' <= c && c <= '\u{200a}') || c == '\u{2028}' || c == '\u{2029}' || c
        == '\u{202f}' || c == '\u{205f}' || c == '\u{3000}'
}

/// The number of whitespace characters at the start of `s`.
pub open spec fn leading_whitespace(s: Seq<char>) -> nat
    decreases s.len(),
{
    if s.len() > 0 && is_unicode_whitespace(s[0]) {
        1 + leading_whitespace(s.drop_first())
    } else {
        0
    }
}

/// The number of whitespace characters at the end of `s`.
pub open spec fn trailing_whitespace(s: Seq<char>) -> nat
    decreases s.len(),
{
    if s.len() > 0 && is_unicode_whitespace(s.last()) {
        1 + trailing_whitespace(s.drop_last())
    } else {
        0
    }
}

/// `s` without its leading and trailing whitespace, as `str::trim` gives it.
pub open spec fn trim(s: Seq<char>) -> Seq<char> {
    let t = s.skip(leading_whitespace(s) as int);
    t.take(t.len() - trailing_whitespace(t))
}

/// Whether `s` begins with `prefix`.
pub open spec fn starts_with(s: Seq<char>, prefix: Seq<char>) -> bool {
    prefix.len() <= s.len() && s.take(prefix.len() as int) == prefix
}

pub(crate) proof fn lemma_leading_whitespace(s: Seq<char>, i: int)
    requires
        0 <= i <= s.len(),
        forall|j: int| 0 <= j < i ==> is_unicode_whitespace(#[trigger] s[j]),
    ensures
        leading_whitespace(s) == i + leading_whitespace(s.skip(i)),
    decreases i,
{
    if i > 0 {
        let r = s.drop_first();
        assert forall|j: int| 0 <= j < i - 1 implies is_unicode_whitespace(#[trigger] r[j]) by {
            assert(r[j] == s[j + 1]);
        }
        lemma_leading_whitespace(r, i - 1);
        assert(r.skip(i - 1) =~= s.skip(i));
    } else {
        assert(s.skip(0) =~= s);
    }
}

pub(crate) proof fn lemma_trailing_whitespace(s: Seq<char>, i: int)
    requires
        0 <= i <= s.len(),
        forall|j: int| i <= j < s.len() ==> is_unicode_whitespace(#[trigger] s[j]),
    ensures
        trailing_whitespace(s) == (s.len() - i) + trailing_whitespace(s.take(i)),
    decreases s.len() - i,
{
    if i < s.len() {
        let r = s.drop_last();
        assert forall|j: int| i <= j < r.len() implies is_unicode_whitespace(#[trigger] r[j]) by {
            assert(r[j] == s[j]);
        }
        lemma_trailing_whitespace(r, i);
        assert(r.take(i) =~= s.take(i));
    } else {
        assert(s.take(i) =~= s);
    }
}

/// The characters of `v` without leading and trailing whitespace.
pub fn trimmed(v: &Vec<char>) -> (t: Vec<char>)
    ensures
        t@ == trim(v@),
{
    let n = v.len();
    let mut a: usize = 0;
    while a < n && is_whitespace_char(v[a])
        invariant
            n == v@.len(),
            a <= n,
            forall|j: int| 0 <= j < a ==> is_unicode_whitespace(#[trigger] v@[j]),
        decreases n - a,
    {
        a = a + 1;
    }
    proof {
        lemma_leading_whitespace(v@, a as int);
        let r = v@.skip(a as int);
        if a < n {
            assert(r[0] == v@[a as int]);
        }
        assert(leading_whitespace(r) == 0);
    }
    let mut b: usize = n;
    while b > a && is_whitespace_char(v[b - 1])
        invariant
            n == v@.len(),
            a <= b <= n,
            forall|j: int| b <= j < n ==> is_unicode_whitespace(#[trigger] v@[j]),
        decreases b - a,
    {
        b = b - 1;
    }
    let ghost r = v@.skip(a as int);
    proof {
        assert forall|j: int| b - a <= j < r.len() implies is_unicode_whitespace(#[trigger] r[j]) by {
            assert(r[j] == v@[j + a]);
        }
        lemma_trailing_whitespace(r, b - a);
        let q = r.take(b - a);
        if b > a {
            assert(q.last() == v@[b - 1]);
        }
        assert(trailing_whitespace(q) == 0);
    }
    let mut t: Vec<char> = Vec::new();
    let mut i: usize = a;
    while i < b
        invariant
            n == v@.len(),
            a <= i <= b <= n,
            t@ == v@.subrange(a as int, i as int),
        decreases b - i,
    {
        t.push(v[i]);
        proof {
            assert(v@.subrange(a as int, i + 1) =~= v@.subrange(a as int, i as int).push(v@[i as int]));
        }
        i = i + 1;
    }
    proof {
        assert(t@ =~= trim(v@));
    }
    t
}

/// Whether `v` and `w` hold the same characters.
pub fn same_chars(v: &Vec<char>, w: &Vec<char>) -> (r: bool)
    ensures
        r == (v@ == w@),
{
    if v.len() != w.len() {
        return false;
    }
    let mut i: usize = 0;
    while i < v.len()
        invariant
            v@.len() == w@.len(),
            i <= v@.len(),
            forall|j: int| 0 <= j < i ==> v@[j] == w@[j],
        decreases v@.len() - i,
    {
        if v[i] != w[i] {
            return false;
        }
        i = i + 1;
    }
    assert(v@ =~= w@);
    true
}

/// Whether `v` begins with the characters of `prefix`.
pub fn has_prefix(v: &Vec<char>, prefix: &Vec<char>) -> (r: bool)
    ensures
        r == starts_with(v@, prefix@),
{
    if prefix.len() > v.len() {
        return false;
    }
    let mut i: usize = 0;
    while i < prefix.len()
        invariant
            prefix@.len() <= v@.len(),
            i <= prefix@.len(),
            forall|j: int| 0 <= j < i ==> v@[j] == prefix@[j],
        decreases prefix@.len() - i,
    {
        if v[i] != prefix[i] {
            assert(v@.take(prefix@.len() as int)[i as int] != prefix@[i as int]);
            return false;
        }
        i = i + 1;
    }
    assert(v@.take(prefix@.len() as int) =~= prefix@);
    true
}

/// Whether the string `s` equals the string `t`.
pub fn str_equals(s: &str, t: &str) -> (r: bool)
    ensures
        r == (s@ == t@),
{
    let v = chars_of(s);
    let w = chars_of(t);
    same_chars(&v, &w)
}

/// Whether `c` is one of the ASCII digits `0`..`9`.
pub open spec fn is_ascii_digit(c: char) -> bool {
    '0' <= c <= '9'
}

/// The value of the decimal digits `d`, most significant first (0 for none).
pub open spec fn digits_value(d: Seq<char>) -> nat
    decreases d.len(),
{
    if d.len() == 0 {
        0
    } else {
        digits_value(d.drop_last()) * 10 + (d.last() as int - '0' as int) as nat
    }
}

/// The number written by the decimal digits `d`: present when `d` is one or
/// more ASCII digits whose value fits in a `usize`.
pub open spec fn parse_digits(d: Seq<char>) -> Option<usize> {
    if d.len() > 0 && (forall|i: int| 0 <= i < d.len() ==> is_ascii_digit(#[trigger] d[i]))
        && digits_value(d) <= usize::MAX {
        Some(digits_value(d) as usize)
    } else {
        None
    }
}

/// What `str::parse::<usize>` gives for `s`: a number when `s` is an optional
/// `+` followed by one or more ASCII digits whose value fits in a `usize`.
pub open spec fn parse_usize(s: Seq<char>) -> Option<usize> {
    if s.len() > 0 && s[0] == '+' {
        parse_digits(s.drop_first())
    } else {
        parse_digits(s)
    }
}

proof fn lemma_digits_value_grows(d: Seq<char>, i: int)
    requires
        0 <= i <= d.len(),
        forall|j: int| 0 <= j < d.len() ==> is_ascii_digit(#[trigger] d[j]),
    ensures
        digits_value(d.take(i)) <= digits_value(d),
    decreases d.len() - i,
{
    if i < d.len() {
        let r = d.drop_last();
        assert forall|j: int| 0 <= j < r.len() implies is_ascii_digit(#[trigger] r[j]) by {
            assert(r[j] == d[j]);
        }
        lemma_digits_value_grows(r, i);
        assert(r.take(i) =~= d.take(i));
    } else {
        assert(d.take(i) =~= d);
    }
}

/// Parses the characters of `v` as `str::parse::<usize>` does.
pub fn parse_usize_chars(v: &Vec<char>) -> (r: Option<usize>)
    ensures
        r == parse_usize(v@),
{
    let n = v.len();
    let start: usize = if n > 0 && v[0] == '+' {
        1
    } else {
        0
    };
    let ghost d = if v@.len() > 0 && v@[0] == '+' {
        v@.drop_first()
    } else {
        v@
    };
    proof {
        assert(d =~= v@.skip(start as int));
    }
    if start == n {
        return None;
    }
    let mut acc: u128 = 0;
    let mut i: usize = start;
    while i < n
        invariant
            n == v@.len(),
            start <= i <= n,
            d == v@.skip(start as int),
            parse_usize(v@) == parse_digits(d),
            d.len() > 0,
            forall|j: int| 0 <= j < i - start ==> is_ascii_digit(#[trigger] d[j]),
            acc == digits_value(d.take(i - start)),
            acc <= usize::MAX,
        decreases n - i,
    {
        let c = v[i];
        if !('0' <= c && c <= '9') {
            proof {
                assert(d[i - start] == c);
                assert(!is_ascii_digit(d[i - start]));
            }
            return None;
        }
        let digit: u128 = (c as u32 - '0' as u32) as u128;
        proof {
            let k = i - start;
            assert(d.take(k + 1).drop_last() =~= d.take(k));
            assert(d.take(k + 1).last() == c);
        }
        acc = acc * 10 + digit;
        i = i + 1;
        proof {
            assert(acc == digits_value(d.take(i - start)));
        }
        if acc > usize::MAX as u128 {
            proof {
                let all = forall|j: int| 0 <= j < d.len() ==> is_ascii_digit(#[trigger] d[j]);
                if all {
                    lemma_digits_value_grows(d, i - start);
                    assert(digits_value(d) > usize::MAX);
                }
            }
            return None;
        }
    }
    proof {
        assert(d.take(n - start) =~= d);
    }
    Some(acc as usize)
}

/// The ASCII digit for `n` (below ten).
pub open spec fn digit_byte(n: nat) -> u8 {
    (n + 48) as u8
}

/// The decimal representation of `n` in ASCII bytes, without leading zeros.
pub open spec fn decimal_bytes(n: nat) -> Seq<u8>
    decreases n,
{
    if n < 10 {
        seq![digit_byte(n)]
    } else {
        decimal_bytes(n / 10).push(digit_byte(n % 10))
    }
}

/// Appends the decimal representation of `n` to `out`.
pub fn push_decimal(out: &mut Vec<u8>, n: usize)
    ensures
        final(out)@ == old(out)@ + decimal_bytes(n as nat),
    decreases n,
{
    if n >= 10 {
        push_decimal(out, n / 10);
    }
    let d: u8 = (n % 10) as u8;
    out.push(d + 48);
    proof {
        if n < 10 {
            assert(final(out)@ =~= old(out)@ + decimal_bytes(n as nat));
        } else {
            assert(final(out)@ =~= old(out)@ + decimal_bytes(n as nat));
        }
    }
}

/// Appends the bytes of `bytes` to `out`.
pub fn push_bytes(out: &mut Vec<u8>, bytes: &[u8])
    ensures
        final(out)@ == old(out)@ + bytes@,
{
    let ghost start = out@;
    let mut i: usize = 0;
    while i < bytes.len()
        invariant
            i <= bytes@.len(),
            out@ == start + bytes@.take(i as int),
        decreases bytes@.len() - i,
    {
        out.push(bytes[i]);
        proof {
            assert(bytes@.take(i + 1) =~= bytes@.take(i as int).push(bytes@[i as int]));
        }
        i = i + 1;
    }
    assert(bytes@.take(bytes@.len() as int) =~= bytes@);
}

/// The ASCII digit character for `n` (below ten).
pub open spec fn digit_char(n: nat) -> char {
    (n + 48) as char
}

/// The decimal representation of `n`, without leading zeros.
pub open spec fn decimal_chars(n: nat) -> Seq<char>
    decreases n,
{
    if n < 10 {
        seq![digit_char(n)]
    } else {
        decimal_chars(n / 10).push(digit_char(n % 10))
    }
}

/// The decimal representation of a number consists of ASCII digits, reads
/// back as that number, and is written in bytes as its characters are.
pub proof fn lemma_decimal_chars(n: nat)
    ensures
        decimal_chars(n).len() >= 1,
        forall|i: int| 0 <= i < decimal_chars(n).len() ==> is_ascii_digit(#[trigger] decimal_chars(n)[i]),
        digits_value(decimal_chars(n)) == n,
        decimal_bytes(n) == decimal_chars(n).map_values(|c: char| c as u8),
    decreases n,
{
    if n >= 10 {
        lemma_decimal_chars(n / 10);
        let d = decimal_chars(n / 10);
        let e = decimal_chars(n);
        assert(e.drop_last() =~= d);
        assert(digit_char(n % 10) as int == n % 10 + 48);
        assert(e.last() == digit_char(n % 10));
        assert((n / 10) * 10 + n % 10 == n);
        assert('0' as int == 48);
        assert(digits_value(e) == digits_value(e.drop_last()) * 10 + (e.last() as int - '0' as int) as nat);
        assert(digits_value(e) == digits_value(d) * 10 + n % 10);
        assert forall|i: int| 0 <= i < e.len() implies is_ascii_digit(#[trigger] e[i]) by {
            if i < d.len() {
                assert(e[i] == d[i]);
            }
        }
        assert(decimal_bytes(n) =~= e.map_values(|c: char| c as u8));
    } else {
        assert(digit_char(n) as int == n + 48);
        assert('0' as int == 48);
        assert(decimal_chars(n).drop_last() =~= Seq::<char>::empty());
        assert(digits_value(decimal_chars(n).drop_last()) == 0);
        assert(decimal_bytes(n) =~= decimal_chars(n).map_values(|c: char| c as u8));
    }
}

/// Reading back a number that was written in decimal gives that number.
pub proof fn law_decimal_round_trip(n: usize)
    ensures
        parse_usize(decimal_chars(n as nat)) == Some(n),
{
    lemma_decimal_chars(n as nat);
    let d = decimal_chars(n as nat);
    assert(is_ascii_digit(d[0]));
}

} // verus!
