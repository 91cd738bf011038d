//! Character and string helpers shared by the rest of the library.
//!
//! Strings are modelled by their view, a `Seq<char>`. The functions here read
//! a string once into a `Vec<char>`, work on that, and build the result one
//! character at a time.

use vstd::prelude::*;

verus! {

/// The view of an optional text.
pub open spec fn text_of(text: Option<String>) -> Option<Seq<char>> {
    match text {
        Some(t) => Some(t@),
        None => None,
    }
}

/// Whether `c` carries the Unicode `White_Space` property.
pub open spec fn is_whitespace(c: char) -> bool {
    let n = c as u32;
    ||| 0x09 <= n <= 0x0D
    ||| n == 0x20
    ||| n == 0x85
    ||| n == 0xA0
    ||| n == 0x1680
    ||| 0x2000 <= n <= 0x200A
    ||| n == 0x2028
    ||| n == 0x2029
    ||| n == 0x202F
    ||| n == 0x205F
    ||| n == 0x3000
}

/// `s` without its leading whitespace.
pub open spec fn trim_start(s: Seq<char>) -> Seq<char>
    decreases s.len(),
{
    if s.len() > 0 && is_whitespace(s[0]) {
        trim_start(s.drop_first())
    } else {
        s
    }
}

/// `s` without its trailing whitespace.
pub open spec fn trim_end(s: Seq<char>) -> Seq<char>
    decreases s.len(),
{
    if s.len() > 0 && is_whitespace(s.last()) {
        trim_end(s.drop_last())
    } else {
        s
    }
}

/// `s` without leading and trailing whitespace.
pub open spec fn trimmed(s: Seq<char>) -> Seq<char> {
    trim_end(trim_start(s))
}

/// The lower-case form of an ASCII letter; any other character unchanged.
pub open spec fn ascii_lower(c: char) -> char {
    if 'A' <= c <= 'Z' {
        ((c as u32) + 32) as char
    } else {
        c
    }
}

/// `s` with every ASCII letter in lower case.
pub open spec fn ascii_lowercase(s: Seq<char>) -> Seq<char> {
    s.map_values(|c: char| ascii_lower(c))
}

/// Whether `s` begins with `prefix`.
pub open spec fn starts_with(s: Seq<char>, prefix: Seq<char>) -> bool {
    prefix.len() <= s.len() && s.take(prefix.len() as int) == prefix
}

/// Whether `s` ends with `suffix`.
pub open spec fn ends_with(s: Seq<char>, suffix: Seq<char>) -> bool {
    suffix.len() <= s.len() && s.skip(s.len() - suffix.len()) == suffix
}

/// The character of the decimal digit `d`, for `d` below ten.
pub open spec fn digit_char(d: nat) -> char {
    (('0' as u32) + d) as char
}

/// The decimal notation of `n`, without leading zeros.
pub open spec fn decimal(n: nat) -> Seq<char>
    decreases n,
{
    if n < 10 {
        seq![digit_char(n)]
    } else {
        decimal(n / 10).push(digit_char(n % 10))
    }
}

/// The decimal notation of `n`, with a minus sign where `n` is negative.
pub open spec fn signed_decimal(n: int) -> Seq<char> {
    if n < 0 {
        seq!['-'] + decimal((-n) as nat)
    } else {
        decimal(n as nat)
    }
}

/// Decimal notation never is empty, and never starts with a minus sign.
pub proof fn lemma_decimal_shape(n: nat)
    ensures
        decimal(n).len() >= 1,
        forall|i: int| 0 <= i < decimal(n).len() ==> '0' <= #[trigger] decimal(n)[i] <= '9',
    decreases n,
{
    if n >= 10 {
        lemma_decimal_shape(n / 10);
    }
}

/// Two numbers with the same decimal notation are the same number.
pub proof fn lemma_decimal_injective(a: nat, b: nat)
    requires
        decimal(a) == decimal(b),
    ensures
        a == b,
    decreases a,
{
    lemma_decimal_shape(a / 10);
    lemma_decimal_shape(b / 10);
    if a >= 10 && b >= 10 {
        let da = decimal(a / 10);
        let db = decimal(b / 10);
        assert(decimal(a) == da.push(digit_char(a % 10)));
        assert(decimal(b) == db.push(digit_char(b % 10)));
        assert(da.push(digit_char(a % 10)).drop_last() == da);
        assert(db.push(digit_char(b % 10)).drop_last() == db);
        assert(da.push(digit_char(a % 10)).last() == digit_char(a % 10));
        assert(db.push(digit_char(b % 10)).last() == digit_char(b % 10));
        lemma_decimal_injective(a / 10, b / 10);
    } else if a < 10 && b < 10 {
        assert(decimal(a)[0] == digit_char(a));
        assert(decimal(b)[0] == digit_char(b));
    } else if a < 10 {
        assert(decimal(a).len() == 1);
        assert(decimal(b).len() == decimal(b / 10).len() + 1);
    } else {
        assert(decimal(b).len() == 1);
        assert(decimal(a).len() == decimal(a / 10).len() + 1);
    }
}

/// The decimal notation of a number below a thousand, digit by digit.
pub proof fn lemma_decimal_below_thousand(n: nat)
    requires
        n < 1000,
    ensures
        decimal(n) == if n < 10 {
            seq![digit_char(n)]
        } else if n < 100 {
            seq![digit_char(n / 10), digit_char(n % 10)]
        } else {
            seq![digit_char(n / 100), digit_char((n / 10) % 10), digit_char(n % 10)]
        },
{
    if n >= 100 {
        let tens = n / 10;
        assert(tens / 10 == n / 100);
        assert(decimal(tens / 10) == seq![digit_char(n / 100)]);
        assert(decimal(tens) == decimal(tens / 10).push(digit_char(tens % 10)));
        assert(decimal(n) == decimal(tens).push(digit_char(n % 10)));
    } else if n >= 10 {
        assert(decimal(n / 10) == seq![digit_char(n / 10)]);
        assert(decimal(n) == decimal(n / 10).push(digit_char(n % 10)));
    }
}

/// Ten to the power of `m`.
pub open spec fn pow10(m: nat) -> nat
    decreases m,
{
    if m == 0 {
        1
    } else {
        10 * pow10((m - 1) as nat)
    }
}

/// A number below ten to the `m` is written with at most `m` digits.
pub proof fn lemma_decimal_len(n: nat, m: nat)
    requires
        m >= 1,
        n < pow10(m),
    ensures
        decimal(n).len() <= m,
    decreases m,
{
    if n >= 10 {
        assert(pow10(1) == 10) by {
            assert(pow10(0) == 1);
        }
        assert(m >= 2);
        lemma_decimal_len(n / 10, (m - 1) as nat);
    }
}

/// Appends one character to `s`, as `String::push` does.
#[verifier::external_body]
fn push_char(s: &mut String, c: char)
    ensures
        final(s)@ == old(s)@.push(c),
{
    s.push(c);
}

/// The characters of `s`, in order.
pub fn to_chars(s: &str) -> (v: Vec<char>)
    ensures
        v@ == s@,
{
    broadcast use vstd::string::group_string_axioms;

    let mut v: Vec<char> = Vec::new();
    for c in it: s.chars()
        invariant
            it.seq() == s@,
            v@ == s@.take(it.index()),
    {
        v.push(c);
        assert(s@.take(it.index() + 1) == s@.take(it.index()).push(c));
    }
    assert(s@.take(s@.len() as int) == s@);
    v
}

/// The string made of the characters `v[from..to]`.
pub fn from_chars(v: &Vec<char>, from: usize, to: usize) -> (s: String)
    requires
        from <= to <= v.len(),
    ensures
        s@ == v@.subrange(from as int, to as int),
{
    let mut s = String::new();
    let mut i: usize = from;
    while i < to
        invariant
            from <= i <= to <= v.len(),
            s@ == v@.subrange(from as int, i as int),
        decreases to - i,
    {
        push_char(&mut s, v[i]);
        assert(v@.subrange(from as int, i + 1) == v@.subrange(from as int, i as int).push(
            v@[i as int],
        ));
        i += 1;
    }
    s
}

/// Appends the characters of `v` to `s`.
pub fn push_chars(s: &mut String, v: &Vec<char>)
    ensures
        final(s)@ == old(s)@ + v@,
{
    let mut i: usize = 0;
    while i < v.len()
        invariant
            i <= v.len(),
            s@ == old(s)@ + v@.take(i as int),
        decreases v.len() - i,
    {
        push_char(s, v[i]);
        assert(v@.take(i + 1) == v@.take(i as int).push(v@[i as int]));
        i += 1;
    }
    assert(v@.take(v.len() as int) == v@);
}

/// Whether two strings hold the same characters.
pub fn str_eq(a: &str, b: &str) -> (same: bool)
    ensures
        same == (a@ == b@),
{
    let x = to_chars(a);
    let y = to_chars(b);
    chars_eq(&x, &y)
}

/// Whether two character vectors hold the same characters.
pub fn chars_eq(x: &Vec<char>, y: &Vec<char>) -> (same: bool)
    ensures
        same == (x@ == y@),
{
    if x.len() != y.len() {
        return false;
    }
    let mut i: usize = 0;
    while i < x.len()
        invariant
            i <= x.len(),
            x.len() == y.len(),
            x@.take(i as int) == y@.take(i as int),
        decreases x.len() - i,
    {
        if x[i] != y[i] {
            return false;
        }
        assert(x@.take(i + 1) == x@.take(i as int).push(x@[i as int]));
        assert(y@.take(i + 1) == y@.take(i as int).push(y@[i as int]));
        i += 1;
    }
    assert(x@.take(x.len() as int) == x@);
    assert(y@.take(y.len() as int) == y@);
    true
}

/// Whether `c` is a whitespace character.
pub fn char_is_whitespace(c: char) -> (b: bool)
    ensures
        b == is_whitespace(c),
{
    let n: u32 = c as u32;
    (0x09 <= n && n <= 0x0D) || n == 0x20 || n == 0x85 || n == 0xA0 || n == 0x1680 || (0x2000 <= n
        && n <= 0x200A) || n == 0x2028 || n == 0x2029 || n == 0x202F || n == 0x205F || n == 0x3000
}

/// The bounds of `v` without its leading and trailing whitespace.
pub fn trim_bounds(v: &Vec<char>) -> (bounds: (usize, usize))
    ensures
        bounds.0 <= bounds.1 <= v.len(),
        v@.subrange(bounds.0 as int, bounds.1 as int) == trimmed(v@),
{
    let n = v.len();
    let mut lo: usize = 0;
    assert(v@.skip(0) == v@);
    while lo < n && char_is_whitespace(v[lo])
        invariant
            lo <= n == v.len(),
            trim_start(v@) == trim_start(v@.skip(lo as int)),
        decreases n - lo,
    {
        assert(v@.skip(lo as int).drop_first() == v@.skip(lo + 1));
        lo += 1;
    }
    assert(trim_start(v@) == v@.skip(lo as int));
    let mut hi: usize = n;
    assert(v@.skip(lo as int) == v@.subrange(lo as int, hi as int));
    while hi > lo && char_is_whitespace(v[hi - 1])
        invariant
            lo <= hi <= n == v.len(),
            trimmed(v@) == trim_end(v@.subrange(lo as int, hi as int)),
        decreases hi - lo,
    {
        assert(v@.subrange(lo as int, hi as int).drop_last() == v@.subrange(lo as int, hi - 1));
        hi -= 1;
    }
    (lo, hi)
}

/// What is left of a text without its surrounding whitespace; `None` where
/// nothing is left.
pub open spec fn cleaned(value: Seq<char>) -> Option<Seq<char>> {
    if trimmed(value).len() == 0 {
        None
    } else {
        Some(trimmed(value))
    }
}

/// The text without surrounding whitespace, or `None` where nothing is left.
pub fn clean_text(value: &str) -> (cleaned: Option<String>)
    ensures
        text_of(cleaned) == self::cleaned(value@),
{
    let chars = to_chars(value);
    let (lo, hi) = trim_bounds(&chars);
    if lo == hi {
        None
    } else {
        Some(from_chars(&chars, lo, hi))
    }
}

/// The lower-case form of `c` where it is an ASCII letter, else `c`.
pub fn char_ascii_lower(c: char) -> (lower: char)
    ensures
        lower == ascii_lower(c),
{
    if 'A' <= c && c <= 'Z' {
        let n: u8 = c as u8;
        (n + 32) as char
    } else {
        c
    }
}

/// Whether `v`, with its ASCII letters in lower case, begins with `prefix`.
pub fn lowercase_starts_with(v: &Vec<char>, prefix: &str) -> (found: bool)
    ensures
        found == starts_with(ascii_lowercase(v@), prefix@),
{
    let p = to_chars(prefix);
    if p.len() > v.len() {
        return false;
    }
    let ghost low = ascii_lowercase(v@);
    let mut i: usize = 0;
    while i < p.len()
        invariant
            i <= p.len() <= v.len(),
            low == ascii_lowercase(v@),
            p@ == prefix@,
            low.take(i as int) == p@.take(i as int),
        decreases p.len() - i,
    {
        if char_ascii_lower(v[i]) != p[i] {
            assert(low.take(p.len() as int)[i as int] != p@[i as int]);
            return false;
        }
        assert(low.take(i + 1) == low.take(i as int).push(low[i as int]));
        assert(p@.take(i + 1) == p@.take(i as int).push(p@[i as int]));
        i += 1;
    }
    assert(p@.take(p.len() as int) == p@);
    true
}

/// Whether `v` ends with `suffix`.
pub fn chars_end_with(v: &Vec<char>, suffix: &str) -> (found: bool)
    ensures
        found == ends_with(v@, suffix@),
{
    let p = to_chars(suffix);
    if p.len() > v.len() {
        return false;
    }
    let start = v.len() - p.len();
    let ghost tail = v@.skip(start as int);
    let mut i: usize = 0;
    while i < p.len()
        invariant
            i <= p.len() <= v.len(),
            start == v.len() - p.len(),
            tail == v@.skip(start as int),
            p@ == suffix@,
            tail.take(i as int) == p@.take(i as int),
        decreases p.len() - i,
    {
        if v[start + i] != p[i] {
            assert(tail[i as int] != p@[i as int]);
            return false;
        }
        assert(tail.take(i + 1) == tail.take(i as int).push(tail[i as int]));
        assert(p@.take(i + 1) == p@.take(i as int).push(p@[i as int]));
        i += 1;
    }
    assert(p@.take(p.len() as int) == p@);
    assert(tail.take(p.len() as int) == tail);
    true
}

/// Whether `v` and `other` are the same but for the case of ASCII letters.
pub fn chars_eq_ignore_ascii_case(v: &Vec<char>, other: &str) -> (same: bool)
    ensures
        same == (ascii_lowercase(v@) == ascii_lowercase(other@)),
{
    let o = to_chars(other);
    if o.len() != v.len() {
        assert(ascii_lowercase(v@).len() != ascii_lowercase(o@).len());
        return false;
    }
    let ghost lv = ascii_lowercase(v@);
    let ghost lo = ascii_lowercase(o@);
    let mut i: usize = 0;
    while i < v.len()
        invariant
            i <= v.len() == o.len(),
            o@ == other@,
            lv == ascii_lowercase(v@),
            lo == ascii_lowercase(o@),
            lv.take(i as int) == lo.take(i as int),
        decreases v.len() - i,
    {
        if char_ascii_lower(v[i]) != char_ascii_lower(o[i]) {
            assert(lv[i as int] != lo[i as int]);
            return false;
        }
        assert(lv.take(i + 1) == lv.take(i as int).push(lv[i as int]));
        assert(lo.take(i + 1) == lo.take(i as int).push(lo[i as int]));
        i += 1;
    }
    assert(lv.take(v.len() as int) == lv);
    assert(lo.take(v.len() as int) == lo);
    true
}

/// The character of a decimal digit.
fn digit(d: u128) -> (c: char)
    requires
        d < 10,
    ensures
        c == digit_char(d as nat),
{
    let n: u8 = d as u8;
    (48u8 + n) as char
}

/// Appends the decimal notation of `n` to `out`.
pub fn push_decimal(out: &mut String, n: u128)
    ensures
        final(out)@ == old(out)@ + decimal(n as nat),
    decreases n,
{
    if n >= 10 {
        push_decimal(out, n / 10);
    }
    push_char(out, digit(n % 10));
    assert(old(out)@ + decimal(n as nat) == if n >= 10 {
        (old(out)@ + decimal((n / 10) as nat)).push(digit_char((n % 10) as nat))
    } else {
        old(out)@.push(digit_char(n as nat))
    });
}

/// Appends the decimal notation of `n`, with its sign, to `out`.
pub fn push_signed_decimal(out: &mut String, n: i64)
    ensures
        final(out)@ == old(out)@ + signed_decimal(n as int),
{
    if n < 0 {
        push_char(out, '-');
        let magnitude: u128 = (-(n + 1)) as u128 + 1;
        push_decimal(out, magnitude);
        assert(old(out)@ + signed_decimal(n as int) == old(out)@.push('-') + decimal(
            magnitude as nat,
        ));
    } else {
        push_decimal(out, n as u128);
    }
}

} // verus!
