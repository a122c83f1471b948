//! Character-level helpers shared by the parser, the code generator and the
//! standard library: conversions between `str`, `String` and character
//! vectors, character classes, and decimal rendering of integers.
use vstd::prelude::*;

verus! {

/// Unicode alphabetic property of a character, as `char::is_alphabetic` decides it.
pub uninterp spec fn is_alphabetic(c: char) -> bool;

/// Unicode alphanumeric property, as `char::is_alphanumeric` decides it.
pub uninterp spec fn is_alphanumeric(c: char) -> bool;

/// Unicode white space, as `char::is_whitespace` decides it.
pub uninterp spec fn is_unicode_whitespace(c: char) -> bool;

/// Calls `char::is_alphabetic`. Claimed: the answer is a fixed function of
/// the character, named `is_alphabetic` (nothing more is stated of it).
#[verifier::external_body]
pub(crate) fn char_is_alphabetic(c: char) -> (r: bool)
    ensures
        r == is_alphabetic(c),
{
    c.is_alphabetic()
}

/// Calls `char::is_alphanumeric`. Claimed: the answer is a fixed function of
/// the character, named `is_alphanumeric` (nothing more is stated of it).
#[verifier::external_body]
pub(crate) fn char_is_alphanumeric(c: char) -> (r: bool)
    ensures
        r == is_alphanumeric(c),
{
    c.is_alphanumeric()
}

/// Calls `char::is_whitespace`. Claimed: the answer is a fixed function of
/// the character, named `is_unicode_whitespace` (nothing more is stated of it).
#[verifier::external_body]
pub(crate) fn char_is_whitespace(c: char) -> (r: bool)
    ensures
        r == is_unicode_whitespace(c),
{
    c.is_whitespace()
}

/// The characters of a string slice, in order: `str::chars` collected into a
/// vector. Claimed: the vector holds exactly the string's characters.
#[verifier::external_body]
pub(crate) fn chars_of(s: &str) -> (r: Vec<char>)
    ensures
        r@ == s@,
{
    s.chars().collect()
}

/// The string made of the given characters: a `String` collected from the
/// vector's characters. Claimed: its characters are exactly those.
#[verifier::external_body]
pub(crate) fn string_of(v: &Vec<char>) -> (r: String)
    ensures
        r@ == v@,
{
    v.iter().collect()
}

/// ASCII decimal digit.
pub open spec fn is_digit(c: char) -> bool {
    '0' <= c && c <= '9'
}

/// Value of an ASCII digit.
pub open spec fn digit_value(c: char) -> nat {
    (c as int - '0' as int) as nat
}

/// The digit character for a value below ten.
pub open spec fn digit_char(d: nat) -> char {
    ((d + '0' as nat) as u32) as char
}

/// Decimal representation of a natural number, without leading zeros
/// (zero is `"0"`).
pub open spec fn decimal(n: nat) -> Seq<char>
    decreases n,
{
    if n < 10 {
        seq![digit_char(n)]
    } else {
        decimal(n / 10).push(digit_char(n % 10))
    }
}

/// Decimal representation of an integer, with a leading `-` when negative.
pub open spec fn decimal_int(n: int) -> Seq<char> {
    if n < 0 {
        seq!['-'].add(decimal((-n) as nat))
    } else {
        decimal(n as nat)
    }
}

/// The value of a sequence of decimal digits.
pub open spec fn digits_value(d: Seq<char>) -> nat
    decreases d.len(),
{
    if d.len() == 0 {
        0
    } else {
        digits_value(d.drop_last()) * 10 + digit_value(d.last())
    }
}

pub open spec fn all_digits(d: Seq<char>) -> bool {
    forall|i: int| 0 <= i < d.len() ==> is_digit(#[trigger] d[i])
}

proof fn lemma_digit_char(d: nat)
    requires
        d < 10,
    ensures
        is_digit(digit_char(d)),
        digit_value(digit_char(d)) == d,
{
    assert(((d + '0' as nat) as u32) as char as int == d + 48) by {
        assert(d + 48 < 0xD800);
    }
}

/// The decimal representation consists of digits, starts with a non-zero
/// digit unless the number is zero, and reads back as the number.
pub proof fn lemma_decimal(n: nat)
    ensures
        decimal(n).len() >= 1,
        all_digits(decimal(n)),
        digits_value(decimal(n)) == n,
        n >= 10 ==> decimal(n)[0] != '0',
    decreases n,
{
    if n < 10 {
        lemma_digit_char(n);
        assert(decimal(n).drop_last() =~= Seq::<char>::empty());
        assert(digits_value(decimal(n).drop_last()) == 0);
    } else {
        lemma_decimal(n / 10);
        lemma_digit_char(n % 10);
        let d = decimal(n);
        assert((n / 10) * 10 + n % 10 == n);
        assert(d.last() == digit_char(n % 10));
        assert(d.drop_last() =~= decimal(n / 10));
        assert forall|i: int| 0 <= i < d.len() implies is_digit(#[trigger] d[i]) by {
            if i < d.len() - 1 {
                assert(d[i] == decimal(n / 10)[i]);
            }
        }
        if n / 10 < 10 {
            lemma_digit_char(n / 10);
        }
        assert(d[0] == decimal(n / 10)[0]);
    }
}

/// Two numbers with the same decimal representation are equal.
pub proof fn lemma_decimal_injective(a: nat, b: nat)
    requires
        decimal(a) == decimal(b),
    ensures
        a == b,
{
    lemma_decimal(a);
    lemma_decimal(b);
}

/// The characters of the decimal representation of `n`.
pub fn decimal_chars(n: u64) -> (r: Vec<char>)
    ensures
        r@ == decimal(n as nat),
{
    // `digits` holds the low-order digits of `n`, least significant first
    let mut digits: Vec<char> = Vec::new();
    let mut m: u64 = n;
    assert(decimal(n as nat) =~= decimal(m as nat) + digits@.reverse());
    while m >= 10
        invariant
            decimal(n as nat) == decimal(m as nat) + digits@.reverse(),
        decreases m,
    {
        let c = digit_to_char(m % 10);
        let ghost old_digits = digits@;
        digits.push(c);
        assert(digits@.reverse() =~= seq![c] + old_digits.reverse());
        assert(decimal(m as nat) == decimal((m / 10) as nat).push(c));
        assert(decimal(m as nat) + old_digits.reverse() =~= decimal((m / 10) as nat) + digits@.reverse());
        m = m / 10;
    }
    let c = digit_to_char(m);
    let ghost old_digits = digits@;
    digits.push(c);
    assert(digits@.reverse() =~= seq![c] + old_digits.reverse());
    assert(decimal(m as nat) =~= seq![c]);
    let mut r: Vec<char> = Vec::new();
    let len = digits.len();
    let mut i: usize = 0;
    while i < len
        invariant
            len == digits.len(),
            i <= len,
            r@ == digits@.reverse().subrange(0, i as int),
        decreases len - i,
    {
        r.push(digits[len - 1 - i]);
        assert(r@ =~= digits@.reverse().subrange(0, i + 1));
        i = i + 1;
    }
    assert(r@ =~= digits@.reverse());
    r
}

/// The digit character of a value below ten.
fn digit_to_char(d: u64) -> (c: char)
    requires
        d < 10,
    ensures
        c == digit_char(d as nat),
{
    if d == 0 { '0' } else if d == 1 { '1' } else if d == 2 { '2' } else if d == 3 { '3' }
    else if d == 4 { '4' } else if d == 5 { '5' } else if d == 6 { '6' } else if d == 7 { '7' }
    else if d == 8 { '8' } else { '9' }
}

/// The characters of the decimal representation of a signed integer.
pub fn decimal_chars_i64(n: i64) -> (r: Vec<char>)
    ensures
        r@ == decimal_int(n as int),
{
    if n < 0 {
        let m: u64 = if n == i64::MIN { 9223372036854775808u64 } else { (-n) as u64 };
        let d = decimal_chars(m);
        let mut r: Vec<char> = Vec::new();
        r.push('-');
        let mut i: usize = 0;
        while i < d.len()
            invariant
                i <= d.len(),
                r@ == seq!['-'] + d@.subrange(0, i as int),
            decreases d.len() - i,
        {
            r.push(d[i]);
            assert(r@ =~= seq!['-'] + d@.subrange(0, i + 1));
            i = i + 1;
        }
        assert(d@.subrange(0, d.len() as int) =~= d@);
        r
    } else {
        decimal_chars(n as u64)
    }
}

/// Appends the characters of `b` to `a`.
pub fn append_chars(a: &mut Vec<char>, b: &Vec<char>)
    ensures
        final(a)@ == old(a)@ + b@,
{
    let mut i: usize = 0;
    let ghost a0 = a@;
    while i < b.len()
        invariant
            i <= b.len(),
            a@ == a0 + b@.subrange(0, i as int),
        decreases b.len() - i,
    {
        a.push(b[i]);
        assert(a@ =~= a0 + b@.subrange(0, i + 1));
        i = i + 1;
    }
    assert(b@.subrange(0, b.len() as int) =~= b@);
}

/// Appends the characters of a string slice to `a`.
pub fn append_str(a: &mut Vec<char>, b: &str)
    ensures
        final(a)@ == old(a)@ + b@,
{
    let v = chars_of(b);
    append_chars(a, &v);
}

/// Whether the string `a` spells `b`.
pub fn string_is(a: &String, b: &str) -> (r: bool)
    ensures
        r == (a@ == b@),
{
    let va = chars_of(a.as_str());
    let vb = chars_of(b);
    if va.len() != vb.len() {
        return false;
    }
    let mut i: usize = 0;
    while i < va.len()
        invariant
            va.len() == vb.len(),
            i <= va.len(),
            va@ == a@,
            vb@ == b@,
            forall|k: int| 0 <= k < i ==> va@[k] == vb@[k],
        decreases va.len() - i,
    {
        if va[i] != vb[i] {
            return false;
        }
        i = i + 1;
    }
    assert(va@ =~= vb@);
    true
}

/// Start of `s` without its leading Unicode white space.
pub open spec fn trim_start_index(s: Seq<char>) -> int
    decreases s.len(),
{
    if s.len() > 0 && is_unicode_whitespace(s[0]) {
        1 + trim_start_index(s.drop_first())
    } else {
        0
    }
}

/// End of `s` without its trailing Unicode white space.
pub open spec fn trim_end_index(s: Seq<char>) -> int
    decreases s.len(),
{
    if s.len() > 0 && is_unicode_whitespace(s.last()) {
        trim_end_index(s.drop_last())
    } else {
        s.len() as int
    }
}

/// `s` without leading and trailing Unicode white space, as `str::trim` gives it.
pub open spec fn trimmed(s: Seq<char>) -> Seq<char> {
    let a = trim_start_index(s);
    if a >= s.len() {
        Seq::empty()
    } else {
        s.subrange(a, trim_end_index(s))
    }
}

proof fn lemma_trim_start(s: Seq<char>, i: int)
    requires
        0 <= i <= s.len(),
        forall|k: int| 0 <= k < i ==> is_unicode_whitespace(#[trigger] s[k]),
    ensures
        trim_start_index(s) == i + trim_start_index(s.subrange(i, s.len() as int)),
    decreases i,
{
    if i > 0 {
        assert(s.drop_first().subrange(i - 1, s.drop_first().len() as int) =~= s.subrange(i, s.len() as int));
        lemma_trim_start(s.drop_first(), i - 1);
    } else {
        assert(s.subrange(0, s.len() as int) =~= s);
    }
}

proof fn lemma_trim_end(s: Seq<char>, j: int)
    requires
        0 <= j <= s.len(),
        forall|k: int| j <= k < s.len() ==> is_unicode_whitespace(#[trigger] s[k]),
    ensures
        trim_end_index(s) == trim_end_index(s.subrange(0, j)),
    decreases s.len() - j,
{
    if j < s.len() {
        assert(s.drop_last().subrange(0, j) =~= s.subrange(0, j));
        lemma_trim_end(s.drop_last(), j);
    } else {
        assert(s.subrange(0, j) =~= s);
    }
}

proof fn lemma_trim_end_bounds(s: Seq<char>)
    ensures
        0 <= trim_end_index(s) <= s.len(),
        trim_end_index(s) > 0 ==> !is_unicode_whitespace(s[trim_end_index(s) - 1]),
        forall|k: int| trim_end_index(s) <= k < s.len() ==> is_unicode_whitespace(#[trigger] s[k]),
    decreases s.len(),
{
    if s.len() > 0 && is_unicode_whitespace(s.last()) {
        lemma_trim_end_bounds(s.drop_last());
        assert forall|k: int| trim_end_index(s) <= k < s.len() implies is_unicode_whitespace(#[trigger] s[k]) by {
            if k < s.len() - 1 {
                assert(s[k] == s.drop_last()[k]);
            }
        }
    }
}

/// The characters of `s` without leading and trailing white space.
pub fn trim_chars(s: &Vec<char>) -> (r: Vec<char>)
    ensures
        r@ == trimmed(s@),
{
    let mut a: usize = 0;
    while a < s.len() && char_is_whitespace(s[a])
        invariant
            a <= s.len(),
            forall|k: int| 0 <= k < a ==> is_unicode_whitespace(#[trigger] s@[k]),
        decreases s.len() - a,
    {
        a = a + 1;
    }
    proof {
        lemma_trim_start(s@, a as int);
        let rest = s@.subrange(a as int, s@.len() as int);
        if a < s.len() {
            assert(rest[0] == s@[a as int]);
        }
        assert(trim_start_index(rest) == 0);
    }
    if a == s.len() {
        return Vec::new();
    }
    let mut b: usize = s.len();
    while b > a && char_is_whitespace(s[b - 1])
        invariant
            a < s.len(),
            a <= b <= s.len(),
            forall|k: int| b <= k < s.len() ==> is_unicode_whitespace(#[trigger] s@[k]),
        decreases b,
    {
        b = b - 1;
    }
    proof {
        lemma_trim_end(s@, b as int);
        let pre = s@.subrange(0, b as int);
        if b > a {
            assert(pre.last() == s@[b - 1]);
        }
        assert(!is_unicode_whitespace(s@[a as int]));
        assert(b > a);
        assert(trim_end_index(pre) == b);
    }
    let mut r: Vec<char> = Vec::new();
    let mut i: usize = a;
    while i < b
        invariant
            a <= i <= b <= s.len(),
            r@ == s@.subrange(a as int, i as int),
        decreases b - i,
    {
        r.push(s[i]);
        assert(r@ =~= s@.subrange(a as int, i + 1));
        i = i + 1;
    }
    r
}

/// The integer that `t` denotes in Rust's syntax for `i64`: an optional `+`
/// or `-`, then one or more ASCII digits, with the value in range.
pub open spec fn parse_i64_spec(t: Seq<char>) -> Option<int> {
    let neg = t.len() > 0 && t[0] == '-';
    let start: int = if t.len() > 0 && (t[0] == '-' || t[0] == '+') { 1 } else { 0 };
    let d = t.subrange(start, t.len() as int);
    let mag = digits_value(d);
    if d.len() == 0 || !all_digits(d) {
        None
    } else {
        let v: int = if neg { -mag } else { mag as int };
        if i64::MIN <= v <= i64::MAX {
            Some(v)
        } else {
            None
        }
    }
}

proof fn lemma_digits_value_push2(d: Seq<char>, c: char)
    ensures
        digits_value(d.push(c)) == digits_value(d) * 10 + digit_value(c),
{
    assert(d.push(c).drop_last() =~= d);
}

proof fn lemma_digits_value_prefix_le(d: Seq<char>, k: int)
    requires
        0 <= k <= d.len(),
    ensures
        digits_value(d.subrange(0, k)) <= digits_value(d),
    decreases d.len() - k,
{
    if k < d.len() {
        lemma_digits_value_prefix_le(d, k + 1);
        let a = d.subrange(0, k);
        assert(d.subrange(0, k + 1) =~= a.push(d[k]));
        lemma_digits_value_push2(a, d[k]);
        assert(digits_value(a) <= digits_value(a) * 10) by (nonlinear_arith);
    } else {
        assert(d.subrange(0, k) =~= d);
    }
}

/// Parses `t` as Rust parses an `i64`.
pub fn parse_i64(t: &Vec<char>) -> (r: Option<i64>)
    ensures
        r matches Some(v) ==> parse_i64_spec(t@) == Some(v as int),
        r is None ==> parse_i64_spec(t@) is None,
{
    let neg = t.len() > 0 && t[0] == '-';
    let start: usize = if t.len() > 0 && (t[0] == '-' || t[0] == '+') { 1 } else { 0 };
    if start >= t.len() {
        return None;
    }
    let ghost d = t@.subrange(start as int, t@.len() as int);
    // magnitude limit: 2^63 for negative numbers, 2^63 - 1 otherwise
    let limit: u64 = if neg { 9223372036854775808u64 } else { 9223372036854775807u64 };
    let mut v: u64 = 0;
    let mut i: usize = start;
    while i < t.len()
        invariant
            start <= i <= t.len(),
            start < t.len(),
            start == (if t@.len() > 0 && (t@[0] == '-' || t@[0] == '+') { 1int } else { 0int }),
            neg == (t@.len() > 0 && t@[0] == '-'),
            d == t@.subrange(start as int, t@.len() as int),
            forall|k: int| start <= k < i ==> is_digit(#[trigger] t@[k]),
            v as nat == digits_value(t@.subrange(start as int, i as int)),
            v <= limit,
            limit == (if neg { 9223372036854775808u64 } else { 9223372036854775807u64 }),
        decreases t.len() - i,
    {
        let c = t[i];
        if !('0' <= c && c <= '9') {
            proof {
                assert(d[i - start] == t@[i as int]);
                assert(!is_digit(d[i - start]));
                assert(!all_digits(d));
            }
            return None;
        }
        let dv = (c as u32 - '0' as u32) as u64;
        proof {
            assert(t@.subrange(start as int, i + 1) =~= t@.subrange(start as int, i as int).push(c));
            lemma_digits_value_push2(t@.subrange(start as int, i as int), c);
        }
        if v > (limit - dv) / 10 {
            proof {
                assert(v * 10 + dv > limit) by (nonlinear_arith)
                    requires v > (limit - dv) / 10, dv < 10;
                assert(d.subrange(0, i + 1 - start) =~= t@.subrange(start as int, i + 1));
                lemma_digits_value_prefix_le(d, i + 1 - start);
                if all_digits(d) {
                    assert(digits_value(d) > limit);
                }
                let sp: int = if t@.len() > 0 && (t@[0] == '-' || t@[0] == '+') { 1 } else { 0 };
                assert(sp == start);
                assert(t@.subrange(sp, t@.len() as int) == d);
            }
            return None;
        }
        assert(v * 10 + dv <= limit) by (nonlinear_arith)
            requires v <= (limit - dv) / 10, dv < 10;
        v = v * 10 + dv;
        i = i + 1;
    }
    proof {
        assert(t@.subrange(start as int, i as int) =~= d);
        assert(all_digits(d));
    }
    if neg {
        if v == 9223372036854775808u64 {
            Some(i64::MIN)
        } else {
            Some(-(v as i64))
        }
    } else {
        Some(v as i64)
    }
}

} // verus!
