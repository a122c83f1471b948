//! Lexical level of the MiniC grammar: white space, keywords, identifiers
//! and literals. Every scanner works on the characters of the source and a
//! position in them, and returns the position after what it recognised.
use vstd::prelude::*;
use crate::text::{
    char_is_alphabetic, char_is_alphanumeric, digit_value, digits_value, is_alphabetic, is_alphanumeric,
    is_digit, string_of,
};

verus! {

/// A parse failure at a position of the input.
#[derive(Debug, PartialEq, Eq, Structural, Clone, Copy)]
pub struct ParseError {
    pub position: usize,
}

/// The result of a parser: the position after the recognised text, and the
/// value built from it.
pub type PResult<T> = Result<(usize, T), ParseError>;

/// White space as the grammar skips it: space, tab, carriage return, newline.
pub open spec fn is_ws(c: char) -> bool {
    c == ' ' || c == '\t' || c == '\r' || c == '\n'
}

pub open spec fn is_ident_start(c: char) -> bool {
    is_alphabetic(c) || c == '_'
}

pub open spec fn is_ident_char(c: char) -> bool {
    is_alphanumeric(c) || c == '_'
}

/// `r` ends the longest run of white space that starts at `i`.
pub open spec fn ws_run(s: Seq<char>, i: int, r: int) -> bool {
    &&& i <= r <= s.len()
    &&& forall|k: int| i <= k < r ==> is_ws(#[trigger] s[k])
    &&& (r == s.len() || !is_ws(s[r]))
}

/// `r` ends the longest run of digits that starts at `i`.
pub open spec fn digit_run(s: Seq<char>, i: int, r: int) -> bool {
    &&& i <= r <= s.len()
    &&& forall|k: int| i <= k < r ==> is_digit(#[trigger] s[k])
    &&& (r == s.len() || !is_digit(s[r]))
}

/// `r` ends the longest run of identifier characters that starts at `i`.
pub open spec fn ident_run(s: Seq<char>, i: int, r: int) -> bool {
    &&& i <= r <= s.len()
    &&& forall|k: int| i <= k < r ==> is_ident_char(#[trigger] s[k])
    &&& (r == s.len() || !is_ident_char(s[r]))
}

/// The text `t` stands in `s` at position `i`.
pub open spec fn has_at(s: Seq<char>, i: int, t: Seq<char>) -> bool {
    0 <= i && i + t.len() <= s.len() && s.subrange(i, i + t.len()) == t
}

/// The word `t` stands at `i` and is not followed by an identifier character.
pub open spec fn keyword_at(s: Seq<char>, i: int, t: Seq<char>) -> bool {
    has_at(s, i, t) && (i + t.len() == s.len() || !is_ident_char(s[i + t.len()]))
}

/// Skips white space.
pub fn skip_ws(s: &Vec<char>, pos: usize) -> (r: usize)
    requires
        pos <= s.len(),
    ensures
        ws_run(s@, pos as int, r as int),
{
    let mut i: usize = pos;
    while i < s.len() && (s[i] == ' ' || s[i] == '\t' || s[i] == '\r' || s[i] == '\n')
        invariant
            pos <= i <= s.len(),
            forall|k: int| pos <= k < i ==> is_ws(#[trigger] s@[k]),
        decreases s.len() - i,
    {
        i = i + 1;
    }
    i
}

/// Whether `c` is an ASCII digit.
pub fn is_digit_char(c: char) -> (r: bool)
    ensures
        r == is_digit(c),
{
    '0' <= c && c <= '9'
}

/// Whether `c` may continue an identifier.
pub fn ident_char(c: char) -> (r: bool)
    ensures
        r == is_ident_char(c),
{
    c == '_' || char_is_alphanumeric(c)
}

/// Skips ASCII digits.
pub fn skip_digits(s: &Vec<char>, pos: usize) -> (r: usize)
    requires
        pos <= s.len(),
    ensures
        digit_run(s@, pos as int, r as int),
{
    let mut i: usize = pos;
    while i < s.len() && '0' <= s[i] && s[i] <= '9'
        invariant
            pos <= i <= s.len(),
            forall|k: int| pos <= k < i ==> is_digit(#[trigger] s@[k]),
        decreases s.len() - i,
    {
        i = i + 1;
    }
    i
}

/// Skips identifier characters.
pub fn skip_ident_chars(s: &Vec<char>, pos: usize) -> (r: usize)
    requires
        pos <= s.len(),
    ensures
        ident_run(s@, pos as int, r as int),
{
    let mut i: usize = pos;
    while i < s.len() && (s[i] == '_' || char_is_alphanumeric(s[i]))
        invariant
            pos <= i <= s.len(),
            forall|k: int| pos <= k < i ==> is_ident_char(#[trigger] s@[k]),
        decreases s.len() - i,
    {
        i = i + 1;
    }
    i
}

/// Whether the text `t` stands at position `pos`.
pub fn tag_at(s: &Vec<char>, pos: usize, t: &str) -> (r: bool)
    requires
        pos <= s.len(),
    ensures
        r == has_at(s@, pos as int, t@),
{
    let n = t.unicode_len();
    if n > s.len() - pos {
        return false;
    }
    let mut k: usize = 0;
    while k < n
        invariant
            n == t@.len(),
            pos + n <= s.len(),
            k <= n,
            forall|j: int| 0 <= j < k ==> s@[pos + j] == t@[j],
        decreases n - k,
    {
        if s[pos + k] != t.get_char(k) {
            assert(s@.subrange(pos as int, pos + n)[k as int] != t@[k as int]);
            return false;
        }
        k = k + 1;
    }
    assert(s@.subrange(pos as int, pos + n) =~= t@);
    true
}

/// Whether the word `t` stands at `pos`, not followed by an identifier character.
pub fn keyword(s: &Vec<char>, pos: usize, t: &str) -> (r: bool)
    requires
        pos <= s.len(),
    ensures
        r == keyword_at(s@, pos as int, t@),
{
    if !tag_at(s, pos, t) {
        return false;
    }
    let e = pos + t.unicode_len();
    e == s.len() || !(s[e] == '_' || char_is_alphanumeric(s[e]))
}

/// The end of the text `t` when it stands at `pos`.
pub fn tag_end(s: &Vec<char>, pos: usize, t: &str) -> (r: Option<usize>)
    requires
        pos <= s.len(),
    ensures
        r is Some <==> has_at(s@, pos as int, t@),
        r matches Some(e) ==> e == pos + t@.len() && e <= s.len(),
{
    if tag_at(s, pos, t) {
        Some(pos + t.unicode_len())
    } else {
        None
    }
}

/// The end of the word `t` when it stands at `pos`, not followed by an
/// identifier character.
pub fn keyword_end(s: &Vec<char>, pos: usize, t: &str) -> (r: Option<usize>)
    requires
        pos <= s.len(),
    ensures
        r is Some <==> keyword_at(s@, pos as int, t@),
        r matches Some(e) ==> e == pos + t@.len() && e <= s.len(),
{
    if keyword(s, pos, t) {
        Some(pos + t.unicode_len())
    } else {
        None
    }
}

/// Whether the characters `v` spell the string `t`.
pub fn chars_eq_str(v: &Vec<char>, t: &str) -> (r: bool)
    ensures
        r == (v@ == t@),
{
    let n = t.unicode_len();
    if n != v.len() {
        return false;
    }
    let mut k: usize = 0;
    while k < n
        invariant
            n == t@.len(),
            n == v.len(),
            k <= n,
            forall|j: int| 0 <= j < k ==> v@[j] == t@[j],
        decreases n - k,
    {
        if v[k] != t.get_char(k) {
            return false;
        }
        k = k + 1;
    }
    assert(v@ =~= t@);
    true
}

/// Words that cannot be identifiers: the boolean literals, the type names
/// and the keywords `return`, `assert` and `test`.
pub open spec fn is_reserved(w: Seq<char>) -> bool {
    ||| w == "true"@
    ||| w == "false"@
    ||| w == "int"@
    ||| w == "float"@
    ||| w == "bool"@
    ||| w == "str"@
    ||| w == "void"@
    ||| w == "return"@
    ||| w == "assert"@
    ||| w == "test"@
}

/// Decides `is_reserved`.
pub fn reserved(w: &Vec<char>) -> (r: bool)
    ensures
        r == is_reserved(w@),
{
    chars_eq_str(w, "true") || chars_eq_str(w, "false") || chars_eq_str(w, "int")
        || chars_eq_str(w, "float") || chars_eq_str(w, "bool") || chars_eq_str(w, "str")
        || chars_eq_str(w, "void") || chars_eq_str(w, "return") || chars_eq_str(w, "assert")
        || chars_eq_str(w, "test")
}

/// The copy of `s[from..to]`.
pub fn slice_chars(s: &Vec<char>, from: usize, to: usize) -> (r: Vec<char>)
    requires
        from <= to <= s.len(),
    ensures
        r@ == s@.subrange(from as int, to as int),
{
    let mut r: Vec<char> = Vec::new();
    let mut i: usize = from;
    while i < to
        invariant
            from <= i <= to <= s.len(),
            r@ == s@.subrange(from as int, i as int),
        decreases to - i,
    {
        r.push(s[i]);
        assert(r@ =~= s@.subrange(from as int, i + 1));
        i = i + 1;
    }
    r
}

/// Identifier at `i`: a letter or `_`, then letters, digits or `_`, and not a
/// reserved word. Gives the end of the identifier.
pub open spec fn ident_at(s: Seq<char>, i: int, r: int) -> bool {
    &&& 0 <= i < s.len()
    &&& is_ident_start(s[i])
    &&& ident_run(s, i + 1, r)
    &&& !is_reserved(s.subrange(i, r))
}

/// Parses an identifier at `pos` (no leading white space is skipped).
pub fn identifier_at(s: &Vec<char>, pos: usize) -> (r: PResult<String>)
    requires
        pos <= s.len(),
    ensures
        r is Ok <==> exists|e: int| ident_at(s@, pos as int, e),
        r matches Ok((e, w)) ==> ident_at(s@, pos as int, e as int) && w@ == s@.subrange(pos as int, e as int),
{
    if pos >= s.len() || !(s[pos] == '_' || char_is_alphabetic(s[pos])) {
        return Err(ParseError { position: pos });
    }
    let e = skip_ident_chars(s, pos + 1);
    let w = slice_chars(s, pos, e);
    if reserved(&w) {
        proof {
            assert forall|e2: int| !ident_at(s@, pos as int, e2) by {
                if ident_run(s@, pos + 1, e2) {
                    lemma_run_unique_ident(s@, pos + 1, e as int, e2);
                }
            }
        }
        return Err(ParseError { position: pos });
    }
    assert(ident_at(s@, pos as int, e as int));
    Ok((e, string_of(&w)))
}

proof fn lemma_run_unique_ident(s: Seq<char>, i: int, a: int, b: int)
    requires
        ident_run(s, i, a),
        ident_run(s, i, b),
    ensures
        a == b,
{
    if a < b {
        assert(is_ident_char(s[a]));
    } else if b < a {
        assert(is_ident_char(s[b]));
    }
}

proof fn lemma_run_unique_digit(s: Seq<char>, i: int, a: int, b: int)
    requires
        digit_run(s, i, a),
        digit_run(s, i, b),
    ensures
        a == b,
{
    if a < b {
        assert(is_digit(s[a]));
    } else if b < a {
        assert(is_digit(s[b]));
    }
}

/// Integer literal at `i`: an optional `-`, a run of digits, not followed by
/// `.` and a digit, whose value fits in `i64`. Gives the end and the value.
pub open spec fn int_lit_at(s: Seq<char>, i: int, r: int, v: int) -> bool {
    let neg = 0 <= i < s.len() && s[i] == '-';
    let start = if neg { i + 1 } else { i };
    let mag = digits_value(s.subrange(start, r));
    &&& 0 <= i <= s.len()
    &&& digit_run(s, start, r)
    &&& r > start
    &&& !(r + 1 < s.len() && s[r] == '.' && is_digit(s[r + 1]))
    &&& mag <= i64::MAX
    &&& v == if neg { -mag } else { mag as int }
}

proof fn lemma_digits_value_push(d: Seq<char>, c: char)
    ensures
        digits_value(d.push(c)) == digits_value(d) * 10 + digit_value(c),
{
    assert(d.push(c).drop_last() =~= d);
}

proof fn lemma_digits_value_monotone(d: Seq<char>, k: int)
    requires
        0 <= k <= d.len(),
    ensures
        digits_value(d.subrange(0, k)) <= digits_value(d),
    decreases d.len() - k,
{
    if k < d.len() {
        lemma_digits_value_monotone(d, k + 1);
        let a = d.subrange(0, k);
        assert(d.subrange(0, k + 1) =~= a.push(d[k]));
        lemma_digits_value_push(a, d[k]);
        assert(digits_value(a) <= digits_value(a) * 10) by (nonlinear_arith);
    } else {
        assert(d.subrange(0, k) =~= d);
    }
}

/// Parses an integer literal at `pos`.
pub fn integer_at(s: &Vec<char>, pos: usize) -> (r: PResult<i64>)
    requires
        pos <= s.len(),
    ensures
        r is Ok <==> exists|e: int, v: int| int_lit_at(s@, pos as int, e, v),
        r matches Ok((e, v)) ==> int_lit_at(s@, pos as int, e as int, v as int),
{
    let neg = pos < s.len() && s[pos] == '-';
    let start = if neg { pos + 1 } else { pos };
    let e = skip_digits(s, start);
    if e == start {
        proof {
            assert forall|e2: int, v2: int| !int_lit_at(s@, pos as int, e2, v2) by {
                if digit_run(s@, start as int, e2) {
                    lemma_run_unique_digit(s@, start as int, e as int, e2);
                }
            }
        }
        return Err(ParseError { position: pos });
    }
    if e < s.len() && s[e] == '.' && e + 1 < s.len() && '0' <= s[e + 1] && s[e + 1] <= '9' {
        proof {
            assert forall|e2: int, v2: int| !int_lit_at(s@, pos as int, e2, v2) by {
                if digit_run(s@, start as int, e2) {
                    lemma_run_unique_digit(s@, start as int, e as int, e2);
                }
            }
        }
        return Err(ParseError { position: pos });
    }
    let ghost d = s@.subrange(start as int, e as int);
    let mut v: u64 = 0;
    let mut i: usize = start;
    while i < e
        invariant
            start <= i <= e <= s.len(),
            d == s@.subrange(start as int, e as int),
            digit_run(s@, start as int, e as int),
            start == (if neg { pos + 1 } else { pos as int }),
            neg == (pos < s.len() && s@[pos as int] == '-'),
            e > start,
            !(e + 1 < s.len() && s@[e as int] == '.' && is_digit(s@[e + 1])),
            v as nat == digits_value(s@.subrange(start as int, i as int)),
            v <= i64::MAX,
        decreases e - i,
    {
        let dv = (s[i] as u32 - '0' as u32) as u64;
        proof {
            assert(s@.subrange(start as int, i + 1) =~= s@.subrange(start as int, i as int).push(s@[i as int]));
            lemma_digits_value_push(s@.subrange(start as int, i as int), s@[i as int]);
            assert(d.subrange(0, i + 1 - start) =~= s@.subrange(start as int, i + 1));
            lemma_digits_value_monotone(d, i + 1 - start);
        }
        if v > (9223372036854775807u64 - dv) / 10 {
            proof {
                assert(v * 10 + dv > 9223372036854775807) by (nonlinear_arith)
                    requires v > (9223372036854775807u64 - dv) / 10, dv < 10;
                assert forall|e2: int, v2: int| !int_lit_at(s@, pos as int, e2, v2) by {
                    if digit_run(s@, start as int, e2) {
                        lemma_run_unique_digit(s@, start as int, e as int, e2);
                    }
                }
            }
            return Err(ParseError { position: pos });
        }
        assert(v * 10 + dv <= 9223372036854775807) by (nonlinear_arith)
            requires v <= (9223372036854775807u64 - dv) / 10, dv < 10;
        v = v * 10 + dv;
        i = i + 1;
    }
    let value: i64 = if neg { -(v as i64) } else { v as i64 };
    assert(int_lit_at(s@, pos as int, e as int, value as int));
    Ok((e, value))
}

/// A character that may follow a backslash in a string literal, and what it stands for.
pub open spec fn escape_of(c: char) -> Option<char> {
    if c == '\\' {
        Some('\\')
    } else if c == '"' {
        Some('"')
    } else if c == 'n' {
        Some('\n')
    } else if c == 't' {
        Some('\t')
    } else {
        None
    }
}

/// The body of a string literal that starts at `i` (just after the opening
/// quote): its decoded characters and the position after the closing quote.
pub open spec fn string_body(s: Seq<char>, i: int) -> Option<(Seq<char>, int)>
    decreases s.len() - i,
{
    if i < 0 || i >= s.len() {
        None
    } else if s[i] == '"' {
        Some((Seq::empty(), i + 1))
    } else if s[i] == '\\' {
        if i + 1 < s.len() && escape_of(s[i + 1]) is Some {
            match string_body(s, i + 2) {
                Some((t, e)) => Some((seq![escape_of(s[i + 1])->0] + t, e)),
                None => None,
            }
        } else {
            None
        }
    } else {
        match string_body(s, i + 1) {
            Some((t, e)) => Some((seq![s[i]] + t, e)),
            None => None,
        }
    }
}

/// A string literal at `i`: a quote, the body, and the closing quote.
pub open spec fn string_lit_at(s: Seq<char>, i: int) -> Option<(Seq<char>, int)> {
    if 0 <= i < s.len() && s[i] == '"' {
        string_body(s, i + 1)
    } else {
        None
    }
}

proof fn lemma_string_body_bound(s: Seq<char>, i: int)
    ensures
        string_body(s, i) matches Some((t, e)) ==> i < e <= s.len(),
    decreases s.len() - i,
{
    if 0 <= i < s.len() && s[i] != '"' {
        if s[i] == '\\' {
            if i + 1 < s.len() {
                lemma_string_body_bound(s, i + 2);
            }
        } else {
            lemma_string_body_bound(s, i + 1);
        }
    }
}

/// Parses a string literal at `pos`; the value is the decoded text.
pub fn string_at(s: &Vec<char>, pos: usize) -> (r: PResult<String>)
    requires
        pos <= s.len(),
    ensures
        r is Ok <==> string_lit_at(s@, pos as int) is Some,
        r matches Ok((e, t)) ==> string_lit_at(s@, pos as int) == Some((t@, e as int)) && pos < e <= s.len(),
{
    proof {
        lemma_string_body_bound(s@, pos + 1);
    }
    if pos >= s.len() || s[pos] != '"' {
        return Err(ParseError { position: pos });
    }
    // decode forwards, keeping the suffix relation
    let mut out: Vec<char> = Vec::new();
    let mut i = pos + 1;
    loop
        invariant
            pos + 1 <= i <= s.len(),
            s@[pos as int] == '"',
            // the result from `i` determines the whole result
            string_body(s@, (pos + 1) as int) == (match string_body(s@, i as int) {
                Some((t, e)) => Some((out@ + t, e)),
                None => None,
            }),
        decreases s.len() - i,
    {
        if i >= s.len() {
            return Err(ParseError { position: pos });
        }
        let c = s[i];
        if c == '"' {
            assert(out@ + Seq::<char>::empty() =~= out@);
            return Ok((i + 1, string_of(&out)));
        }
        if c == '\\' {
            if i + 1 >= s.len() {
                return Err(ParseError { position: pos });
            }
            let n = s[i + 1];
            let decoded = if n == '\\' {
                '\\'
            } else if n == '"' {
                '"'
            } else if n == 'n' {
                '\n'
            } else if n == 't' {
                '\t'
            } else {
                return Err(ParseError { position: pos });
            };
            let ghost old_out = out@;
            out.push(decoded);
            proof {
                match string_body(s@, i + 2) {
                    Some((t, e)) => {
                        assert(old_out + (seq![decoded] + t) =~= out@ + t);
                    },
                    None => {},
                }
            }
            i = i + 2;
        } else {
            let ghost old_out = out@;
            out.push(c);
            proof {
                match string_body(s@, i + 1) {
                    Some((t, e)) => {
                        assert(old_out + (seq![c] + t) =~= out@ + t);
                    },
                    None => {},
                }
            }
            i = i + 1;
        }
    }
}

/// Parses `true` or `false` at `pos` (as a prefix of the input).
pub fn boolean_at(s: &Vec<char>, pos: usize) -> (r: PResult<bool>)
    requires
        pos <= s.len(),
    ensures
        r is Ok <==> (has_at(s@, pos as int, "true"@) || has_at(s@, pos as int, "false"@)),
        r matches Ok((e, b)) ==> (if b {
            has_at(s@, pos as int, "true"@) && e == pos + "true"@.len()
        } else {
            !has_at(s@, pos as int, "true"@) && has_at(s@, pos as int, "false"@) && e == pos
                + "false"@.len()
        }),
{
    if tag_at(s, pos, "true") {
        Ok((pos + "true".unicode_len(), true))
    } else if tag_at(s, pos, "false") {
        Ok((pos + "false".unicode_len(), false))
    } else {
        Err(ParseError { position: pos })
    }
}

/// End of the digits of a float mantissa at `i` (after an optional sign):
/// `digits ['.' [digits]]` or `'.' digits`.
pub open spec fn mantissa_end(s: Seq<char>, i: int, r: int) -> bool {
    exists|d1: int| #![trigger digit_run(s, i, d1)]
        digit_run(s, i, d1) && (if d1 < s.len() && s[d1] == '.' {
            exists|d2: int| #![trigger digit_run(s, d1 + 1, d2)]
                digit_run(s, d1 + 1, d2) && (d1 > i || d2 > d1 + 1) && r == d2
        } else {
            d1 > i && r == d1
        })
}

/// Position after an optional `+` or `-` at `i`.
pub open spec fn after_sign(s: Seq<char>, i: int) -> int {
    if 0 <= i < s.len() && (s[i] == '+' || s[i] == '-') {
        i + 1
    } else {
        i
    }
}

/// The exponent part of a float that starts at `m`, if any: `e`/`E`, an
/// optional sign, at least one digit. `Some(Some(r))`: exponent ending at `r`;
/// `Some(None)`: no exponent; `None`: an `e` without digits.
pub open spec fn exponent_part(s: Seq<char>, m: int, r: int) -> bool {
    if 0 <= m < s.len() && (s[m] == 'e' || s[m] == 'E') {
        digit_run(s, after_sign(s, m + 1), r) && r > after_sign(s, m + 1)
    } else {
        r == m
    }
}

/// A floating-point literal at `i`: optional sign, mantissa, and an optional
/// exponent `e`/`E`, optional sign, digits (an `e` must be followed by digits).
pub open spec fn float_lit_at(s: Seq<char>, i: int, r: int) -> bool {
    &&& 0 <= i <= s.len()
    &&& exists|m: int| #![trigger mantissa_end(s, after_sign(s, i), m)]
        mantissa_end(s, after_sign(s, i), m) && exponent_part(s, m, r)
}

/// Parses a floating-point literal at `pos`; the value is its text.
pub fn float_at(s: &Vec<char>, pos: usize) -> (r: PResult<String>)
    requires
        pos <= s.len(),
    ensures
        r matches Ok((e, t)) ==> float_lit_at(s@, pos as int, e as int) && t@ == s@.subrange(pos as int, e as int),
        r is Err ==> forall|e: int| !float_lit_at(s@, pos as int, e),
{
    let start = if pos < s.len() && (s[pos] == '+' || s[pos] == '-') { pos + 1 } else { pos };
    let d1 = skip_digits(s, start);
    let m;
    if d1 < s.len() && s[d1] == '.' {
        let d2 = skip_digits(s, d1 + 1);
        if d1 == start && d2 == d1 + 1 {
            proof { lemma_no_mantissa(s@, pos as int, start as int, d1 as int, d2 as int); }
            return Err(ParseError { position: pos });
        }
        m = d2;
        assert(mantissa_end(s@, start as int, m as int));
    } else {
        if d1 == start {
            proof { lemma_no_mantissa(s@, pos as int, start as int, d1 as int, d1 as int); }
            return Err(ParseError { position: pos });
        }
        m = d1;
        assert(mantissa_end(s@, start as int, m as int));
    }
    proof { lemma_mantissa_unique(s@, start as int, m as int); }
    let mut e: usize = m;
    if m < s.len() && (s[m] == 'e' || s[m] == 'E') {
        let es = if m + 1 < s.len() && (s[m + 1] == '+' || s[m + 1] == '-') { m + 2 } else { m + 1 };
        let x = skip_digits(s, es);
        if x == es {
            proof {
                assert forall|e2: int| !float_lit_at(s@, pos as int, e2) by {
                    if exponent_part(s@, m as int, e2) {
                        lemma_run_unique_digit(s@, es as int, x as int, e2);
                    }
                }
            }
            return Err(ParseError { position: pos });
        }
        e = x;
    }
    assert(exponent_part(s@, m as int, e as int));
    assert(start == after_sign(s@, pos as int));
    assert(mantissa_end(s@, after_sign(s@, pos as int), m as int));
    assert(float_lit_at(s@, pos as int, e as int));
    let t = slice_chars(s, pos, e);
    Ok((e, string_of(&t)))
}

proof fn lemma_mantissa_unique(s: Seq<char>, i: int, m: int)
    requires
        mantissa_end(s, i, m),
    ensures
        forall|m2: int| mantissa_end(s, i, m2) ==> m2 == m,
{
    assert forall|m2: int| mantissa_end(s, i, m2) implies m2 == m by {
        let d1 = choose|d1: int| #![trigger digit_run(s, i, d1)] digit_run(s, i, d1) && (if d1 < s.len() && s[d1] == '.' {
            exists|d2: int| #![trigger digit_run(s, d1 + 1, d2)]
                digit_run(s, d1 + 1, d2) && (d1 > i || d2 > d1 + 1) && m == d2
        } else {
            d1 > i && m == d1
        });
        let d1b = choose|d1: int| #![trigger digit_run(s, i, d1)] digit_run(s, i, d1) && (if d1 < s.len() && s[d1] == '.' {
            exists|d2: int| #![trigger digit_run(s, d1 + 1, d2)]
                digit_run(s, d1 + 1, d2) && (d1 > i || d2 > d1 + 1) && m2 == d2
        } else {
            d1 > i && m2 == d1
        });
        lemma_run_unique_digit(s, i, d1, d1b);
        if d1 < s.len() && s[d1] == '.' {
            let d2 = choose|d2: int| #![trigger digit_run(s, d1 + 1, d2)]
                digit_run(s, d1 + 1, d2) && (d1 > i || d2 > d1 + 1) && m == d2;
            let d2b = choose|d2: int| #![trigger digit_run(s, d1 + 1, d2)]
                digit_run(s, d1 + 1, d2) && (d1 > i || d2 > d1 + 1) && m2 == d2;
            lemma_run_unique_digit(s, d1 + 1, d2, d2b);
        }
    }
}

proof fn lemma_no_mantissa(s: Seq<char>, pos: int, start: int, d1: int, d2: int)
    requires
        digit_run(s, start, d1),
        d1 == start,
        d1 < s.len() && s[d1] == '.' ==> digit_run(s, d1 + 1, d2) && d2 == d1 + 1,
        start == after_sign(s, pos),
        0 <= pos <= s.len(),
    ensures
        forall|e: int| !float_lit_at(s, pos, e),
{
    assert forall|m: int| #![trigger mantissa_end(s, start, m)] !mantissa_end(s, start, m) by {
        assert forall|x1: int| #[trigger] digit_run(s, start, x1) implies x1 == d1 by {
            lemma_run_unique_digit(s, start, d1, x1);
        }
        if d1 < s.len() && s[d1] == '.' {
            assert forall|x2: int| #[trigger] digit_run(s, d1 + 1, x2) implies x2 == d2 by {
                lemma_run_unique_digit(s, d1 + 1, d2, x2);
            }
        }
    }
}

} // verus!
