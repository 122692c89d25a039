use crate::text::chars_of;
use vstd::prelude::*;
use vstd::string::*;

verus! {

/// Whether `c` is one of the ten decimal digits.
pub open spec fn is_digit(c: char) -> bool {
    '0' <= c && c <= '9'
}

/// The number that the digit `c` stands for; 0 for any other character.
pub open spec fn digit_of(c: char) -> nat {
    if is_digit(c) {
        (c as u32 - '0' as u32) as nat
    } else {
        0
    }
}

/// Whether every character of `s` is a decimal digit.
pub open spec fn all_digits(s: Seq<char>) -> bool {
    forall|i: int| 0 <= i < s.len() ==> is_digit(#[trigger] s[i])
}

/// The number that `s` denotes when read as decimal digits, most significant first.
pub open spec fn decimal_value(s: Seq<char>) -> nat
    decreases s.len(),
{
    if s.len() == 0 {
        0
    } else {
        10 * decimal_value(s.drop_last()) + digit_of(s.last())
    }
}

/// The integer that `s` denotes: an optional sign, then one decimal digit or more.
pub open spec fn signed_value(s: Seq<char>) -> Option<int> {
    if s.len() == 0 {
        None
    } else {
        let digits = if s[0] == '-' || s[0] == '+' {
            s.drop_first()
        } else {
            s
        };
        if digits.len() > 0 && all_digits(digits) {
            if s[0] == '-' {
                Some(-(decimal_value(digits) as int))
            } else {
                Some(decimal_value(digits) as int)
            }
        } else {
            None
        }
    }
}

/// The 64-bit signed integer that `s` denotes, where it denotes one.
pub open spec fn i64_value(s: Seq<char>) -> Option<i64> {
    match signed_value(s) {
        Some(v) => if i64::MIN <= v <= i64::MAX {
            Some(v as i64)
        } else {
            None
        },
        None => None,
    }
}

/// The 64-bit unsigned integer that `s` denotes as a JSON number: decimal
/// digits with no sign, no fraction, no exponent, and no zero in front of
/// another digit.
pub open spec fn json_u64_value(s: Seq<char>) -> Option<u64> {
    if s.len() > 0 && all_digits(s) && (s.len() == 1 || s[0] != '0') && decimal_value(s)
        <= u64::MAX {
        Some(decimal_value(s) as u64)
    } else {
        None
    }
}

/// What a text is when read as a floating-point literal.
#[derive(Debug, Clone, Copy, PartialEq, Eq)]
pub enum FloatText {
    /// A decimal number: digits with at most one point among them, and
    /// perhaps an exponent.
    Decimal,
    /// One of the words for an infinity or for what is no number.
    Special,
    /// No floating-point literal.
    Invalid,
}

/// Whether `c` is the letter `letter`, which is a small one, in either case.
pub open spec fn is_letter(c: char, letter: char) -> bool {
    c == letter || ('A' <= c && c <= 'Z' && c as u32 + 32 == letter as u32)
}

/// Whether `s` spells `word`, which is in small letters, in whatever case.
pub open spec fn spells(s: Seq<char>, word: Seq<char>) -> bool {
    s.len() == word.len() && forall|i: int| 0 <= i < s.len() ==> is_letter(#[trigger] s[i], word[i])
}

/// `s` without the sign at its front, where it has one.
pub open spec fn unsigned(s: Seq<char>) -> Seq<char> {
    if s.len() > 0 && (s[0] == '+' || s[0] == '-') {
        s.drop_first()
    } else {
        s
    }
}

/// How many characters at the front of `s` are digits or points.
pub open spec fn mantissa_len(s: Seq<char>) -> nat
    decreases s.len(),
{
    if s.len() > 0 && (is_digit(s[0]) || s[0] == '.') {
        1 + mantissa_len(s.drop_first())
    } else {
        0
    }
}

/// How many of the characters of `s` are points.
pub open spec fn points(s: Seq<char>) -> nat
    decreases s.len(),
{
    if s.len() == 0 {
        0
    } else if s.last() == '.' {
        points(s.drop_last()) + 1
    } else {
        points(s.drop_last())
    }
}

/// Whether `s` is an exponent without its letter: an optional sign, then
/// one digit or more.
pub open spec fn is_exponent(s: Seq<char>) -> bool {
    unsigned(s).len() > 0 && all_digits(unsigned(s))
}

/// Whether `s` is a decimal number without sign: digits with at most one
/// point before, among or after them, then perhaps `e` or `E` and an exponent.
pub open spec fn is_decimal(s: Seq<char>) -> bool {
    let m = mantissa_len(s) as int;
    let rest = s.skip(m);
    &&& points(s.take(m)) <= 1
    &&& points(s.take(m)) < m
    &&& (rest.len() == 0 || ((rest[0] == 'e' || rest[0] == 'E') && is_exponent(rest.drop_first())))
}

/// Whether `s` is, without sign, one of the words `inf`, `infinity` and
/// `nan`, in whatever case.
pub open spec fn is_special(s: Seq<char>) -> bool {
    spells(s, "inf"@) || spells(s, "infinity"@) || spells(s, "nan"@)
}

/// What `s` is when read as a floating-point literal: an optional sign,
/// then a special word or a decimal number.
pub open spec fn float_text(s: Seq<char>) -> FloatText {
    if is_special(unsigned(s)) {
        FloatText::Special
    } else if is_decimal(unsigned(s)) {
        FloatText::Decimal
    } else {
        FloatText::Invalid
    }
}

/// The decimal digits of `n`, most significant first, with no zero in front
/// unless `n` is 0.
pub open spec fn decimal_digits(n: nat) -> Seq<char>
    decreases n,
{
    if n < 10 {
        seq![digit_char(n)]
    } else {
        decimal_digits(n / 10).push(digit_char(n % 10))
    }
}

/// The character that writes the digit `d`.
pub open spec fn digit_char(d: nat) -> char {
    if d == 0 {
        '0'
    } else if d == 1 {
        '1'
    } else if d == 2 {
        '2'
    } else if d == 3 {
        '3'
    } else if d == 4 {
        '4'
    } else if d == 5 {
        '5'
    } else if d == 6 {
        '6'
    } else if d == 7 {
        '7'
    } else if d == 8 {
        '8'
    } else {
        '9'
    }
}

/// A number is at least what any of its leading digits denote.
pub proof fn lemma_decimal_value_prefix(s: Seq<char>, k: int)
    requires
        0 <= k <= s.len(),
    ensures
        decimal_value(s.take(k)) <= decimal_value(s),
    decreases s.len(),
{
    if k == s.len() {
        assert(s.take(k) =~= s);
    } else {
        lemma_decimal_value_prefix(s.drop_last(), k);
        assert(s.drop_last().take(k) =~= s.take(k));
    }
}

/// Reading the digits written for `n` gives `n` back.
pub proof fn lemma_decimal_round_trip(n: nat)
    ensures
        all_digits(decimal_digits(n)),
        decimal_digits(n).len() > 0,
        decimal_value(decimal_digits(n)) == n,
    decreases n,
{
    if n < 10 {
        let s = decimal_digits(n);
        assert(s.drop_last() =~= Seq::<char>::empty());
        assert(decimal_value(s.drop_last()) == 0);
    } else {
        lemma_decimal_round_trip(n / 10);
        let s = decimal_digits(n);
        assert(s.drop_last() =~= decimal_digits(n / 10));
    }
}

/// Reads `text` as a 64-bit signed integer in decimal: an optional `+` or
/// `-`, then digits only.
#[verifier::loop_isolation(false)]
pub fn parse_i64(text: &str) -> (value: Option<i64>)
    ensures
        value == i64_value(text@),
{
    let chars = chars_of(text);
    let n = chars.len();
    if n == 0 {
        return None;
    }
    let negative = chars[0] == '-';
    let first: usize = if negative || chars[0] == '+' {
        1
    } else {
        0
    };
    if first == n {
        return None;
    }
    let ghost digits = chars@.skip(first as int);
    assert(first == 1 ==> digits =~= chars@.drop_first());
    assert(first == 0 ==> digits =~= chars@);
    let limit: i128 = 0x8000_0000_0000_0000;
    let mut acc: i128 = 0;
    let mut i: usize = first;
    assert(digits.take(0) =~= Seq::<char>::empty());
    while i < n
        invariant
            first <= i <= n,
            n == chars@.len(),
            digits == chars@.skip(first as int),
            limit == 0x8000_0000_0000_0000,
            0 <= acc <= limit,
            acc == decimal_value(digits.take(i - first)),
            all_digits(digits.take(i - first)),
        decreases n - i,
    {
        let c = chars[i];
        if !('0' <= c && c <= '9') {
            assert(!is_digit(digits[i - first]));
            return None;
        }
        let d: i128 = (c as u32 - '0' as u32) as i128;
        proof {
            assert(digits.take(i - first + 1).drop_last() =~= digits.take(i - first));
            assert(digits.take(i - first + 1).last() == c);
            assert forall|j: int| 0 <= j < i - first + 1 implies is_digit(
                #[trigger] digits.take(i - first + 1)[j],
            ) by {
                if j < i - first {
                    assert(digits.take(i - first + 1)[j] == digits.take(i - first)[j]);
                }
            }
        }
        acc = acc * 10 + d;
        if acc > limit {
            proof {
                lemma_decimal_value_prefix(digits, i - first + 1);
            }
            return None;
        }
        i += 1;
    }
    assert(digits.take(n - first) =~= digits);
    if negative {
        Some((-acc) as i64)
    } else if acc < limit {
        Some(acc as i64)
    } else {
        None
    }
}

/// Whether `chars` from `start` on spell `word` in whatever case.
fn spells_word(chars: &Vec<char>, start: usize, word: &str) -> (same: bool)
    requires
        start <= chars.len(),
    ensures
        same == spells(chars@.skip(start as int), word@),
{
    let letters = chars_of(word);
    let n = chars.len();
    if n - start != letters.len() {
        return false;
    }
    let ghost body = chars@.skip(start as int);
    let mut i: usize = 0;
    while i < letters.len()
        invariant
            start <= n,
            n == chars@.len(),
            n - start == letters@.len(),
            letters@ == word@,
            body == chars@.skip(start as int),
            i <= letters@.len(),
            forall|j: int| 0 <= j < i ==> is_letter(#[trigger] body[j], letters@[j]),
        decreases letters.len() - i,
    {
        let c = chars[start + i];
        let letter = letters[i];
        assert(c == body[i as int]);
        let same = c == letter || ('A' <= c && c <= 'Z' && c as u32 + 32 == letter as u32);
        if !same {
            return false;
        }
        i += 1;
    }
    true
}

/// Where the digits and points that `chars` hold from `start` on end, and
/// how many of them are points.
fn scan_mantissa(chars: &Vec<char>, start: usize) -> (found: (usize, usize))
    requires
        start <= chars.len(),
    ensures
        start <= found.0 <= chars.len(),
        found.0 - start == mantissa_len(chars@.skip(start as int)),
        found.1 == points(chars@.skip(start as int).take(found.0 - start)),
        found.1 <= found.0 - start,
{
    let n = chars.len();
    let ghost body = chars@.skip(start as int);
    let mut i: usize = start;
    let mut dots: usize = 0;
    assert(body.skip(0) =~= body);
    assert(body.take(0) =~= Seq::<char>::empty());
    while i < n && (('0' <= chars[i] && chars[i] <= '9') || chars[i] == '.')
        invariant
            start <= i <= n,
            n == chars@.len(),
            body == chars@.skip(start as int),
            dots <= i - start,
            mantissa_len(body) == (i - start) + mantissa_len(body.skip(i - start)),
            dots == points(body.take(i - start)),
        decreases n - i,
    {
        proof {
            assert(body.skip(i - start)[0] == chars@[i as int]);
            assert(body.skip(i - start).drop_first() =~= body.skip(i - start + 1));
            assert(body.take(i - start + 1).drop_last() =~= body.take(i - start));
            assert(body.take(i - start + 1).last() == chars@[i as int]);
        }
        if chars[i] == '.' {
            dots += 1;
        }
        i += 1;
    }
    proof {
        if i < n {
            assert(body.skip(i - start)[0] == chars@[i as int]);
        }
    }
    (i, dots)
}

/// Whether `chars` from `start` on are an exponent without its letter.
fn exponent_follows(chars: &Vec<char>, start: usize) -> (ok: bool)
    requires
        start <= chars.len(),
    ensures
        ok == is_exponent(chars@.skip(start as int)),
{
    let n = chars.len();
    let ghost tail = chars@.skip(start as int);
    let first: usize = if start < n && (chars[start] == '+' || chars[start] == '-') {
        start + 1
    } else {
        start
    };
    let ghost digits = chars@.skip(first as int);
    assert(digits =~= unsigned(tail));
    if first == n {
        return false;
    }
    let mut j: usize = first;
    while j < n
        invariant
            first <= j <= n,
            n == chars@.len(),
            digits == chars@.skip(first as int),
            digits == unsigned(chars@.skip(start as int)),
            forall|k: int| 0 <= k < j - first ==> is_digit(#[trigger] digits[k]),
        decreases n - j,
    {
        let c = chars[j];
        assert(c == digits[j - first]);
        if !('0' <= c && c <= '9') {
            return false;
        }
        j += 1;
    }
    true
}

/// What `text` is when read as a floating-point literal.
pub fn classify_float(text: &str) -> (kind: FloatText)
    ensures
        kind == float_text(text@),
{
    let chars = chars_of(text);
    let n = chars.len();
    let start: usize = if n > 0 && (chars[0] == '+' || chars[0] == '-') {
        1
    } else {
        0
    };
    let ghost body = chars@.skip(start as int);
    assert(body =~= unsigned(text@));
    if spells_word(&chars, start, "inf") || spells_word(&chars, start, "infinity") || spells_word(
        &chars,
        start,
        "nan",
    ) {
        return FloatText::Special;
    }
    let (end, dots) = scan_mantissa(&chars, start);
    let ghost rest = body.skip(end - start);
    if dots > 1 || dots >= end - start {
        return FloatText::Invalid;
    }
    if end == n {
        return FloatText::Decimal;
    }
    assert(rest[0] == chars@[end as int]);
    if !(chars[end] == 'e' || chars[end] == 'E') {
        return FloatText::Invalid;
    }
    assert(rest.drop_first() =~= chars@.skip(end + 1));
    if exponent_follows(&chars, end + 1) {
        FloatText::Decimal
    } else {
        FloatText::Invalid
    }
}

/// The text of the decimal digit `d`.
fn digit_str(d: usize) -> (out: &'static str)
    requires
        d < 10,
    ensures
        out@ == seq![digit_char(d as nat)],
{
    proof {
        reveal_strlit("0");
        reveal_strlit("1");
        reveal_strlit("2");
        reveal_strlit("3");
        reveal_strlit("4");
        reveal_strlit("5");
        reveal_strlit("6");
        reveal_strlit("7");
        reveal_strlit("8");
        reveal_strlit("9");
    }
    let out = if d == 0 {
        "0"
    } else if d == 1 {
        "1"
    } else if d == 2 {
        "2"
    } else if d == 3 {
        "3"
    } else if d == 4 {
        "4"
    } else if d == 5 {
        "5"
    } else if d == 6 {
        "6"
    } else if d == 7 {
        "7"
    } else if d == 8 {
        "8"
    } else {
        "9"
    };
    assert(out@ =~= seq![digit_char(d as nat)]);
    out
}

/// Writes `n` in decimal.
pub fn decimal_string(n: usize) -> (out: String)
    ensures
        out@ == decimal_digits(n as nat),
    decreases n,
{
    if n < 10 {
        String::from_str(digit_str(n))
    } else {
        let front = decimal_string(n / 10);
        let out = front.concat(digit_str(n % 10));
        assert(out@ =~= decimal_digits(n as nat));
        out
    }
}

/// Reads `text` as a JSON number with `serde_json`'s `FromStr` for `Number`,
/// and keeps it where `Number::as_u64` holds it as an unsigned integer. The
/// contract claims that this is so exactly for decimal digits without sign,
/// fraction or exponent, with no zero in front of another digit, whose value
/// fits in 64 bits, and that the value is the one the digits denote.
#[verifier::external_body]
pub(crate) fn json_u64(text: &str) -> (value: Option<u64>)
    ensures
        value == json_u64_value(text@),
{
    match text.parse::<serde_json::Number>() {
        Ok(number) => number.as_u64(),
        Err(_) => None,
    }
}

} // verus!
