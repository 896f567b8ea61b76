//! Helpers on strings, stated over their characters.

use vstd::prelude::*;

use crate::naming::lowered;

verus! {

/// The characters of each string of `items`.
pub open spec fn texts(items: Seq<String>) -> Seq<Seq<char>> {
    Seq::new(items.len(), |i: int| items[i]@)
}

/// The characters of each string slice of `items`.
pub open spec fn slices(items: Seq<&str>) -> Seq<Seq<char>> {
    Seq::new(items.len(), |i: int| items[i]@)
}

/// The characters of an optional string.
pub open spec fn optional_text(text: Option<String>) -> Option<Seq<char>> {
    match text {
        Some(t) => Some(t@),
        None => None,
    }
}

/// Whether `text` ends with `suffix`.
pub open spec fn has_suffix(text: Seq<char>, suffix: Seq<char>) -> bool {
    suffix.len() <= text.len() && text.subrange(text.len() - suffix.len(), text.len() as int)
        == suffix
}

/// Whether `c` is one of the ten ASCII digits.
pub open spec fn is_digit(c: char) -> bool {
    48 <= c as u32 <= 57
}

/// Whether `text` holds ASCII digits only.
pub open spec fn all_digits(text: Seq<char>) -> bool {
    forall|i: int| 0 <= i < text.len() ==> is_digit(#[trigger] text[i])
}

/// The number that the decimal digits of `text` write, most significant digit first.
pub open spec fn digits_value(text: Seq<char>) -> nat
    decreases text.len(),
{
    if text.len() == 0 {
        0
    } else {
        (digits_value(text.drop_last()) * 10 + (text.last() as u32 - 48)) as nat
    }
}

/// The number that `text` writes as digits, where it is at least one digit, nothing but
/// digits, and the number is at most `limit`.
pub open spec fn magnitude(text: Seq<char>, limit: nat) -> Option<nat> {
    if text.len() > 0 && all_digits(text) && digits_value(text) <= limit {
        Some(digits_value(text))
    } else {
        None
    }
}

/// The integer between `low` and `high` that `text` writes in decimal: an optional `+`, or
/// an optional `-` where `low` is negative, followed by at least one digit. Spaces, an empty
/// text, a lone sign and a number out of the range all give `None`.
pub open spec fn decimal(text: Seq<char>, low: int, high: int) -> Option<int>
    recommends
        low <= 0 <= high,
{
    if text.len() > 0 && text[0] == '+' {
        match magnitude(text.drop_first(), high as nat) {
            Some(n) => Some(n as int),
            None => None,
        }
    } else if text.len() > 0 && text[0] == '-' && low < 0 {
        match magnitude(text.drop_first(), (-low) as nat) {
            Some(n) => Some(-(n as int)),
            None => None,
        }
    } else {
        match magnitude(text, high as nat) {
            Some(n) => Some(n as int),
            None => None,
        }
    }
}

/// A run of digits writes at least as much as any of its prefixes.
pub proof fn lemma_digits_value_grows(text: Seq<char>, k: int)
    requires
        0 <= k <= text.len(),
        all_digits(text),
    ensures
        digits_value(text.take(k)) <= digits_value(text),
    decreases text.len() - k,
{
    if k == text.len() {
        assert(text.take(k) == text);
    } else {
        lemma_digits_value_grows(text, k + 1);
        assert(text.take(k + 1).drop_last() == text.take(k));
        assert(is_digit(text.take(k + 1).last()));
    }
}

/// The characters of `s`, in order.
pub fn chars_of(s: &str) -> (r: Vec<char>)
    ensures
        r@ == s@,
{
    let mut out: Vec<char> = Vec::new();
    for c in it: s.chars()
        invariant
            out@ == it.seq().take(it.index() as int),
            it.seq() == s@,
    {
        out.push(c);
    }
    out
}

/// Whether two string slices hold the same characters.
pub fn same_text(a: &str, b: &str) -> (r: bool)
    ensures
        r == (a@ == b@),
{
    let x = a.to_owned();
    let y = b.to_owned();
    x == y
}

/// Whether `text` ends with `suffix`.
pub fn ends_with(text: &str, suffix: &str) -> (r: bool)
    ensures
        r == has_suffix(text@, suffix@),
{
    let whole = chars_of(text);
    let tail = chars_of(suffix);
    if tail.len() > whole.len() {
        return false;
    }
    let offset: usize = whole.len() - tail.len();
    let mut i: usize = 0;
    while i < tail.len()
        invariant
            whole@ == text@,
            tail@ == suffix@,
            offset + tail.len() == whole.len(),
            i <= tail.len(),
            forall|j: int| 0 <= j < i ==> whole@[offset + j] == tail@[j],
        decreases tail.len() - i,
    {
        if whole[offset + i] != tail[i] {
            assert(text@.subrange(text@.len() - suffix@.len(), text@.len() as int)[i as int]
                != suffix@[i as int]);
            return false;
        }
        i += 1;
    }
    assert(text@.subrange(text@.len() - suffix@.len(), text@.len() as int) =~= suffix@);
    true
}

/// Reads the digits of `chars` from `start` to the end as a number of at most `limit`.
fn read_magnitude(chars: &Vec<char>, start: usize, limit: u64) -> (r: Option<u64>)
    requires
        start <= chars.len(),
        limit >= 9,
    ensures
        match magnitude(chars@.skip(start as int), limit as nat) {
            Some(n) => r == Some(n as u64),
            None => r is None,
        },
{
    let ghost digits = chars@.skip(start as int);
    if start == chars.len() {
        return None;
    }
    let mut value: u64 = 0;
    let mut i: usize = start;
    while i < chars.len()
        invariant
            start <= i <= chars.len(),
            digits == chars@.skip(start as int),
            all_digits(digits.take(i - start)),
            value == digits_value(digits.take(i - start)),
            value <= limit,
            limit >= 9,
        decreases chars.len() - i,
    {
        let c: char = chars[i];
        let code: u32 = c as u32;
        assert(digits[i - start] == c);
        if code < 48 || code > 57 {
            return None;
        }
        let digit: u64 = (code - 48) as u64;
        assert(digits.take(i - start + 1).drop_last() == digits.take(i - start));
        assert(digits.take(i - start + 1).last() == c);
        if value > (limit - digit) / 10 {
            proof {
                if all_digits(digits) {
                    lemma_digits_value_grows(digits, i - start + 1);
                }
            }
            return None;
        }
        value = value * 10 + digit;
        i += 1;
    }
    assert(digits.take(i - start) == digits);
    Some(value)
}

/// Reads `text` as a signed 64-bit integer written in decimal.
pub fn parse_i64(text: &str) -> (r: Option<i64>)
    ensures
        match decimal(text@, i64::MIN as int, i64::MAX as int) {
            Some(n) => r == Some(n as i64),
            None => r is None,
        },
{
    let chars = chars_of(text);
    if chars.len() > 0 && chars[0] == '+' {
        assert(chars@.skip(1) == text@.drop_first());
        match read_magnitude(&chars, 1, 0x7fff_ffff_ffff_ffff) {
            Some(n) => Some(n as i64),
            None => None,
        }
    } else if chars.len() > 0 && chars[0] == '-' {
        assert(chars@.skip(1) == text@.drop_first());
        match read_magnitude(&chars, 1, 0x8000_0000_0000_0000) {
            Some(n) => if n == 0x8000_0000_0000_0000 {
                Some(i64::MIN)
            } else {
                Some(-(n as i64))
            },
            None => None,
        }
    } else {
        assert(chars@.skip(0) == text@);
        match read_magnitude(&chars, 0, 0x7fff_ffff_ffff_ffff) {
            Some(n) => Some(n as i64),
            None => None,
        }
    }
}

/// Reads `text` as a signed 32-bit integer written in decimal.
pub fn parse_i32(text: &str) -> (r: Option<i32>)
    ensures
        match decimal(text@, i32::MIN as int, i32::MAX as int) {
            Some(n) => r == Some(n as i32),
            None => r is None,
        },
{
    let chars = chars_of(text);
    if chars.len() > 0 && chars[0] == '+' {
        assert(chars@.skip(1) == text@.drop_first());
        match read_magnitude(&chars, 1, 0x7fff_ffff) {
            Some(n) => Some(n as i32),
            None => None,
        }
    } else if chars.len() > 0 && chars[0] == '-' {
        assert(chars@.skip(1) == text@.drop_first());
        match read_magnitude(&chars, 1, 0x8000_0000) {
            Some(n) => if n == 0x8000_0000 {
                Some(i32::MIN)
            } else {
                Some(-(n as i32))
            },
            None => None,
        }
    } else {
        assert(chars@.skip(0) == text@);
        match read_magnitude(&chars, 0, 0x7fff_ffff) {
            Some(n) => Some(n as i32),
            None => None,
        }
    }
}

/// The digit that writes a number below ten.
pub open spec fn digit_of(n: nat) -> char
    recommends
        n < 10,
{
    ((48 + n) as u8) as char
}

/// The digits that write a number in decimal, without leading zeros.
pub open spec fn digits_text(n: nat) -> Seq<char>
    decreases n,
{
    if n < 10 {
        seq![digit_of(n)]
    } else {
        digits_text(n / 10).push(digit_of(n % 10))
    }
}

/// The text that writes an integer in decimal: its digits, behind a `-` where it is
/// negative.
pub open spec fn decimal_text(n: int) -> Seq<char> {
    if n < 0 {
        seq!['-'] + digits_text((-n) as nat)
    } else {
        digits_text(n as nat)
    }
}

/// The digits of a number write that number.
pub proof fn lemma_digits_text(n: nat)
    ensures
        digits_text(n).len() > 0,
        all_digits(digits_text(n)),
        digits_value(digits_text(n)) == n,
        digits_text(n)[0] != '-',
        digits_text(n)[0] != '+',
    decreases n,
{
    if n < 10 {
        assert(digits_text(n).drop_last() =~= Seq::<char>::empty());
        assert(digits_value(digits_text(n).drop_last()) == 0);
    } else {
        lemma_digits_text(n / 10);
        assert(digits_text(n).drop_last() =~= digits_text(n / 10));
        assert(digits_text(n)[0] == digits_text(n / 10)[0]);
    }
}

/// An integer is read back from the text that writes it.
pub proof fn lemma_decimal_text(n: int, low: int, high: int)
    requires
        low <= n <= high,
        low <= 0 <= high,
    ensures
        decimal(decimal_text(n), low, high) == Some(n),
{
    if n < 0 {
        lemma_digits_text((-n) as nat);
        assert(decimal_text(n).drop_first() =~= digits_text((-n) as nat));
    } else {
        lemma_digits_text(n as nat);
    }
}

/// The digit that writes a number below ten, as a text.
fn digit(n: u64) -> (r: &'static str)
    requires
        n < 10,
    ensures
        r@ == seq![digit_of(n as nat)],
{
    proof {
        reveal_strlit("0");
        reveal_strlit("1");
        reveal_strlit("2");
        reveal_strlit("3");
        reveal_strlit("4");
        reveal_strlit("5");
        reveal_strlit("6");
        reveal_strlit("7");
        reveal_strlit("8");
        reveal_strlit("9");
    }
    let r = if n == 0 {
        "0"
    } else if n == 1 {
        "1"
    } else if n == 2 {
        "2"
    } else if n == 3 {
        "3"
    } else if n == 4 {
        "4"
    } else if n == 5 {
        "5"
    } else if n == 6 {
        "6"
    } else if n == 7 {
        "7"
    } else if n == 8 {
        "8"
    } else {
        "9"
    };
    assert(r@ =~= seq![digit_of(n as nat)]);
    r
}

/// Writes a number in decimal.
fn format_u64(n: u64) -> (r: String)
    ensures
        r@ == digits_text(n as nat),
    decreases n,
{
    if n < 10 {
        digit(n).to_owned()
    } else {
        format_u64(n / 10).concat(digit(n % 10))
    }
}

/// Writes a signed 64-bit integer in decimal.
pub fn format_i64(n: i64) -> (r: String)
    ensures
        r@ == decimal_text(n as int),
{
    proof {
        reveal_strlit("-");
        assert("-"@ =~= seq!['-']);
    }
    if n >= 0 {
        format_u64(n as u64)
    } else if n == i64::MIN {
        String::from_str("-").concat(format_u64(0x8000_0000_0000_0000).as_str())
    } else {
        String::from_str("-").concat(format_u64((-n) as u64).as_str())
    }
}

/// Position behind the digits that stand at `from`.
pub open spec fn digits_end(text: Seq<char>, from: int) -> int
    decreases text.len() - from,
{
    if 0 <= from < text.len() && is_digit(text[from]) {
        digits_end(text, from + 1)
    } else {
        from
    }
}

/// Whether `text` is `word` but for the case of its ASCII letters.
pub open spec fn is_word(text: Seq<char>, word: Seq<char>) -> bool {
    text.len() == word.len() && forall|i: int|
        0 <= i < text.len() ==> lowered(#[trigger] text[i]) == word[i]
}

/// Whether an exponent stands at `from` and ends the text: an `e` of either case, an
/// optional sign, and at least one digit.
pub open spec fn is_exponent(text: Seq<char>, from: int) -> bool {
    &&& 0 <= from < text.len()
    &&& (text[from] == 'e' || text[from] == 'E')
    &&& {
        let digits = if from + 1 < text.len() && (text[from + 1] == '+' || text[from + 1]
            == '-') {
            from + 2
        } else {
            from + 1
        };
        digits < text.len() && digits_end(text, digits) == text.len()
    }
}

/// Whether a number stands at `from` and ends the text: digits with an optional fraction,
/// or a fraction alone, and an optional exponent.
pub open spec fn is_number(text: Seq<char>, from: int) -> bool {
    let whole = digits_end(text, from);
    let point = whole < text.len() && text[whole] == '.';
    let fraction = if point {
        digits_end(text, whole + 1)
    } else {
        whole
    };
    &&& 0 <= from
    &&& whole > from || (point && fraction > whole + 1)
    &&& fraction == text.len() || is_exponent(text, fraction)
}

/// Whether `text` writes a 64-bit floating-point number as the standard library reads
/// one: an optional sign, then `inf`, `infinity` or `nan` in any case, or a number.
pub open spec fn is_real(text: Seq<char>) -> bool {
    let from: int = if text.len() > 0 && (text[0] == '+' || text[0] == '-') {
        1
    } else {
        0
    };
    ||| is_word(text.skip(from), "inf"@)
    ||| is_word(text.skip(from), "infinity"@)
    ||| is_word(text.skip(from), "nan"@)
    ||| is_number(text, from)
}

/// Position behind the digits that stand at `from`.
fn skip_digits(chars: &Vec<char>, from: usize) -> (end: usize)
    requires
        from <= chars.len(),
    ensures
        end == digits_end(chars@, from as int),
        from <= end <= chars.len(),
{
    let mut i: usize = from;
    while i < chars.len() && 48 <= chars[i] as u32 && chars[i] as u32 <= 57
        invariant
            from <= i <= chars.len(),
            digits_end(chars@, from as int) == digits_end(chars@, i as int),
        decreases chars.len() - i,
    {
        i += 1;
    }
    i
}

/// Whether the characters from `from` on are `word` but for the case of ASCII letters.
fn matches_word(chars: &Vec<char>, from: usize, word: &str) -> (r: bool)
    requires
        from <= chars.len(),
    ensures
        r == is_word(chars@.skip(from as int), word@),
{
    let wanted = chars_of(word);
    if chars.len() - from != wanted.len() {
        return false;
    }
    let ghost rest = chars@.skip(from as int);
    let mut i: usize = 0;
    while i < wanted.len()
        invariant
            from + wanted.len() == chars.len(),
            rest == chars@.skip(from as int),
            wanted@ == word@,
            i <= wanted.len(),
            forall|j: int| 0 <= j < i ==> lowered(#[trigger] rest[j]) == wanted@[j],
        decreases wanted.len() - i,
    {
        let c: char = chars[from + i];
        let code: u32 = c as u32;
        assert(rest[i as int] == c);
        let small: char = if 65 <= code && code <= 90 {
            ((code + 32) as u8) as char
        } else {
            c
        };
        if small != wanted[i] {
            return false;
        }
        i += 1;
    }
    true
}

/// Whether `text` writes a 64-bit floating-point number as the standard library reads one.
pub fn reads_as_real(text: &str) -> (r: bool)
    ensures
        r == is_real(text@),
{
    let chars = chars_of(text);
    let from: usize = if chars.len() > 0 && (chars[0] == '+' || chars[0] == '-') {
        1
    } else {
        0
    };
    if matches_word(&chars, from, "inf") || matches_word(&chars, from, "infinity")
        || matches_word(&chars, from, "nan") {
        return true;
    }
    let whole = skip_digits(&chars, from);
    let point = whole < chars.len() && chars[whole] == '.';
    let fraction = if point {
        skip_digits(&chars, whole + 1)
    } else {
        whole
    };
    if !(whole > from || (point && fraction > whole + 1)) {
        return false;
    }
    if fraction == chars.len() {
        return true;
    }
    if !(chars[fraction] == 'e' || chars[fraction] == 'E') {
        return false;
    }
    let digits: usize = if fraction + 1 < chars.len() && (chars[fraction + 1] == '+'
        || chars[fraction + 1] == '-') {
        fraction + 2
    } else {
        fraction + 1
    };
    digits < chars.len() && skip_digits(&chars, digits) == chars.len()
}

/// Reads `text` as an unsigned 32-bit integer written in decimal.
pub fn parse_u32(text: &str) -> (r: Option<u32>)
    ensures
        match decimal(text@, 0, u32::MAX as int) {
            Some(n) => r == Some(n as u32),
            None => r is None,
        },
{
    let chars = chars_of(text);
    if chars.len() > 0 && chars[0] == '+' {
        assert(chars@.skip(1) == text@.drop_first());
        match read_magnitude(&chars, 1, 0xffff_ffff) {
            Some(n) => Some(n as u32),
            None => None,
        }
    } else {
        assert(chars@.skip(0) == text@);
        match read_magnitude(&chars, 0, 0xffff_ffff) {
            Some(n) => Some(n as u32),
            None => None,
        }
    }
}

} // verus!
