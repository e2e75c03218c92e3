use vstd::prelude::*;

verus! {

/// Whether `c` is one of the ten ASCII decimal digits.
pub open spec fn is_digit(c: char) -> bool {
    '0' <= c && c <= '9'
}

/// Whether `s` holds decimal digits only.
pub open spec fn all_digits(s: Seq<char>) -> bool {
    forall|i: int| 0 <= i < s.len() ==> is_digit(#[trigger] s[i])
}

/// The number that the decimal digits `s` write, most significant first.
pub open spec fn decimal_value(s: Seq<char>) -> int
    decreases s.len(),
{
    if s.len() == 0 {
        0
    } else {
        decimal_value(s.drop_last()) * 10 + (s.last() as int - '0' as int)
    }
}

/// `s` without the one sign, `+` or `-`, that it may begin with.
pub open spec fn unsigned_part(s: Seq<char>) -> Seq<char> {
    if s.len() > 0 && (s[0] == '+' || s[0] == '-') {
        s.skip(1)
    } else {
        s
    }
}

/// The 32-bit signed integer that `s` writes in decimal: an optional sign,
/// then one or more digits, the value in range. `None` for any other text.
pub open spec fn integer_of(s: Seq<char>) -> Option<i32> {
    let digits = unsigned_part(s);
    let magnitude = decimal_value(digits);
    let value = if s.len() > 0 && s[0] == '-' {
        -magnitude
    } else {
        magnitude
    };
    if digits.len() > 0 && all_digits(digits) && i32::MIN <= value <= i32::MAX {
        Some(value as i32)
    } else {
        None
    }
}

/// How many decimal digits `s` begins with.
pub open spec fn leading_digits(s: Seq<char>) -> nat
    decreases s.len(),
{
    if s.len() > 0 && is_digit(s[0]) {
        1 + leading_digits(s.skip(1))
    } else {
        0
    }
}

/// Whether `s` is an exponent: `e` or `E`, an optional sign, one or more digits.
pub open spec fn is_exponent(s: Seq<char>) -> bool {
    &&& s.len() > 0
    &&& s[0] == 'e' || s[0] == 'E'
    &&& unsigned_part(s.skip(1)).len() > 0
    &&& all_digits(unsigned_part(s.skip(1)))
}

/// Whether `s` is a decimal number without a sign: digits, optionally a point
/// and more digits, at least one digit in all, then optionally an exponent.
pub open spec fn is_decimal(s: Seq<char>) -> bool {
    let whole = leading_digits(s);
    let after_whole = s.skip(whole as int);
    let pointed = after_whole.len() > 0 && after_whole[0] == '.';
    let fraction: nat = if pointed {
        leading_digits(after_whole.skip(1))
    } else {
        0
    };
    let rest = if pointed {
        after_whole.skip(1 + fraction as int)
    } else {
        after_whole
    };
    whole + fraction > 0 && (rest.len() == 0 || is_exponent(rest))
}

/// Whether `c` is the letter written `lower` in lower case and `upper` in upper case.
pub open spec fn is_letter(c: char, lower: char, upper: char) -> bool {
    c == lower || c == upper
}

/// Whether `s` is one of the words `inf`, `infinity` and `nan`, in any mix of cases.
pub open spec fn is_special(s: Seq<char>) -> bool {
    ||| s.len() == 3 && is_letter(s[0], 'i', 'I') && is_letter(s[1], 'n', 'N') && is_letter(
        s[2],
        'f',
        'F',
    )
    ||| s.len() == 3 && is_letter(s[0], 'n', 'N') && is_letter(s[1], 'a', 'A') && is_letter(
        s[2],
        'n',
        'N',
    )
    ||| s.len() == 8 && is_letter(s[0], 'i', 'I') && is_letter(s[1], 'n', 'N') && is_letter(
        s[2],
        'f',
        'F',
    ) && is_letter(s[3], 'i', 'I') && is_letter(s[4], 'n', 'N') && is_letter(s[5], 'i', 'I')
        && is_letter(s[6], 't', 'T') && is_letter(s[7], 'y', 'Y')
}

/// Whether `s` writes a floating-point number: an optional sign, then a
/// decimal number or one of the words for infinity and not-a-number.
pub open spec fn is_float_text(s: Seq<char>) -> bool {
    is_decimal(unsigned_part(s)) || is_special(unsigned_part(s))
}

/// The boolean that `s` writes: `true` or `false`, in lower case.
pub open spec fn boolean_of(s: Seq<char>) -> Option<bool> {
    if s == seq!['t', 'r', 'u', 'e'] {
        Some(true)
    } else if s == seq!['f', 'a', 'l', 's', 'e'] {
        Some(false)
    } else {
        None
    }
}

/// A prefix of a run of digits writes no larger a number than the whole run.
pub proof fn lemma_decimal_value_grows(s: Seq<char>, k: int)
    requires
        all_digits(s),
        0 <= k <= s.len(),
    ensures
        0 <= decimal_value(s.take(k)) <= decimal_value(s),
    decreases s.len(),
{
    if k == s.len() {
        assert(s.take(k) =~= s);
        if s.len() > 0 {
            lemma_decimal_value_grows(s.drop_last(), k - 1);
        }
    } else {
        lemma_decimal_value_grows(s.drop_last(), k);
        assert(s.drop_last().take(k) =~= s.take(k));
    }
}

/// Whether `c` is a decimal digit.
pub fn digit_check(c: char) -> (r: bool)
    ensures
        r == is_digit(c),
{
    '0' <= c && c <= '9'
}

/// Reads `chars` as a 32-bit signed integer in decimal.
pub fn parse_integer(chars: &Vec<char>) -> (r: Option<i32>)
    ensures
        r == integer_of(chars@),
{
    let n = chars.len();
    if n == 0 {
        return None;
    }
    let negative = chars[0] == '-';
    let start: usize = if chars[0] == '-' || chars[0] == '+' {
        1
    } else {
        0
    };
    if start == n {
        return None;
    }
    let ghost digits = unsigned_part(chars@);
    let mut magnitude: i64 = 0;
    let mut i: usize = start;
    while i < n
        invariant
            start <= i <= n,
            n == chars.len(),
            digits == chars@.skip(start as int),
            digits == unsigned_part(chars@),
            all_digits(digits.take(i - start)),
            magnitude == decimal_value(digits.take(i - start)),
            0 <= magnitude <= 2147483648,
        decreases n - i,
    {
        let c = chars[i];
        if !digit_check(c) {
            assert(!is_digit(digits[i - start]));
            return None;
        }
        let d: i64 = (c as u32 - '0' as u32) as i64;
        let ghost before = digits.take(i - start);
        let ghost after = digits.take(i - start + 1);
        assert(after.drop_last() =~= before);
        magnitude = magnitude * 10 + d;
        if magnitude > 2147483648 {
            proof {
                if all_digits(digits) {
                    lemma_decimal_value_grows(digits, i - start + 1);
                }
            }
            return None;
        }
        i = i + 1;
    }
    assert(digits.take(i - start) =~= digits);
    if negative {
        Some((-magnitude) as i32)
    } else if magnitude <= 2147483647 {
        Some(magnitude as i32)
    } else {
        None
    }
}

/// Counts the decimal digits that `chars` holds from index `from` on, up to
/// the first character that is none.
fn count_digits(chars: &Vec<char>, from: usize) -> (count: usize)
    requires
        from <= chars.len(),
    ensures
        count == leading_digits(chars@.skip(from as int)),
        from + count <= chars.len(),
{
    let mut i: usize = from;
    while i < chars.len() && digit_check(chars[i])
        invariant
            from <= i <= chars.len(),
            leading_digits(chars@.skip(from as int)) == (i - from) + leading_digits(
                chars@.skip(i as int),
            ),
        decreases chars.len() - i,
    {
        assert(chars@.skip(i as int).skip(1) =~= chars@.skip(i + 1));
        i = i + 1;
    }
    i - from
}

/// Whether every character of `chars` from index `from` on is a decimal digit.
fn digits_only(chars: &Vec<char>, from: usize) -> (r: bool)
    requires
        from <= chars.len(),
    ensures
        r == all_digits(chars@.skip(from as int)),
{
    let mut i: usize = from;
    while i < chars.len()
        invariant
            from <= i <= chars.len(),
            forall|j: int| from <= j < i ==> is_digit(#[trigger] chars@[j]),
        decreases chars.len() - i,
    {
        if !digit_check(chars[i]) {
            assert(!is_digit(chars@.skip(from as int)[i - from]));
            return false;
        }
        i = i + 1;
    }
    true
}

/// Whether what `chars` holds from index `from` on is an exponent.
fn exponent_check(chars: &Vec<char>, from: usize) -> (r: bool)
    requires
        from <= chars.len(),
    ensures
        r == is_exponent(chars@.skip(from as int)),
{
    let n = chars.len();
    if from == n {
        return false;
    }
    if chars[from] != 'e' && chars[from] != 'E' {
        return false;
    }
    let ghost tail = chars@.skip(from as int).skip(1);
    let start: usize = if from + 1 < n && (chars[from + 1] == '+' || chars[from + 1] == '-') {
        from + 2
    } else {
        from + 1
    };
    assert(unsigned_part(tail) =~= chars@.skip(start as int));
    if start == n {
        return false;
    }
    digits_only(chars, start)
}

/// Whether `c` is one of the two given forms of a letter.
fn letter_check(c: char, lower: char, upper: char) -> (r: bool)
    ensures
        r == is_letter(c, lower, upper),
{
    c == lower || c == upper
}

/// Whether what `chars` holds from index `from` on is one of the words for
/// infinity and not-a-number.
fn special_check(chars: &Vec<char>, from: usize) -> (r: bool)
    requires
        from <= chars.len(),
    ensures
        r == is_special(chars@.skip(from as int)),
{
    let n = chars.len() - from;
    assert(chars@.skip(from as int).len() == n);
    if n == 3 {
        let inf = letter_check(chars[from], 'i', 'I') && letter_check(chars[from + 1], 'n', 'N')
            && letter_check(chars[from + 2], 'f', 'F');
        let nan = letter_check(chars[from], 'n', 'N') && letter_check(chars[from + 1], 'a', 'A')
            && letter_check(chars[from + 2], 'n', 'N');
        inf || nan
    } else if n == 8 {
        letter_check(chars[from], 'i', 'I') && letter_check(chars[from + 1], 'n', 'N')
            && letter_check(chars[from + 2], 'f', 'F') && letter_check(chars[from + 3], 'i', 'I')
            && letter_check(chars[from + 4], 'n', 'N') && letter_check(chars[from + 5], 'i', 'I')
            && letter_check(chars[from + 6], 't', 'T') && letter_check(chars[from + 7], 'y', 'Y')
    } else {
        false
    }
}

/// Whether what `chars` holds from index `from` on is a decimal number
/// without a sign.
fn decimal_check(chars: &Vec<char>, from: usize) -> (r: bool)
    requires
        from <= chars.len(),
    ensures
        r == is_decimal(chars@.skip(from as int)),
{
    let n = chars.len();
    let ghost s = chars@.skip(from as int);
    let whole = count_digits(chars, from);
    let point = from + whole;
    assert(s.skip(whole as int) =~= chars@.skip(point as int));
    if point < n && chars[point] == '.' {
        assert(chars@.skip(point as int).skip(1) =~= chars@.skip(point + 1));
        let fraction = count_digits(chars, point + 1);
        let rest = point + 1 + fraction;
        assert(chars@.skip(point as int).skip(1 + fraction) =~= chars@.skip(rest as int));
        if whole + fraction == 0 {
            return false;
        }
        rest == n || exponent_check(chars, rest)
    } else {
        if whole == 0 {
            return false;
        }
        point == n || exponent_check(chars, point)
    }
}

/// Whether `chars` writes a floating-point number.
pub fn float_check(chars: &Vec<char>) -> (r: bool)
    ensures
        r == is_float_text(chars@),
{
    let start: usize = if chars.len() > 0 && (chars[0] == '+' || chars[0] == '-') {
        1
    } else {
        0
    };
    assert(unsigned_part(chars@) =~= chars@.skip(start as int));
    decimal_check(chars, start) || special_check(chars, start)
}

/// Reads `chars` as a boolean.
pub fn parse_boolean(chars: &Vec<char>) -> (r: Option<bool>)
    ensures
        r == boolean_of(chars@),
{
    if chars.len() == 4 && chars[0] == 't' && chars[1] == 'r' && chars[2] == 'u' && chars[3]
        == 'e' {
        assert(chars@ =~= seq!['t', 'r', 'u', 'e']);
        Some(true)
    } else if chars.len() == 5 && chars[0] == 'f' && chars[1] == 'a' && chars[2] == 'l'
        && chars[3] == 's' && chars[4] == 'e' {
        assert(chars@ =~= seq!['f', 'a', 'l', 's', 'e']);
        Some(false)
    } else {
        None
    }
}

} // verus!
