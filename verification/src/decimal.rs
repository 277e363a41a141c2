//! Decimal numbers as text: reading them and writing them.

use vstd::prelude::*;

verus! {

/// An ASCII decimal digit.
pub open spec fn is_digit(c: char) -> bool {
    48 <= c as int <= 57
}

/// The number that a decimal digit stands for.
pub open spec fn digit_value(c: char) -> int {
    c as int - 48
}

/// The digit that stands for a number below ten.
pub open spec fn digit_char(d: nat) -> char {
    (48 + d) as char
}

/// Every character is a decimal digit.
pub open spec fn all_digits(s: Seq<char>) -> bool {
    forall|i: int| 0 <= i < s.len() ==> is_digit(#[trigger] s[i])
}

/// The number written by a run of decimal digits, most significant first.
pub open spec fn decimal_value(s: Seq<char>) -> nat
    decreases s.len(),
{
    if s.len() == 0 {
        0
    } else {
        (decimal_value(s.drop_last()) * 10 + digit_value(s.last())) as nat
    }
}

/// The text starts with a sign: `+`, or `-` where a minus is admitted.
pub open spec fn has_sign(s: Seq<char>, signed: bool) -> bool {
    s.len() > 0 && (s[0] == '+' || (signed && s[0] == '-'))
}

/// The text without its sign.
pub open spec fn digits_part(s: Seq<char>, signed: bool) -> Seq<char> {
    if has_sign(s, signed) {
        s.drop_first()
    } else {
        s
    }
}

/// The text is an optional sign followed by one or more decimal digits.
pub open spec fn is_integer_text(s: Seq<char>, signed: bool) -> bool {
    digits_part(s, signed).len() > 0 && all_digits(digits_part(s, signed))
}

/// The text starts with an admitted minus.
pub open spec fn is_negative(s: Seq<char>, signed: bool) -> bool {
    signed && s.len() > 0 && s[0] == '-'
}

/// The number written by the digits of the text, whatever its sign.
pub open spec fn magnitude(s: Seq<char>, signed: bool) -> nat {
    decimal_value(digits_part(s, signed))
}

/// The integer that the text writes, if it writes one.
pub open spec fn integer_text(s: Seq<char>, signed: bool) -> Option<int> {
    if !is_integer_text(s, signed) {
        None
    } else if is_negative(s, signed) {
        Some(-(magnitude(s, signed) as int))
    } else {
        Some(magnitude(s, signed) as int)
    }
}

/// The decimal digits of a number, most significant first, without leading zeros.
pub open spec fn decimal_digits(n: nat) -> Seq<char>
    decreases n,
{
    if n < 10 {
        seq![digit_char(n)]
    } else {
        decimal_digits(n / 10).push(digit_char(n % 10))
    }
}

/// The decimal text of an integer: a minus sign where it is negative, then its digits.
pub open spec fn integer_digits(n: int) -> Seq<char> {
    if n < 0 {
        seq!['-'] + decimal_digits((-n) as nat)
    } else {
        decimal_digits(n as nat)
    }
}

/// A longer run of digits writes a number that is at least as large as any of its prefixes.
pub proof fn lemma_prefix_value(s: Seq<char>, k: int)
    requires
        all_digits(s),
        0 <= k <= s.len(),
    ensures
        decimal_value(s.take(k)) <= decimal_value(s),
    decreases s.len(),
{
    if k == s.len() {
        assert(s.take(k) =~= s);
    } else {
        assert(is_digit(s[s.len() - 1]));
        lemma_prefix_value(s.drop_last(), k);
        assert(s.drop_last().take(k) =~= s.take(k));
    }
}

/// One more digit multiplies the number by ten and adds the digit.
pub proof fn lemma_value_push(s: Seq<char>, k: int)
    requires
        0 <= k < s.len(),
        is_digit(s[k]),
    ensures
        decimal_value(s.take(k + 1)) == decimal_value(s.take(k)) * 10 + digit_value(s[k]),
{
    assert(s.take(k + 1).drop_last() =~= s.take(k));
    assert(s.take(k + 1).last() == s[k]);
}

/// The value of a decimal digit, if the character is one.
pub fn digit_of(c: char) -> (d: Option<u64>)
    ensures
        d is Some <==> is_digit(c),
        d is Some ==> d->Some_0 == digit_value(c),
{
    let code: u32 = c as u32;
    if 48 <= code && code <= 57 {
        Some((code - 48) as u64)
    } else {
        None
    }
}

/// True when every character from `start` on is a decimal digit.
pub fn digits_only(chars: &Vec<char>, start: usize) -> (b: bool)
    requires
        start <= chars.len(),
    ensures
        b == all_digits(chars@.skip(start as int)),
{
    let mut i: usize = start;
    while i < chars.len()
        invariant
            start <= i <= chars.len(),
            forall|j: int| start <= j < i ==> is_digit(#[trigger] chars@[j]),
        decreases chars.len() - i,
    {
        if digit_of(chars[i]).is_none() {
            assert(chars@.skip(start as int)[i - start] == chars@[i as int]);
            return false;
        }
        i += 1;
    }
    assert forall|j: int| 0 <= j < chars@.skip(start as int).len() implies is_digit(
        #[trigger] chars@.skip(start as int)[j],
    ) by {
        assert(chars@.skip(start as int)[j] == chars@[j + start]);
    }
    true
}

/// The number written by the digits from `start` on, where it fits in 64 bits.
pub fn checked_value(chars: &Vec<char>, start: usize) -> (r: Option<u64>)
    requires
        start <= chars.len(),
        all_digits(chars@.skip(start as int)),
    ensures
        r is Some <==> decimal_value(chars@.skip(start as int)) <= u64::MAX,
        r is Some ==> r->Some_0 == decimal_value(chars@.skip(start as int)),
{
    let ghost s = chars@.skip(start as int);
    let mut acc: u64 = 0;
    let mut i: usize = start;
    assert(s.take(0) =~= Seq::<char>::empty());
    while i < chars.len()
        invariant
            start <= i <= chars.len(),
            s == chars@.skip(start as int),
            all_digits(s),
            acc == decimal_value(s.take(i - start)),
        decreases chars.len() - i,
    {
        let c = chars[i];
        assert(s[i - start] == c);
        let d: u64 = match digit_of(c) {
            Some(d) => d,
            None => 0,
        };
        proof {
            lemma_value_push(s, i - start);
        }
        if acc > (u64::MAX - d) / 10 {
            proof {
                lemma_prefix_value(s, i - start + 1);
            }
            return None;
        }
        acc = acc * 10 + d;
        i += 1;
    }
    assert(s.take(i - start) =~= s);
    Some(acc)
}

/// What a scan of an integer's text found: its sign, and its magnitude where
/// that fits in 64 bits.
#[derive(Clone, Copy, Debug, PartialEq, Eq, Structural)]
pub struct Scanned {
    /// The text starts with a minus sign.
    pub negative: bool,
    /// The text starts with a plus sign.
    pub plus: bool,
    /// The number that the digits write, unless it is above `u64::MAX`.
    pub magnitude: Option<u64>,
}

/// Scans an optional sign and one or more decimal digits.
///
/// A minus sign is admitted only where `signed` holds. Nothing else may stand
/// before, between or after the digits.
pub fn scan_integer(chars: &Vec<char>, signed: bool) -> (r: Option<Scanned>)
    ensures
        r is Some <==> is_integer_text(chars@, signed),
        r is Some ==> {
            let found = r->Some_0;
            &&& found.negative == is_negative(chars@, signed)
            &&& found.plus == (chars@[0] == '+')
            &&& found.magnitude is Some <==> magnitude(chars@, signed) <= u64::MAX
            &&& found.magnitude is Some ==> found.magnitude->Some_0 == magnitude(chars@, signed)
        },
{
    if chars.len() == 0 {
        return None;
    }
    let first = chars[0];
    let plus = first == '+';
    let negative = signed && first == '-';
    let start: usize = if plus || negative {
        1
    } else {
        0
    };
    assert(digits_part(chars@, signed) =~= chars@.skip(start as int));
    if start == chars.len() || !digits_only(chars, start) {
        return None;
    }
    let magnitude = checked_value(chars, start);
    Some(Scanned { negative, plus, magnitude })
}

/// An integer type that can be read from decimal text.
///
/// The text is an optional sign and one or more decimal digits, nothing
/// else; a minus sign is admitted only by the signed types. A number outside
/// the type's range is not read.
pub trait Integer: Sized {
    /// The value that a text writes, if it writes one of this type.
    spec fn of_text(s: Seq<char>) -> Option<Self>;

    /// Reads a value from the characters of a text.
    fn from_chars(chars: &Vec<char>) -> (r: Option<Self>)
        ensures
            r == Self::of_text(chars@),
    ;
}

impl Integer for u64 {
    open spec fn of_text(s: Seq<char>) -> Option<u64> {
        match integer_text(s, false) {
            Some(v) => if v <= u64::MAX {
                Some(v as u64)
            } else {
                None
            },
            None => None,
        }
    }

    fn from_chars(chars: &Vec<char>) -> (r: Option<u64>) {
        match scan_integer(chars, false) {
            Some(found) => found.magnitude,
            None => None,
        }
    }
}

impl Integer for u32 {
    open spec fn of_text(s: Seq<char>) -> Option<u32> {
        match integer_text(s, false) {
            Some(v) => if v <= u32::MAX {
                Some(v as u32)
            } else {
                None
            },
            None => None,
        }
    }

    fn from_chars(chars: &Vec<char>) -> (r: Option<u32>) {
        match scan_integer(chars, false) {
            Some(found) => match found.magnitude {
                Some(m) => if m <= u32::MAX as u64 {
                    Some(m as u32)
                } else {
                    None
                },
                None => None,
            },
            None => None,
        }
    }
}

impl Integer for usize {
    open spec fn of_text(s: Seq<char>) -> Option<usize> {
        match integer_text(s, false) {
            Some(v) => if v <= usize::MAX {
                Some(v as usize)
            } else {
                None
            },
            None => None,
        }
    }

    fn from_chars(chars: &Vec<char>) -> (r: Option<usize>) {
        match scan_integer(chars, false) {
            Some(found) => match found.magnitude {
                Some(m) => if m <= usize::MAX as u64 {
                    Some(m as usize)
                } else {
                    None
                },
                None => None,
            },
            None => None,
        }
    }
}

impl Integer for i64 {
    open spec fn of_text(s: Seq<char>) -> Option<i64> {
        match integer_text(s, true) {
            Some(v) => if i64::MIN <= v <= i64::MAX {
                Some(v as i64)
            } else {
                None
            },
            None => None,
        }
    }

    fn from_chars(chars: &Vec<char>) -> (r: Option<i64>) {
        match scan_integer(chars, true) {
            Some(found) => match found.magnitude {
                Some(m) => if found.negative {
                    if m < 9223372036854775808u64 {
                        Some(-(m as i64))
                    } else if m == 9223372036854775808u64 {
                        Some(i64::MIN)
                    } else {
                        None
                    }
                } else if m <= 9223372036854775807u64 {
                    Some(m as i64)
                } else {
                    None
                },
                None => None,
            },
            None => None,
        }
    }
}

impl Integer for i32 {
    open spec fn of_text(s: Seq<char>) -> Option<i32> {
        match integer_text(s, true) {
            Some(v) => if i32::MIN <= v <= i32::MAX {
                Some(v as i32)
            } else {
                None
            },
            None => None,
        }
    }

    fn from_chars(chars: &Vec<char>) -> (r: Option<i32>) {
        match scan_integer(chars, true) {
            Some(found) => match found.magnitude {
                Some(m) => if found.negative {
                    if m <= 2147483648u64 {
                        Some((-(m as i64)) as i32)
                    } else {
                        None
                    }
                } else if m <= 2147483647u64 {
                    Some(m as i32)
                } else {
                    None
                },
                None => None,
            },
            None => None,
        }
    }
}

/// The digit character of a number below ten.
fn char_of_digit(d: u64) -> (c: char)
    requires
        d < 10,
    ensures
        c == digit_char(d as nat),
{
    match d {
        0 => '0',
        1 => '1',
        2 => '2',
        3 => '3',
        4 => '4',
        5 => '5',
        6 => '6',
        7 => '7',
        8 => '8',
        _ => '9',
    }
}

/// Appends the decimal digits of `n` to `out`.
pub fn push_decimal(out: &mut Vec<char>, n: u64)
    ensures
        final(out)@ == old(out)@ + decimal_digits(n as nat),
    decreases n,
{
    if n >= 10 {
        push_decimal(out, n / 10);
    }
    out.push(char_of_digit(n % 10));
    proof {
        if n >= 10 {
            assert(final(out)@ =~= old(out)@ + decimal_digits(n as nat));
        } else {
            assert(final(out)@ =~= old(out)@ + decimal_digits(n as nat));
        }
    }
}

/// The decimal text of a signed integer.
pub fn integer_chars(n: i64) -> (out: Vec<char>)
    ensures
        out@ == integer_digits(n as int),
{
    let mut out: Vec<char> = Vec::new();
    if n < 0 {
        out.push('-');
        let m: u64 = if n == i64::MIN {
            9223372036854775808u64
        } else {
            (-n) as u64
        };
        push_decimal(&mut out, m);
        assert(out@ =~= integer_digits(n as int));
    } else {
        push_decimal(&mut out, n as u64);
        assert(out@ =~= integer_digits(n as int));
    }
    out
}

} // verus!
