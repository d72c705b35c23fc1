//! Decimal numbers as text.
use crate::text::{chars_of, is_ascii_digit, is_digit};
use vstd::prelude::*;

verus! {

pub open spec fn digit_value(c: char) -> int {
    c as int - '0' as int
}

pub open spec fn digit_char(d: int) -> char {
    ('0' as int + d) as char
}

pub open spec fn all_digits(s: Seq<char>) -> bool {
    forall|i: int| 0 <= i < s.len() ==> #[trigger] is_digit(s[i])
}

/// The number that a run of digits stands for.
pub open spec fn digits_value(s: Seq<char>) -> int
    decreases s.len(),
{
    if s.len() == 0 {
        0
    } else {
        digits_value(s.drop_last()) * 10 + digit_value(s.last())
    }
}

/// The number that a non-empty run of digits stands for.
pub open spec fn natural(s: Seq<char>) -> Option<int> {
    if s.len() > 0 && all_digits(s) {
        Some(digits_value(s))
    } else {
        None
    }
}

/// An unsigned number: an optional `+`, then digits, of a value up to `max`.
pub open spec fn unsigned(s: Seq<char>, max: int) -> Option<int> {
    let d = if s.len() > 0 && s[0] == '+' {
        s.skip(1)
    } else {
        s
    };
    match natural(d) {
        Some(v) => if v <= max {
            Some(v)
        } else {
            None
        },
        None => None,
    }
}

/// A signed 64-bit number: an optional `+` or `-`, then digits.
pub open spec fn signed(s: Seq<char>) -> Option<int> {
    if s.len() > 0 && s[0] == '-' {
        match natural(s.skip(1)) {
            Some(v) => if -v >= i64::MIN {
                Some(-v)
            } else {
                None
            },
            None => None,
        }
    } else {
        unsigned(s, i64::MAX as int)
    }
}

/// The decimal digits of `n`, the sign first where it is negative.
pub open spec fn decimal(n: int) -> Seq<char>
    decreases
            if n < 0 {
                1 - n
            } else {
                n
            },
{
    if n < 0 {
        seq!['-'] + decimal(-n)
    } else if n < 10 {
        seq![digit_char(n)]
    } else {
        decimal(n / 10).push(digit_char(n % 10))
    }
}

/// The decimal digits of `n`, with a zero in front where there is only one of them.
pub open spec fn two_digits(n: int) -> Seq<char> {
    if 0 <= n < 10 {
        seq!['0'] + decimal(n)
    } else {
        decimal(n)
    }
}

/// The decimal digits of a number that is not negative, with zeros in front up to `width`
/// digits.
pub open spec fn padded(n: int, width: int) -> Seq<char> {
    let d = decimal(n);
    if d.len() >= width {
        d
    } else {
        Seq::new((width - d.len()) as nat, |i: int| '0') + d
    }
}

pub proof fn lemma_digits_value_bounds(s: Seq<char>)
    requires
        all_digits(s),
    ensures
        digits_value(s) >= 0,
    decreases s.len(),
{
    if s.len() > 0 {
        assert(is_digit(s.last()));
        assert forall|i: int| 0 <= i < s.drop_last().len() implies #[trigger] is_digit(
            s.drop_last()[i],
        ) by {
            assert(is_digit(s[i]));
        }
        lemma_digits_value_bounds(s.drop_last());
    }
}

/// The value of a run of digits is no less than that of a part that it starts with.
pub proof fn lemma_digits_value_grows(s: Seq<char>, k: int)
    requires
        all_digits(s),
        0 <= k <= s.len(),
    ensures
        digits_value(s.take(k)) <= digits_value(s),
    decreases s.len() - k,
{
    if k == s.len() {
        assert(s.take(k) == s);
    } else {
        lemma_digits_value_grows(s, k + 1);
        assert(s.take(k + 1).drop_last() == s.take(k));
        assert(is_digit(s[k]));
        assert forall|i: int| 0 <= i < k implies #[trigger] is_digit(s.take(k)[i]) by {
            assert(is_digit(s[i]));
        }
        lemma_digits_value_bounds(s.take(k));
    }
}

/// Decimal digits read back as the number that they were written for.
pub proof fn lemma_decimal_reads_back(n: int)
    requires
        n >= 0,
    ensures
        all_digits(decimal(n)),
        decimal(n).len() > 0,
        digits_value(decimal(n)) == n,
    decreases n,
{
    reveal_with_fuel(digits_value, 2);
    if n < 10 {
        assert(decimal(n).drop_last() == Seq::<char>::empty());
    } else {
        lemma_decimal_reads_back(n / 10);
        assert(decimal(n).drop_last() == decimal(n / 10));
        assert forall|i: int| 0 <= i < decimal(n).len() implies #[trigger] is_digit(
            decimal(n)[i],
        ) by {
            if i < decimal(n / 10).len() {
                assert(is_digit(decimal(n / 10)[i]));
            }
        }
    }
}

/// The value of `v[from..]` where it is a non-empty run of digits and at most `max`.
fn parse_digits(v: &Vec<char>, from: usize, max: u64) -> (r: Option<u64>)
    requires
        from <= v@.len(),
    ensures
        r is Some <==> natural(v@.skip(from as int)) is Some && natural(v@.skip(from as int))->0
            <= max,
        r matches Some(n) ==> natural(v@.skip(from as int)) == Some(n as int),
{
    let ghost s = v@.skip(from as int);
    if from == v.len() {
        return None;
    }
    let mut value: u64 = 0;
    let mut i: usize = from;
    while i < v.len()
        invariant
            from <= i <= v@.len(),
            from < v@.len(),
            s == v@.skip(from as int),
            value <= max,
            all_digits(s.take(i - from)),
            value == digits_value(s.take(i - from)),
        decreases v.len() - i,
    {
        let c = v[i];
        if !is_ascii_digit(c) {
            assert(!is_digit(s[i - from]));
            return None;
        }
        let d: u64 = (c as u32 - '0' as u32) as u64;
        proof {
            let t = s.take(i - from + 1);
            assert(t.drop_last() == s.take(i - from));
            assert(t.last() == c);
            assert forall|j: int| 0 <= j < t.len() implies #[trigger] is_digit(t[j]) by {
                if j < i - from {
                    assert(is_digit(s.take(i - from)[j]));
                }
            }
            assert(digits_value(t) == value * 10 + d);
        }
        if value > max / 10 || d > max - value * 10 {
            proof {
                if all_digits(s) {
                    lemma_digits_value_grows(s, i - from + 1);
                }
            }
            return None;
        }
        value = value * 10 + d;
        i += 1;
    }
    assert(s.take(s.len() as int) == s);
    Some(value)
}

/// The unsigned number that `s` writes, where it is at most `max`.
pub fn parse_unsigned(s: &str, max: u64) -> (r: Option<u64>)
    ensures
        r is Some <==> unsigned(s@, max as int) is Some,
        r matches Some(n) ==> unsigned(s@, max as int) == Some(n as int) && n <= max,
{
    let v = chars_of(s);
    assert(v@.skip(0) == v@);
    if v.len() > 0 && v[0] == '+' {
        parse_digits(&v, 1, max)
    } else {
        parse_digits(&v, 0, max)
    }
}

/// The signed 64-bit number that `s` writes.
pub fn parse_signed(s: &str) -> (r: Option<i64>)
    ensures
        r is Some <==> signed(s@) is Some,
        r matches Some(n) ==> signed(s@) == Some(n as int),
{
    let v = chars_of(s);
    if v.len() > 0 && v[0] == '-' {
        match parse_digits(&v, 1, 0x8000_0000_0000_0000) {
            Some(n) => Some((-(n as i128)) as i64),
            None => None,
        }
    } else {
        match parse_unsigned(s, i64::MAX as u64) {
            Some(n) => Some(n as i64),
            None => None,
        }
    }
}

/// `str::parse` to `i64`: what its error says of a text that it refuses.
pub uninterp spec fn signed_fault(s: Seq<char>) -> Seq<char>;

/// `str::parse` to `i64` of a text that writes no such number: what the error says. Its
/// wording is not stated, only that it depends on the text alone.
#[verifier::external_body]
pub(crate) fn signed_error(s: &str) -> (r: String)
    requires
        signed(s@) is None,
    ensures
        r@ == signed_fault(s@),
{
    s.parse::<i64>().unwrap_err().to_string()
}

/// `str::parse` to `usize`, whose largest number is `max`: what its error says of a text that
/// it refuses.
pub uninterp spec fn unsigned_fault(s: Seq<char>, max: int) -> Seq<char>;

/// `str::parse` to `usize` of a text that writes no such number: what the error says. Its
/// wording is not stated, only that it depends on the text and on the largest `usize` alone.
#[verifier::external_body]
pub(crate) fn unsigned_error(s: &str) -> (r: String)
    requires
        unsigned(s@, usize::MAX as int) is None,
    ensures
        r@ == unsigned_fault(s@, usize::MAX as int),
{
    s.parse::<usize>().unwrap_err().to_string()
}

fn digit_of(d: u64) -> (r: char)
    requires
        d < 10,
    ensures
        r == digit_char(d as int),
{
    ('0' as u8 + d as u8) as char
}

/// The decimal digits of `n`.
pub fn decimal_text(n: u64) -> (r: String)
    ensures
        r@ == decimal(n as int),
    decreases n,
{
    if n < 10 {
        let mut r = String::new();
        r.push(digit_of(n));
        assert(r@ == seq![digit_char(n as int)]);
        r
    } else {
        let mut r = decimal_text(n / 10);
        r.push(digit_of(n % 10));
        r
    }
}

/// The decimal digits of `n`, the sign first where it is negative.
pub fn signed_text(n: i64) -> (r: String)
    ensures
        r@ == decimal(n as int),
{
    if n >= 0 {
        decimal_text(n as u64)
    } else {
        let mut r = String::new();
        r.push('-');
        let d = decimal_text((-(n as i128)) as u64);
        r.append(d.as_str());
        assert(r@ == seq!['-'] + decimal(-n));
        r
    }
}

/// The decimal digits of `n`, with a zero in front where there is only one of them.
pub fn two_digit_text(n: i64) -> (r: String)
    ensures
        r@ == two_digits(n as int),
{
    let d = signed_text(n);
    if 0 <= n && n < 10 {
        let mut r = String::new();
        r.push('0');
        r.append(d.as_str());
        assert(r@ == seq!['0'] + decimal(n as int));
        r
    } else {
        d
    }
}

/// The decimal digits of `n`, with zeros in front up to `width` digits.
pub fn padded_text(n: u64, width: usize) -> (r: String)
    ensures
        r@ == padded(n as int, width as int),
{
    let d = decimal_text(n);
    let len = d.as_str().unicode_len();
    if len >= width {
        return d;
    }
    let mut r = String::new();
    let mut i: usize = len;
    while i < width
        invariant
            len <= i <= width,
            r@ == Seq::new((i - len) as nat, |i: int| '0'),
        decreases width - i,
    {
        r.push('0');
        i += 1;
        assert(r@ == Seq::new((i - len) as nat, |i: int| '0'));
    }
    r.append(d.as_str());
    r
}

/// The decimal digits of a number read back as that number, as long as it can be held; a plus
/// sign in front makes no difference.
pub proof fn law_numbers_read_back(n: int, max: int)
    ensures
        0 <= n <= max ==> unsigned(decimal(n), max) == Some(n) && unsigned(
            seq!['+'] + decimal(n),
            max,
        ) == Some(n),
        n > max && n >= 0 ==> unsigned(decimal(n), max) is None,
        i64::MIN <= n <= i64::MAX ==> signed(decimal(n)) == Some(n),
        n > i64::MAX || n < i64::MIN ==> signed(decimal(n)) is None,
{
    if n >= 0 {
        lemma_decimal_reads_back(n);
        assert(is_digit(decimal(n)[0]));
        assert((seq!['+'] + decimal(n)).skip(1) == decimal(n));
    } else {
        lemma_decimal_reads_back(-n);
        assert(decimal(n).skip(1) == decimal(-n));
    }
}

/// The number that digits stand for goes by their places: one more digit makes it ten times as
/// large, and adds its own value.
pub proof fn law_digits_count_by_place(s: Seq<char>, c: char)
    requires
        all_digits(s),
        '0' <= c <= '9',
    ensures
        digits_value(Seq::<char>::empty()) == 0,
        digits_value(s.push(c)) == digits_value(s) * 10 + (c as int - 48),
        natural(s.push(c)) == Some(digits_value(s.push(c))),
{
    assert(s.push(c).drop_last() == s);
    assert(all_digits(s.push(c))) by {
        assert forall|i: int| 0 <= i < s.push(c).len() implies #[trigger] is_digit(
            s.push(c)[i],
        ) by {
            if i < s.len() {
                assert(is_digit(s[i]));
            }
        }
    }
}

/// Text that is empty, or that has another character than a digit behind its sign, is no
/// number.
pub proof fn law_other_text_is_no_number(s: Seq<char>, i: int, max: int)
    requires
        s.len() == 0 || (0 <= i < s.len() && !('0' <= s[i] <= '9') && (i > 0 || (s[i] != '+' && s[i]
            != '-'))),
    ensures
        unsigned(s, max) is None,
        signed(s) is None,
{
    if s.len() > 0 {
        assert(!is_digit(s[i]));
        if i > 0 {
            assert(s.skip(1)[i - 1] == s[i]);
        }
    }
}

/// A negative number is one with a minus sign, which no unsigned number has.
pub proof fn law_minus_sign(d: Seq<char>, max: int)
    requires
        all_digits(d),
        d.len() > 0,
        digits_value(d) <= i64::MAX,
    ensures
        signed(seq!['-'] + d) == Some(-digits_value(d)),
        signed(d) == Some(digits_value(d)),
        unsigned(seq!['-'] + d, max) is None,
{
    let s = seq!['-'] + d;
    assert(s.skip(1) == d);
    assert(!is_digit(s[0]));
    assert(is_digit(d[0]));
    lemma_digits_value_bounds(d);
}

/// Padding adds zeros in front, as many as are missing, and so keeps the value.
pub proof fn law_padding_keeps_the_value(n: int, width: int)
    requires
        n >= 0,
    ensures
        padded(n, width).len() >= width,
        padded(n, width).len() > width ==> padded(n, width) == decimal(n),
        all_digits(padded(n, width)),
        digits_value(padded(n, width)) == n,
        0 <= n < 100 ==> two_digits(n).len() == 2 && all_digits(two_digits(n)) && digits_value(
            two_digits(n),
        ) == n,
{
    lemma_decimal_reads_back(n);
    let d = decimal(n);
    let p = padded(n, width);
    let k = p.len() - d.len();
    assert forall|i: int| 0 <= i < p.len() implies #[trigger] is_digit(p[i]) by {
        if i >= k {
            assert(p[i] == d[i - k]);
            assert(is_digit(d[i - k]));
        }
    }
    if k > 0 {
        lemma_leading_zeros(k as nat, d);
        assert(p == Seq::new(k as nat, |i: int| '0') + d);
    }
    if 0 <= n < 100 {
        reveal_with_fuel(decimal, 3);
        reveal_with_fuel(digits_value, 3);
        let t = two_digits(n);
        assert(t.drop_last().drop_last() == Seq::<char>::empty());
        assert forall|i: int| 0 <= i < t.len() implies #[trigger] is_digit(t[i]) by {}
    }
}

proof fn lemma_leading_zeros(k: nat, d: Seq<char>)
    ensures
        digits_value(Seq::new(k, |i: int| '0') + d) == digits_value(d),
    decreases d.len() + k,
{
    let z = Seq::new(k, |i: int| '0');
    let s = z + d;
    if d.len() > 0 {
        assert(s.drop_last() == z + d.drop_last());
        assert(s.last() == d.last());
        lemma_leading_zeros(k, d.drop_last());
    } else if k > 0 {
        assert(s.drop_last() == Seq::new((k - 1) as nat, |i: int| '0') + d);
        lemma_leading_zeros((k - 1) as nat, d);
    } else {
        assert(s == d);
    }
}

/// Two digits are a minimum, which a minus sign or a third digit makes up.
pub proof fn law_two_digits_are_a_minimum(n: int)
    ensures
        0 <= n < 10 ==> two_digits(n) == seq!['0'] + decimal(n),
        n < 0 || n >= 10 ==> two_digits(n) == decimal(n),
        n < 0 ==> decimal(n) == seq!['-'] + decimal(-n),
        n > 0 ==> decimal(n)[0] != '0',
    decreases n,
{
    if n >= 10 {
        law_two_digits_are_a_minimum(n / 10);
        lemma_decimal_reads_back(n / 10);
        assert(decimal(n)[0] == decimal(n / 10)[0]);
    }
}

/// Any run of digits is the number that it stands for, whatever zeros it starts with, up to the
/// largest that is taken.
pub proof fn law_any_digits_are_a_number(d: Seq<char>, max: int)
    requires
        all_digits(d),
        d.len() > 0,
    ensures
        digits_value(d) <= max ==> unsigned(d, max) == Some(digits_value(d)),
        digits_value(d) > max ==> unsigned(d, max) is None,
        unsigned(seq!['+'] + d, max) == unsigned(d, max),
{
    assert(is_digit(d[0]));
    assert((seq!['+'] + d).skip(1) == d);
}

} // verus!
