//! Integers in decimal notation: reading unsigned numbers from text and
//! writing signed ones out.

use crate::text::push_char;
use vstd::prelude::*;
use vstd::std_specs::iter::IteratorSpec;

verus! {

/// Whether `c` is one of the ten ASCII digits.
pub open spec fn is_digit(c: char) -> bool {
    0x30 <= c as u32 <= 0x39
}

/// The value of the ASCII digit `c`.
pub open spec fn digit_value(c: char) -> nat {
    (c as u32 - 0x30) as nat
}

/// The ASCII digit for `d`, which is at most 9.
pub open spec fn digit_char(d: nat) -> char {
    if d == 0 {
        '0'
    } else if d == 1 {
        '1'
    } else if d == 2 {
        '2'
    } else if d == 3 {
        '3'
    } else if d == 4 {
        '4'
    } else if d == 5 {
        '5'
    } else if d == 6 {
        '6'
    } else if d == 7 {
        '7'
    } else if d == 8 {
        '8'
    } else {
        '9'
    }
}

/// Whether `s` holds ASCII digits only.
pub open spec fn all_digits(s: Seq<char>) -> bool {
    forall|i: int| 0 <= i < s.len() ==> is_digit(#[trigger] s[i])
}

/// The number that the digits `s` denote, most significant digit first.
pub open spec fn digits_value(s: Seq<char>) -> nat
    decreases s.len(),
{
    if s.len() == 0 {
        0
    } else {
        digits_value(s.drop_last()) * 10 + digit_value(s.last())
    }
}

/// `s` without a plus sign in front.
pub open spec fn unsigned_body(s: Seq<char>) -> Seq<char> {
    if s.len() > 0 && s[0] == '+' {
        s.skip(1)
    } else {
        s
    }
}

/// The number that `s` denotes as an unsigned decimal of at most `max`: an
/// optional plus sign, then one or more ASCII digits and nothing else. Any
/// other text, and a number above `max`, denotes none.
pub open spec fn unsigned_of(s: Seq<char>, max: nat) -> Option<nat> {
    let body = unsigned_body(s);
    if body.len() > 0 && all_digits(body) && digits_value(body) <= max {
        Some(digits_value(body))
    } else {
        None
    }
}

/// The digits of `n`, most significant first, without leading zeros.
pub open spec fn decimal_digits(n: nat) -> Seq<char>
    decreases n,
{
    if n < 10 {
        seq![digit_char(n)]
    } else {
        decimal_digits(n / 10).push(digit_char(n % 10))
    }
}

/// `n` in decimal notation, with a minus sign in front where it is negative.
pub open spec fn decimal(n: int) -> Seq<char> {
    if n < 0 {
        seq!['-'] + decimal_digits((-n) as nat)
    } else {
        decimal_digits(n as nat)
    }
}

/// The value of digits does not shrink when more digits follow.
proof fn lemma_digits_value_grows(s: Seq<char>, n: int)
    requires
        0 <= n <= s.len(),
    ensures
        digits_value(s.take(n)) <= digits_value(s),
    decreases s.len() - n,
{
    if n == s.len() {
        assert(s.take(n) == s);
    } else {
        lemma_digits_value_grows(s, n + 1);
        assert(s.take(n + 1).drop_last() == s.take(n));
    }
}

/// The digits of a number denote that number.
proof fn lemma_digits_denote(n: nat)
    ensures
        decimal_digits(n).len() > 0,
        all_digits(decimal_digits(n)),
        digits_value(decimal_digits(n)) == n,
    decreases n,
{
    let digits = decimal_digits(n);
    assert(digit_value(digit_char(n % 10)) == n % 10 && is_digit(digit_char(n % 10)));
    assert(digits.last() == digit_char(n % 10));
    if n < 10 {
        assert(digits.drop_last() == Seq::<char>::empty());
        assert(digits_value(digits.drop_last()) == 0);
        assert(is_digit(digits[0]));
    } else {
        lemma_digits_denote(n / 10);
        let init = decimal_digits(n / 10);
        assert(digits.drop_last() == init);
        assert forall|i: int| 0 <= i < digits.len() implies is_digit(#[trigger] digits[i]) by {
            if i < init.len() {
                assert(digits[i] == init[i]);
            }
        }
    }
}

/// A number that is written out is read back: the decimal notation of a
/// number within `max` denotes that number.
pub proof fn lemma_written_number_is_read_back(n: nat, max: nat)
    requires
        n <= max,
    ensures
        unsigned_of(decimal(n as int), max) == Some(n),
{
    lemma_digits_denote(n);
    let digits = decimal_digits(n);
    assert(is_digit(digits[0]));
    assert(unsigned_body(digits) == digits);
}

/// Reads `text` as an unsigned decimal number of at most `max`.
pub fn parse_unsigned(text: &str, max: u64) -> (r: Option<u64>)
    ensures
        match r {
            Some(n) => unsigned_of(text@, max as nat) == Some(n as nat),
            None => unsigned_of(text@, max as nat) is None,
        },
{
    let mut it = text.chars();
    let mut value: u64 = 0;
    let mut any = false;
    let mut first = true;
    let ghost mut seen: int = 0;
    let ghost mut from: int = 0;
    loop
        invariant
            0 <= from <= seen <= text@.len(),
            it.remaining() == text@.skip(seen),
            first <==> seen == 0,
            from == (if text@.len() > 0 && text@[0] == '+' && seen > 0 {
                1int
            } else {
                0int
            }),
            any <==> seen > from,
            all_digits(text@.subrange(from, seen)),
            value == digits_value(text@.subrange(from, seen)),
            value <= max,
        ensures
            seen == text@.len(),
        decreases text@.len() - seen,
    {
        match it.next() {
            None => {
                assert(text@.skip(seen).len() == 0);
                break ;
            },
            Some(c) => {
                assert(c == text@[seen]);
                let ghost digits = text@.subrange(from, seen);
                let ghost body = unsigned_body(text@);
                let u: u32 = c as u32;
                if first && c == '+' {
                    proof {
                        seen = 1;
                        from = 1;
                        assert(text@.subrange(1, 1) == Seq::<char>::empty());
                    }
                    first = false;
                } else {
                    if first {
                        assert(body == text@);
                    }
                    assert(body == text@.skip(from));
                    assert(body[seen - from] == c);
                    if u < 0x30 || u > 0x39 {
                        assert(!is_digit(body[seen - from]));
                        return None;
                    }
                    let d: u64 = (u - 0x30) as u64;
                    let ghost upto = text@.subrange(from, seen + 1);
                    assert(upto.drop_last() == digits);
                    assert(upto.last() == c);
                    assert(upto == body.take(seen + 1 - from));
                    if d > max || value > (max - d) / 10 {
                        proof {
                            assert(digits_value(upto) > max);
                            if all_digits(body) {
                                lemma_digits_value_grows(body, seen + 1 - from);
                            }
                        }
                        return None;
                    }
                    value = value * 10 + d;
                    any = true;
                    first = false;
                    proof {
                        seen = seen + 1;
                    }
                }
            },
        }
    }
    assert(text@.subrange(from, seen) == unsigned_body(text@));
    if any {
        Some(value)
    } else {
        None
    }
}

/// Reads `text` as an unsigned decimal number that fits 64 bits.
pub fn parse_u64(text: &str) -> (r: Option<u64>)
    ensures
        match r {
            Some(n) => unsigned_of(text@, u64::MAX as nat) == Some(n as nat),
            None => unsigned_of(text@, u64::MAX as nat) is None,
        },
{
    parse_unsigned(text, u64::MAX)
}

/// Reads `text` as an unsigned decimal number that fits 16 bits.
pub fn parse_u16(text: &str) -> (r: Option<u16>)
    ensures
        match r {
            Some(n) => unsigned_of(text@, u16::MAX as nat) == Some(n as nat),
            None => unsigned_of(text@, u16::MAX as nat) is None,
        },
{
    match parse_unsigned(text, 0xFFFF) {
        Some(n) => Some(n as u16),
        None => None,
    }
}

/// The ASCII digit for `d`.
fn digit_of(d: u64) -> (c: char)
    requires
        d < 10,
    ensures
        c == digit_char(d as nat),
{
    if d == 0 {
        '0'
    } else if d == 1 {
        '1'
    } else if d == 2 {
        '2'
    } else if d == 3 {
        '3'
    } else if d == 4 {
        '4'
    } else if d == 5 {
        '5'
    } else if d == 6 {
        '6'
    } else if d == 7 {
        '7'
    } else if d == 8 {
        '8'
    } else {
        '9'
    }
}

/// Appends `n` in decimal notation to `out`.
pub fn push_decimal(out: &mut String, n: i64)
    ensures
        final(out)@ == old(out)@ + decimal(n as int),
{
    let ghost start = out@;
    let mut rest: u64 = if n < 0 {
        push_char(out, '-');
        (-(n + 1)) as u64 + 1
    } else {
        n as u64
    };
    let ghost magnitude = rest as nat;
    let ghost signed = out@;
    assert(start + decimal(n as int) == signed + decimal_digits(magnitude));
    // the digits from the least significant one up
    let mut low: Vec<char> = Vec::new();
    while rest >= 10
        invariant
            decimal_digits(magnitude) == decimal_digits(rest as nat) + Seq::new(
                low@.len(),
                |j: int| low@[low@.len() - 1 - j],
            ),
        decreases rest,
    {
        let ghost before = low@;
        let ghost tail = Seq::new(before.len(), |j: int| before[before.len() - 1 - j]);
        let c = digit_of(rest % 10);
        low.push(c);
        assert(Seq::new(low@.len(), |j: int| low@[low@.len() - 1 - j]) == seq![c] + tail);
        assert(decimal_digits((rest / 10) as nat).push(c) + tail == decimal_digits(
            (rest / 10) as nat,
        ) + (seq![c] + tail));
        rest = rest / 10;
    }
    let ghost tail = Seq::new(low@.len(), |j: int| low@[low@.len() - 1 - j]);
    push_char(out, digit_of(rest));
    assert(decimal_digits(magnitude) == seq![digit_char(rest as nat)] + tail);
    let mut i: usize = low.len();
    while i > 0
        invariant
            0 <= i <= low@.len(),
            tail == Seq::new(low@.len(), |j: int| low@[low@.len() - 1 - j]),
            out@ == signed + seq![digit_char(rest as nat)] + tail.take(low@.len() - i),
        decreases i,
    {
        i = i - 1;
        let ghost sofar = out@;
        push_char(out, low[i]);
        assert(tail.take(low@.len() - i) == tail.take(low@.len() - i - 1).push(low@[i as int]));
    }
    assert(tail.take(low@.len() as int) == tail);
}

/// `n` in decimal notation.
pub fn decimal_string(n: i64) -> (text: String)
    ensures
        text@ == decimal(n as int),
{
    let mut text = String::new();
    push_decimal(&mut text, n);
    text
}

} // verus!
