//! Unsigned decimal numerals: reading and writing.

use crate::text::chars_of;
use crate::text::string_of;
use vstd::prelude::*;

verus! {

broadcast use vstd::string::group_string_axioms;

/// The value of an ASCII digit.
pub open spec fn digit_value(c: char) -> int {
    c as u32 - '0' as u32
}

/// Whether a character is an ASCII digit.
pub open spec fn is_digit(c: char) -> bool {
    '0' <= c && c <= '9'
}

/// Whether a text is a non-empty row of ASCII digits.
pub open spec fn all_digits(s: Seq<char>) -> bool {
    &&& s.len() > 0
    &&& forall|i: int| 0 <= i < s.len() ==> is_digit(s[i])
}

/// The number that a row of digits writes.
pub open spec fn digits_value(s: Seq<char>) -> nat
    decreases s.len(),
{
    if s.len() == 0 {
        0
    } else {
        (digits_value(s.drop_last()) * 10 + digit_value(s.last())) as nat
    }
}

/// A numeral without the plus sign that may stand before it.
pub open spec fn unsigned_part(s: Seq<char>) -> Seq<char> {
    if s.len() > 0 && s[0] == '+' {
        s.drop_first()
    } else {
        s
    }
}

/// The number that a numeral writes, if it is one and the number is at most `max`.
///
/// A numeral is a non-empty row of ASCII digits, with or without a plus sign before it.
pub open spec fn parsed(s: Seq<char>, max: nat) -> Option<nat> {
    let d = unsigned_part(s);
    if all_digits(d) && digits_value(d) <= max {
        Some(digits_value(d))
    } else {
        None
    }
}

/// The shortest numeral of a number.
pub open spec fn numeral(n: nat) -> Seq<char>
    decreases n,
{
    let digit = ('0' as u32 + n % 10) as char;
    if n < 10 {
        seq![digit]
    } else {
        numeral(n / 10).push(digit)
    }
}

proof fn lemma_value_grows(s: Seq<char>, i: int)
    requires
        0 <= i <= s.len(),
        forall|j: int| 0 <= j < s.len() ==> is_digit(s[j]),
    ensures
        digits_value(s.take(i)) <= digits_value(s),
    decreases s.len(),
{
    if i == s.len() {
        assert(s.take(i) =~= s);
    } else {
        lemma_value_grows(s.drop_last(), i);
        assert(s.drop_last().take(i) =~= s.take(i));
    }
}

/// Reads an unsigned number that is at most `max`.
pub fn parse_up_to(s: &str, max: u64) -> (r: Option<u64>)
    ensures
        match r {
            Some(n) => parsed(s@, max as nat) == Some(n as nat),
            None => parsed(s@, max as nat) is None,
        },
{
    let cs = chars_of(s);
    let n = cs.len();
    let start: usize = if n > 0 && cs[0] == '+' {
        1
    } else {
        0
    };
    let ghost d = unsigned_part(s@);
    if start == n {
        return None;
    }
    let mut value: u64 = 0;
    let mut i: usize = start;
    while i < n
        invariant
            start <= i <= n,
            n == cs@.len(),
            cs@ == s@,
            d == s@.subrange(start as int, n as int),
            d == unsigned_part(s@),
            d.len() == n - start,
            forall|j: int| 0 <= j < i - start ==> is_digit(d[j]),
            value == digits_value(d.take(i - start)),
            value <= max,
        decreases n - i,
    {
        let c = cs[i];
        if !('0' <= c && c <= '9') {
            assert(!is_digit(d[i - start]));
            return None;
        }
        let digit: u64 = (c as u32 - '0' as u32) as u64;
        let ghost k = i - start;
        assert(d.take(k + 1).drop_last() =~= d.take(k));
        if value > max / 10 || digit > max - value * 10 {
            proof {
                if all_digits(d) {
                    lemma_value_grows(d, k + 1);
                }
            }
            return None;
        }
        value = value * 10 + digit;
        i = i + 1;
    }
    assert(d.take(d.len() as int) =~= d);
    Some(value)
}

/// Reads a `u64`.
pub fn parse_u64(s: &str) -> (r: Option<u64>)
    ensures
        match r {
            Some(n) => parsed(s@, u64::MAX as nat) == Some(n as nat),
            None => parsed(s@, u64::MAX as nat) is None,
        },
{
    parse_up_to(s, u64::MAX)
}

/// Reads a `u32`.
pub fn parse_u32(s: &str) -> (r: Option<u32>)
    ensures
        match r {
            Some(n) => parsed(s@, u32::MAX as nat) == Some(n as nat),
            None => parsed(s@, u32::MAX as nat) is None,
        },
{
    match parse_up_to(s, u32::MAX as u64) {
        Some(n) => Some(n as u32),
        None => None,
    }
}

/// Appends the numeral of a number.
pub fn push_decimal(out: &mut String, n: u64)
    ensures
        final(out)@ == old(out)@ + numeral(n as nat),
    decreases n,
{
    if n >= 10 {
        push_decimal(out, n / 10);
    }
    let digit: char = (('0' as u8) + (n % 10) as u8) as char;
    out.push(digit);
}

/// The numeral of a number.
pub fn to_decimal(n: u64) -> (r: String)
    ensures
        r@ == numeral(n as nat),
{
    let mut out = String::new();
    push_decimal(&mut out, n);
    out
}

/// A numeral is a row of digits that writes its number.
pub proof fn lemma_numeral(n: nat)
    ensures
        all_digits(numeral(n)),
        digits_value(numeral(n)) == n,
    decreases n,
{
    if n < 10 {
        assert(digits_value(numeral(n).drop_last()) == 0);
    } else {
        lemma_numeral(n / 10);
        assert(numeral(n).drop_last() =~= numeral(n / 10));
    }
}

/// Reading gives back what was written: the numeral of a number in range reads as that number.
pub proof fn law_parse_reads_what_was_written(n: nat, max: nat)
    requires
        n <= max,
    ensures
        parsed(numeral(n), max) == Some(n),
{
    lemma_numeral(n);
}

/// Different numbers have different numerals.
pub proof fn law_numerals_are_distinct(m: nat, n: nat)
    requires
        m != n,
    ensures
        numeral(m) != numeral(n),
{
    lemma_numeral(m);
    lemma_numeral(n);
}

/// A row of digits counts in tens: a digit behind a row adds its value to ten times the row's.
pub proof fn law_digits_count_in_tens(s: Seq<char>, digit: nat)
    requires
        digit < 10,
    ensures
        digits_value(s.push((0x30 + digit) as char)) == 10 * digits_value(s) + digit,
        digits_value(Seq::empty()) == 0,
{
    assert(s.push((0x30 + digit) as char).drop_last() =~= s);
}

/// A numeral has no leading zero, but for the numeral of zero itself, and holds digits only.
pub proof fn law_numerals_are_shortest(n: nat)
    ensures
        numeral(n).len() > 0,
        n > 0 ==> numeral(n)[0] != '0',
        n == 0 ==> numeral(n) == seq!['0'],
        forall|i: int| 0 <= i < numeral(n).len() ==> '0' <= #[trigger] numeral(n)[i] <= '9',
        digits_value(numeral(n)) == n,
    decreases n,
{
    lemma_numeral(n);
    if n >= 10 {
        law_numerals_are_shortest(n / 10);
    }
    assert forall|i: int| 0 <= i < numeral(n).len() implies '0' <= #[trigger] numeral(n)[i]
        <= '9' by {
        assert(is_digit(numeral(n)[i]));
    }
}

proof fn lemma_leading_zeros(zeros: Seq<char>, n: nat)
    requires
        forall|i: int| 0 <= i < zeros.len() ==> #[trigger] zeros[i] == '0',
    ensures
        all_digits(zeros + numeral(n)),
        digits_value(zeros + numeral(n)) == n,
    decreases n,
{
    let s = zeros + numeral(n);
    lemma_numeral(n);
    assert forall|i: int| 0 <= i < s.len() implies is_digit(s[i]) by {
        if i >= zeros.len() {
            assert(is_digit(numeral(n)[i - zeros.len()]));
        }
    }
    if n < 10 {
        assert(s.drop_last() =~= zeros);
        lemma_zeros(zeros);
    } else {
        lemma_leading_zeros(zeros, n / 10);
        assert(s.drop_last() =~= zeros + numeral(n / 10));
    }
}

proof fn lemma_zeros(zeros: Seq<char>)
    requires
        forall|i: int| 0 <= i < zeros.len() ==> #[trigger] zeros[i] == '0',
    ensures
        digits_value(zeros) == 0,
    decreases zeros.len(),
{
    if zeros.len() > 0 {
        lemma_zeros(zeros.drop_last());
    }
}

proof fn lemma_zeros_of(s: Seq<char>) -> (zeros: Seq<char>)
    requires
        all_digits(s),
    ensures
        forall|i: int| 0 <= i < zeros.len() ==> #[trigger] zeros[i] == '0',
        s == zeros + numeral(digits_value(s)),
    decreases s.len(),
{
    let front = s.drop_last();
    let d = digit_value(s.last()) as nat;
    assert(is_digit(s.last()));
    assert((0x30 + d) as char == s.last());
    if front.len() == 0 {
        assert(digits_value(front) == 0);
        let zeros = Seq::<char>::empty();
        assert(numeral(d) =~= seq![s.last()]);
        assert(s =~= zeros + numeral(digits_value(s)));
        zeros
    } else {
        assert forall|i: int| 0 <= i < front.len() implies is_digit(front[i]) by {
            assert(is_digit(s[i]));
        }
        let before = lemma_zeros_of(front);
        let v = digits_value(front);
        assert(digits_value(s) == 10 * v + d);
        if v == 0 {
            let zeros = before.push('0');
            assert(numeral(0) =~= seq!['0']);
            assert(numeral(d) =~= seq![s.last()]);
            assert(s =~= front.push(s.last()));
            assert(s =~= zeros + numeral(d));
            zeros
        } else {
            assert((10 * v + d) / 10 == v);
            assert((10 * v + d) % 10 == d);
            assert(numeral(10 * v + d) == numeral(v).push(s.last()));
            assert(s =~= front.push(s.last()));
            assert(s =~= before + numeral(10 * v + d));
            before
        }
    }
}

/// A number is read from its numeral, with leading zeros and one plus sign allowed before it, and
/// from nothing else. Numbers above the maximum are not read.
pub proof fn law_only_numerals_are_read(s: Seq<char>, n: nat, max: nat)
    ensures
        parsed(s, max) == Some(n) <==> n <= max && exists|sign: Seq<char>, zeros: Seq<char>|
            (sign == Seq::<char>::empty() || sign == seq!['+']) && (forall|i: int|
                0 <= i < zeros.len() ==> #[trigger] zeros[i] == '0') && s == #[trigger] (sign
                + zeros + numeral(n)),
{
    let d = unsigned_part(s);
    if parsed(s, max) == Some(n) {
        let zeros = lemma_zeros_of(d);
        let sign = if d == s {
            Seq::<char>::empty()
        } else {
            seq!['+']
        };
        if d != s {
            assert(s =~= seq!['+'] + d);
        }
        assert(s =~= sign + d);
        assert(sign + (zeros + numeral(n)) =~= sign + zeros + numeral(n));
        assert forall|i: int| 0 <= i < zeros.len() implies #[trigger] zeros[i] == '0' by {}
    }
    if n <= max && exists|sign: Seq<char>, zeros: Seq<char>|
        (sign == Seq::<char>::empty() || sign == seq!['+']) && (forall|i: int|
            0 <= i < zeros.len() ==> #[trigger] zeros[i] == '0') && s == #[trigger] (sign + zeros
            + numeral(n)) {
        let (sign, zeros) = choose|sign: Seq<char>, zeros: Seq<char>|
            (sign == Seq::<char>::empty() || sign == seq!['+']) && (forall|i: int|
                0 <= i < zeros.len() ==> #[trigger] zeros[i] == '0') && s == #[trigger] (sign
                + zeros + numeral(n));
        lemma_leading_zeros(zeros, n);
        let t = zeros + numeral(n);
        assert(is_digit(t[0]));
        if sign.len() == 0 {
            assert(s =~= t);
            assert(d == t);
        } else {
            assert(s.drop_first() =~= t);
            assert(d == t);
        }
    }
}

} // verus!
