//! Unsigned decimal numbers as text.

use vstd::prelude::*;
use vstd::string::*;

use crate::text::chars_of;

verus! {

/// Whether `c` is one of the ten ASCII digits.
pub open spec fn is_digit(c: char) -> bool {
    '0' <= c <= '9'
}

/// The value of a digit.
pub open spec fn digit_value(c: char) -> nat {
    (c as u32 - '0' as u32) as nat
}

/// The digit that stands for `d`.
pub open spec fn digit_char(d: nat) -> char
    recommends
        d < 10,
{
    (d + '0' as u32) as char
}

/// The number that the digits of `s` write down.
pub open spec fn digits_value(s: Seq<char>) -> nat
    decreases s.len(),
{
    if s.len() == 0 {
        0
    } else {
        10 * digits_value(s.drop_last()) + digit_value(s.last())
    }
}

/// Whether `s` is digits only.
pub open spec fn all_digits(s: Seq<char>) -> bool {
    forall|i: int| 0 <= i < s.len() ==> is_digit(#[trigger] s[i])
}

/// `s` without one leading plus sign.
pub open spec fn unsigned_part(s: Seq<char>) -> Seq<char> {
    if s.len() > 0 && s.first() == '+' {
        s.drop_first()
    } else {
        s
    }
}

/// The number that `s` writes down: an optional plus sign, then one digit or more and
/// nothing else.
pub open spec fn number_of(s: Seq<char>) -> Option<nat> {
    let d = unsigned_part(s);
    if d.len() > 0 && all_digits(d) {
        Some(digits_value(d))
    } else {
        None
    }
}

/// The number that `s` writes down, if it is not above `max`.
pub open spec fn decimal_value(s: Seq<char>, max: nat) -> Option<nat> {
    match number_of(s) {
        Some(n) => if n <= max {
            Some(n)
        } else {
            None
        },
        None => None,
    }
}

/// `n` in decimal digits, without leading zeros.
pub open spec fn decimal_text(n: nat) -> Seq<char>
    decreases n,
{
    if n < 10 {
        seq![digit_char(n)]
    } else {
        decimal_text(n / 10).push(digit_char(n % 10))
    }
}

proof fn lemma_digits_value_grows(s: Seq<char>, i: int)
    requires
        0 <= i <= s.len(),
    ensures
        digits_value(s.take(i)) <= digits_value(s),
    decreases s.len(),
{
    if i == s.len() {
        assert(s.take(i) =~= s);
    } else {
        lemma_digits_value_grows(s.drop_last(), i);
        assert(s.drop_last().take(i) =~= s.take(i));
    }
}

proof fn lemma_decimal_text(n: nat)
    ensures
        decimal_text(n).len() > 0,
        all_digits(decimal_text(n)),
        digits_value(decimal_text(n)) == n,
    decreases n,
{
    if n < 10 {
        assert(seq![digit_char(n)].drop_last() =~= Seq::empty());
        reveal_with_fuel(digits_value, 2);
    } else {
        lemma_decimal_text(n / 10);
        assert(decimal_text(n).drop_last() =~= decimal_text(n / 10));
    }
}

/// A number is read back from its decimal text.
pub proof fn decimal_round_trip(n: nat, max: nat)
    requires
        n <= max,
    ensures
        decimal_value(decimal_text(n), max) == Some(n),
        number_of(decimal_text(n)) == Some(n),
        all_digits(decimal_text(n)),
        decimal_text(n).len() > 0,
{
    lemma_decimal_text(n);
    assert(is_digit(decimal_text(n)[0]));
}

/// Reads a decimal number up to `max`.
pub fn parse_decimal(s: &str, max: u32) -> (r: Option<u32>)
    ensures
        match r {
            Some(n) => decimal_value(s@, max as nat) == Some(n as nat),
            None => decimal_value(s@, max as nat) == None::<nat>,
        },
{
    let cs = chars_of(s);
    let ghost d = unsigned_part(s@);
    let start: usize = if cs.len() > 0 && cs[0] == '+' {
        1
    } else {
        0
    };
    proof {
        assert(d =~= s@.skip(start as int));
        assert(d.take(0) =~= Seq::empty());
    }
    if start == cs.len() {
        return None;
    }
    let mut n: u32 = 0;
    let mut i: usize = start;
    while i < cs.len()
        invariant
            cs@ == s@,
            d == unsigned_part(s@),
            d == s@.skip(start as int),
            start <= i <= cs.len(),
            start < cs.len(),
            all_digits(d.take(i - start)),
            n == digits_value(d.take(i - start)),
            n <= max,
        decreases cs.len() - i,
    {
        let c = cs[i];
        let ghost done = d.take(i - start);
        let ghost more = d.take(i - start + 1);
        assert(more.drop_last() =~= done);
        assert(more.last() == c);
        assert(d[i - start] == c);
        if !('0' <= c && c <= '9') {
            return None;
        }
        let digit: u32 = c as u32 - '0' as u32;
        let next: u64 = 10 * (n as u64) + digit as u64;
        assert(next == digits_value(more));
        if next > max as u64 {
            proof {
                lemma_digits_value_grows(d, i - start + 1);
            }
            return None;
        }
        proof {
            assert forall|j: int| 0 <= j < more.len() implies is_digit(#[trigger] more[j]) by {
                if j < done.len() {
                    assert(more[j] == done[j]);
                }
            }
        }
        n = next as u32;
        i = i + 1;
    }
    assert(d.take(i - start) =~= d);
    Some(n)
}

/// The digits of the number that `s` writes down, however large it is.
pub fn number_digits<'a>(s: &'a str) -> (r: Option<&'a str>)
    ensures
        match r {
            Some(d) => d@ == unsigned_part(s@) && all_digits(d@) && number_of(s@) == Some(
                digits_value(d@),
            ),
            None => number_of(s@) is None,
        },
{
    let cs = chars_of(s);
    let ghost d = unsigned_part(s@);
    let start: usize = if cs.len() > 0 && cs[0] == '+' {
        1
    } else {
        0
    };
    proof {
        assert(d =~= s@.skip(start as int));
    }
    if start == cs.len() {
        return None;
    }
    let mut i: usize = start;
    while i < cs.len()
        invariant
            cs@ == s@,
            d == unsigned_part(s@),
            d == s@.skip(start as int),
            start <= i <= cs.len(),
            start < cs.len(),
            forall|j: int| 0 <= j < i - start ==> is_digit(#[trigger] d[j]),
        decreases cs.len() - i,
    {
        let c = cs[i];
        assert(d[i - start] == c);
        if !('0' <= c && c <= '9') {
            return None;
        }
        i = i + 1;
    }
    assert(s@.subrange(start as int, s@.len() as int) =~= d);
    Some(s.substring_char(start, cs.len()))
}

/// How the size of one number compares to that of another.
#[derive(Debug, Clone, Copy, PartialEq, Eq, Structural)]
pub enum Size {
    /// It is smaller.
    Smaller,
    /// It is the same.
    Same,
    /// It is greater.
    Greater,
}

/// How the size of `a` compares to that of `b`.
pub open spec fn size_of(a: nat, b: nat) -> Size {
    if a < b {
        Size::Smaller
    } else if a == b {
        Size::Same
    } else {
        Size::Greater
    }
}

/// The digit at the place `i` of `s`, when zeros in front of it make it `n` long.
spec fn padded_digit(s: Seq<char>, n: int, i: int) -> nat {
    if i < n - s.len() {
        0
    } else {
        digit_value(s[i - (n - s.len())])
    }
}

/// The number that the first `i` places of `s` write down, when zeros in front of it
/// make it `n` long.
spec fn padded_value(s: Seq<char>, n: int, i: int) -> nat
    decreases i,
{
    if i <= 0 {
        0
    } else {
        10 * padded_value(s, n, i - 1) + padded_digit(s, n, i - 1)
    }
}

proof fn lemma_padded_value(s: Seq<char>, n: int, i: int)
    requires
        s.len() <= n,
        0 <= i <= n,
    ensures
        i <= n - s.len() ==> padded_value(s, n, i) == 0,
        i >= n - s.len() ==> padded_value(s, n, i) == digits_value(s.take(i - (n - s.len()))),
    decreases i,
{
    let k = i - (n - s.len());
    if i > 0 {
        lemma_padded_value(s, n, i - 1);
    }
    if k == 0 {
        assert(s.take(0) =~= Seq::empty());
    } else if k > 0 {
        assert(s.take(k).drop_last() =~= s.take(k - 1));
        assert(s.take(k).last() == s[k - 1]);
    }
}

/// The digit at the place `i` of `s`, when zeros in front of it make it `n` long.
fn digit_at(s: &Vec<char>, n: usize, i: usize) -> (r: u32)
    requires
        s.len() <= n,
        i < n,
        all_digits(s@),
    ensures
        r == padded_digit(s@, n as int, i as int),
        r <= 9,
{
    let pad: usize = n - s.len();
    if i < pad {
        0
    } else {
        let c = s[i - pad];
        assert(is_digit(s@[i - pad]));
        c as u32 - '0' as u32
    }
}

/// How the number that the digits `a` write down compares to that of the digits `b`.
pub(crate) fn compare_numbers(a: &str, b: &str) -> (r: Size)
    requires
        all_digits(a@),
        all_digits(b@),
    ensures
        r == size_of(digits_value(a@), digits_value(b@)),
        r is Smaller <==> digits_value(a@) < digits_value(b@),
        r is Greater <==> digits_value(a@) > digits_value(b@),
{
    let x = chars_of(a);
    let y = chars_of(b);
    let n: usize = if x.len() > y.len() {
        x.len()
    } else {
        y.len()
    };
    let mut r = Size::Same;
    let mut i: usize = 0;
    while i < n
        invariant
            i <= n,
            x@ == a@,
            y@ == b@,
            x.len() <= n,
            y.len() <= n,
            all_digits(a@),
            all_digits(b@),
            r == size_of(
                padded_value(a@, n as int, i as int),
                padded_value(b@, n as int, i as int),
            ),
        decreases n - i,
    {
        let p = digit_at(&x, n, i);
        let q = digit_at(&y, n, i);
        if matches!(r, Size::Same) {
            if p < q {
                r = Size::Smaller;
            } else if p > q {
                r = Size::Greater;
            }
        }
        i = i + 1;
    }
    proof {
        lemma_padded_value(a@, n as int, n as int);
        lemma_padded_value(b@, n as int, n as int);
        assert(a@.take(a@.len() as int) =~= a@);
        assert(b@.take(b@.len() as int) =~= b@);
    }
    r
}

/// The text of one digit.
fn digit_text(d: u8) -> (r: &'static str)
    requires
        d < 10,
    ensures
        r@ == seq![digit_char(d as nat)],
{
    proof {
        reveal_strlit("0");
        reveal_strlit("1");
        reveal_strlit("2");
        reveal_strlit("3");
        reveal_strlit("4");
        reveal_strlit("5");
        reveal_strlit("6");
        reveal_strlit("7");
        reveal_strlit("8");
        reveal_strlit("9");
    }
    match d {
        0 => "0",
        1 => "1",
        2 => "2",
        3 => "3",
        4 => "4",
        5 => "5",
        6 => "6",
        7 => "7",
        8 => "8",
        _ => "9",
    }
}

/// `n` in decimal digits.
pub fn decimal(n: u8) -> (r: String)
    ensures
        r@ == decimal_text(n as nat),
    decreases n,
{
    if n < 10 {
        digit_text(n).to_string()
    } else {
        let mut r = decimal(n / 10);
        r.append(digit_text(n % 10));
        proof {
            assert(r@ =~= decimal_text(n as nat));
        }
        r
    }
}

/// Digits count by their place: each digit that follows makes ten times what was written
/// before it, and adds itself.
pub proof fn digits_count_by_place(s: Seq<char>, c: char)
    requires
        '0' <= c <= '9',
    ensures
        digits_value(Seq::empty()) == 0,
        digits_value(s.push(c)) == 10 * digits_value(s) + (c as int - '0' as int),
{
    assert(s.push(c).drop_last() =~= s);
}

/// A row of digits is a number, however long, with or without one plus sign in front,
/// which does not count. A limit leaves out what is above it, and nothing else.
pub proof fn rows_of_digits_are_numbers(d: Seq<char>, max: nat)
    requires
        d.len() > 0,
        forall|i: int| 0 <= i < d.len() ==> '0' <= #[trigger] d[i] && d[i] <= '9',
    ensures
        number_of(d) == Some(digits_value(d)),
        number_of(seq!['+'] + d) == Some(digits_value(d)),
        unsigned_part(d) == d,
        unsigned_part(seq!['+'] + d) == d,
        digits_value(d) <= max ==> decimal_value(d, max) == Some(digits_value(d)),
        digits_value(d) <= max ==> decimal_value(seq!['+'] + d, max) == Some(digits_value(d)),
        digits_value(d) > max ==> decimal_value(d, max) is None,
        digits_value(d) > max ==> decimal_value(seq!['+'] + d, max) is None,
{
    assert forall|i: int| 0 <= i < d.len() implies is_digit(#[trigger] d[i]) by {}
    assert('0' <= d[0] && d[0] <= '9');
    assert((seq!['+'] + d).drop_first() =~= d);
}

/// Nothing but a row of digits, with at most one plus sign in front, is a number.
pub proof fn only_rows_of_digits_are_numbers(s: Seq<char>, max: nat)
    requires
        number_of(s) is Some || decimal_value(s, max) is Some,
    ensures
        s.len() > 0,
        '0' <= s[0] && s[0] <= '9' || s[0] == '+' && s.len() > 1,
        forall|i: int| 1 <= i < s.len() ==> '0' <= #[trigger] s[i] && s[i] <= '9',
{
    let d = unsigned_part(s);
    assert(is_digit(d[0]));
    assert forall|i: int| 1 <= i < s.len() implies '0' <= #[trigger] s[i] && s[i] <= '9' by {
        assert(is_digit(
            d[if s[0] == '+' {
                i - 1
            } else {
                i
            }],
        ));
    }
}

/// The text of a number is digits only, and starts with a zero only if the number is zero.
pub proof fn decimal_text_has_no_leading_zero(n: nat)
    ensures
        decimal_text(n).len() > 0,
        forall|i: int|
            0 <= i < decimal_text(n).len() ==> '0' <= #[trigger] decimal_text(n)[i]
                && decimal_text(n)[i] <= '9',
        digits_value(decimal_text(n)) == n,
        n > 0 ==> decimal_text(n)[0] != '0',
        n == 0 ==> decimal_text(n) == seq!['0'],
    decreases n,
{
    lemma_decimal_text(n);
    assert forall|i: int| 0 <= i < decimal_text(n).len() implies '0' <= #[trigger] decimal_text(
        n,
    )[i] && decimal_text(n)[i] <= '9' by {
        assert(is_digit(decimal_text(n)[i]));
    }
    if n >= 10 {
        decimal_text_has_no_leading_zero(n / 10);
        assert(decimal_text(n)[0] == decimal_text(n / 10)[0]);
    }
}

} // verus!
