//! Version numbers and which of two is the newer.

use vstd::prelude::*;
use vstd::string::*;

use crate::decimal::{
    all_digits, compare_numbers, decimal_round_trip, decimal_text, digits_value, is_digit,
    number_digits, number_of, unsigned_part, Size,
};
use crate::text::{
    joined, joined_one_by_one, lemma_split_last, lemma_split_single, split, split_at_each,
};

verus! {

/// The numbers among `parts`, in order; a part that is no number is left out.
pub open spec fn numbers_of(parts: Seq<Seq<char>>) -> Seq<nat>
    decreases parts.len(),
{
    if parts.len() == 0 {
        Seq::empty()
    } else {
        match number_of(parts.last()) {
            Some(n) => numbers_of(parts.drop_last()).push(n),
            None => numbers_of(parts.drop_last()),
        }
    }
}

/// The numbers that the dots of a version text separate.
pub open spec fn version_numbers(version: Seq<char>) -> Seq<nat> {
    numbers_of(split_at_each(version, '.'))
}

/// The digits of the numbers among `parts`, in order.
pub open spec fn digits_of(parts: Seq<Seq<char>>) -> Seq<Seq<char>>
    decreases parts.len(),
{
    if parts.len() == 0 {
        Seq::empty()
    } else if number_of(parts.last()) is Some {
        digits_of(parts.drop_last()).push(unsigned_part(parts.last()))
    } else {
        digits_of(parts.drop_last())
    }
}

/// Whether `rows` are the digits of `numbers`, each in its place.
pub open spec fn write_down(rows: Seq<Seq<char>>, numbers: Seq<nat>) -> bool {
    &&& rows.len() == numbers.len()
    &&& forall|i: int|
        0 <= i < rows.len() ==> all_digits(#[trigger] rows[i]) && digits_value(rows[i])
            == numbers[i]
}

/// The number at position `i` of a version; those that are not written are zero.
pub open spec fn number_at(version: Seq<nat>, i: int) -> nat {
    if 0 <= i < version.len() {
        version[i]
    } else {
        0
    }
}

/// Whether `a` and `b` agree before position `i`.
pub open spec fn agree_before(a: Seq<nat>, b: Seq<nat>, i: int) -> bool {
    forall|j: int| 0 <= j < i ==> #[trigger] number_at(a, j) == number_at(b, j)
}

/// Whether `a` has the greater number at the first position where they differ.
pub open spec fn is_newer(a: Seq<nat>, b: Seq<nat>) -> bool {
    exists|i: int| 0 <= i && #[trigger] number_at(a, i) > number_at(b, i) && agree_before(a, b, i)
}

/// Whether `a` and `b` are the same version: they differ at most in zeros at the end.
pub open spec fn is_same(a: Seq<nat>, b: Seq<nat>) -> bool {
    forall|i: int| 0 <= i ==> #[trigger] number_at(a, i) == number_at(b, i)
}

/// The digits of the numbers that the dots of a version text separate.
pub fn parse_version<'a>(version: &'a str) -> (r: Vec<&'a str>)
    ensures
        r.deep_view() == digits_of(split_at_each(version@, '.')),
        write_down(r.deep_view(), version_numbers(version@)),
{
    let parts = split(version, '.');
    let ghost all = parts.deep_view();
    let mut r: Vec<&'a str> = Vec::new();
    let mut i: usize = 0;
    assert(r.deep_view() =~= Seq::empty());
    while i < parts.len()
        invariant
            i <= parts.len(),
            all == parts.deep_view(),
            r.deep_view() == digits_of(all.take(i as int)),
            write_down(r.deep_view(), numbers_of(all.take(i as int))),
        decreases parts.len() - i,
    {
        let ghost before = r.deep_view();
        proof {
            assert(all.take(i + 1).last() == parts[i as int]@);
            assert(all.take(i + 1).drop_last() =~= all.take(i as int));
        }
        if let Some(digits) = number_digits(parts[i]) {
            r.push(digits);
            assert(r.deep_view() =~= before.push(digits@));
        }
        i = i + 1;
    }
    assert(all.take(i as int) =~= all);
    r
}

/// The digits of the number at position `i` of a version; none for a number that is not
/// written.
fn digits_at<'a>(version: &Vec<&'a str>, i: usize, Ghost(numbers): Ghost<Seq<nat>>) -> (r: &'a str)
    requires
        write_down(version.deep_view(), numbers),
    ensures
        all_digits(r@),
        digits_value(r@) == number_at(numbers, i as int),
{
    if i < version.len() {
        assert(version.deep_view()[i as int] == version[i as int]@);
        version[i]
    } else {
        proof {
            reveal_strlit("");
        }
        ""
    }
}

/// Whether the version `v1` is newer than `v2`.
pub fn compare_versions(v1: &str, v2: &str) -> (r: bool)
    ensures
        r == is_newer(version_numbers(v1@), version_numbers(v2@)),
{
    let a = parse_version(v1);
    let b = parse_version(v2);
    let ghost x = version_numbers(v1@);
    let ghost y = version_numbers(v2@);
    let n: usize = if a.len() > b.len() {
        a.len()
    } else {
        b.len()
    };
    let mut i: usize = 0;
    while i < n
        invariant
            i <= n,
            x.len() <= n,
            y.len() <= n,
            x == version_numbers(v1@),
            y == version_numbers(v2@),
            write_down(a.deep_view(), x),
            write_down(b.deep_view(), y),
            agree_before(x, y, i as int),
        decreases n - i,
    {
        let p1 = digits_at(&a, i, Ghost(x));
        let p2 = digits_at(&b, i, Ghost(y));
        match compare_numbers(p1, p2) {
            Size::Greater => {
                assert(number_at(x, i as int) > number_at(y, i as int));
                return true;
            },
            Size::Smaller => {
                proof {
                    assert(number_at(y, i as int) > number_at(x, i as int));
                    assert(is_newer(y, x));
                    newer_is_asymmetric(y, x);
                }
                return false;
            },
            Size::Same => {},
        }
        i = i + 1;
    }
    proof {
        assert forall|j: int| 0 <= j implies #[trigger] number_at(x, j) == number_at(y, j) by {}
        same_is_not_newer(x, y);
    }
    false
}

proof fn lemma_agree(a: Seq<nat>, b: Seq<nat>, i: int, j: int)
    requires
        agree_before(a, b, i),
        0 <= j < i,
    ensures
        number_at(a, j) == number_at(b, j),
{
}

/// Two versions are never each newer than the other, and none is newer than itself.
pub proof fn newer_is_asymmetric(a: Seq<nat>, b: Seq<nat>)
    requires
        is_newer(a, b),
    ensures
        !is_newer(b, a),
        a != b,
{
    let i = choose|i: int|
        0 <= i && #[trigger] number_at(a, i) > number_at(b, i) && agree_before(a, b, i);
    if is_newer(b, a) {
        let j = choose|j: int|
            0 <= j && #[trigger] number_at(b, j) > number_at(a, j) && agree_before(b, a, j);
        if j < i {
            lemma_agree(a, b, i, j);
        } else if i < j {
            lemma_agree(b, a, j, i);
        }
    }
}

/// What is newer than a newer version is newer.
pub proof fn newer_is_transitive(a: Seq<nat>, b: Seq<nat>, c: Seq<nat>)
    requires
        is_newer(a, b),
        is_newer(b, c),
    ensures
        is_newer(a, c),
{
    let i = choose|i: int|
        0 <= i && #[trigger] number_at(a, i) > number_at(b, i) && agree_before(a, b, i);
    let j = choose|j: int|
        0 <= j && #[trigger] number_at(b, j) > number_at(c, j) && agree_before(b, c, j);
    let k = if i < j {
        i
    } else {
        j
    };
    assert forall|m: int| 0 <= m < k implies #[trigger] number_at(a, m) == number_at(c, m) by {
        lemma_agree(a, b, i, m);
        lemma_agree(b, c, j, m);
    }
    if i < j {
        lemma_agree(b, c, j, i);
    } else if j < i {
        lemma_agree(a, b, i, j);
    }
    assert(number_at(a, k) > number_at(c, k));
}

/// The same version is not newer, in either direction.
pub proof fn same_is_not_newer(a: Seq<nat>, b: Seq<nat>)
    requires
        is_same(a, b),
    ensures
        !is_newer(a, b),
        !is_newer(b, a),
{
}

/// Of two versions one is the newer, or they are the same.
pub proof fn versions_are_comparable(a: Seq<nat>, b: Seq<nat>)
    ensures
        is_newer(a, b) || is_newer(b, a) || is_same(a, b),
{
    lemma_comparable_from(a, b, 0);
}

proof fn lemma_comparable_from(a: Seq<nat>, b: Seq<nat>, i: int)
    requires
        0 <= i,
        agree_before(a, b, i),
    ensures
        is_newer(a, b) || is_newer(b, a) || is_same(a, b),
    decreases a.len() + b.len() - i,
{
    if i >= a.len() && i >= b.len() {
        assert forall|j: int| 0 <= j implies #[trigger] number_at(a, j) == number_at(b, j) by {}
    } else if number_at(a, i) > number_at(b, i) {
        assert(is_newer(a, b));
    } else if number_at(b, i) > number_at(a, i) {
        assert(agree_before(b, a, i));
        assert(is_newer(b, a));
    } else {
        lemma_comparable_from(a, b, i + 1);
    }
}

/// Zeros at the end of a version do not count.
pub proof fn trailing_zero_does_not_count(a: Seq<nat>)
    ensures
        is_same(a.push(0), a),
{
}

/// A part of a version that is no number does not count.
pub proof fn non_number_does_not_count(parts: Seq<Seq<char>>, part: Seq<char>)
    requires
        number_of(part) is None,
    ensures
        numbers_of(parts.push(part)) == numbers_of(parts),
{
    assert(parts.push(part).drop_last() =~= parts);
}

/// The text of a version with the given numbers.
pub open spec fn version_text(numbers: Seq<nat>) -> Seq<char> {
    joined(numbers.map_values(|n: nat| decimal_text(n)), "."@)
}

/// A version is written as its numbers in decimal digits with dots between them.
pub proof fn versions_are_written_with_dots(numbers: Seq<nat>, n: nat)
    ensures
        version_text(seq![n]) == decimal_text(n),
        numbers.len() > 0 ==> version_text(numbers.push(n)) == version_text(numbers) + seq!['.']
            + decimal_text(n),
{
    reveal_strlit(".");
    assert("."@ =~= seq!['.']);
    let parts = numbers.map_values(|m: nat| decimal_text(m));
    assert(seq![n].map_values(|m: nat| decimal_text(m)) =~= seq![decimal_text(n)]);
    assert(numbers.push(n).map_values(|m: nat| decimal_text(m)) =~= parts.push(decimal_text(n)));
    joined_one_by_one(parts, decimal_text(n), "."@);
}

/// The numbers of a version, of any size, are read back from its text; so versions that
/// are written as numbers compare as those numbers do.
pub proof fn version_round_trip(numbers: Seq<nat>)
    ensures
        version_numbers(version_text(numbers)) == numbers,
{
    let parts = numbers.map_values(|n: nat| decimal_text(n));
    if numbers.len() == 0 {
        lemma_split_single(Seq::empty(), '.');
        let none = seq![Seq::<char>::empty()];
        assert(none.drop_last() =~= Seq::empty());
        assert(numbers_of(none.drop_last()) =~= Seq::empty());
        assert(numbers_of(none) =~= numbers);
    } else {
        assert forall|i: int| 0 <= i < parts.len() implies !(#[trigger] parts[i]).contains('.') by {
            lemma_number_has_no_dot(numbers[i]);
        }
        lemma_split_joined(parts);
        lemma_numbers_of_texts(numbers);
    }
}

proof fn lemma_number_has_no_dot(n: nat)
    ensures
        !decimal_text(n).contains('.'),
{
    decimal_round_trip(n, n);
    if decimal_text(n).contains('.') {
        let j = choose|j: int| 0 <= j < decimal_text(n).len() && decimal_text(n)[j] == '.';
        assert(is_digit(decimal_text(n)[j]));
    }
}

proof fn lemma_split_joined(parts: Seq<Seq<char>>)
    requires
        parts.len() > 0,
        forall|i: int| 0 <= i < parts.len() ==> !(#[trigger] parts[i]).contains('.'),
    ensures
        split_at_each(joined(parts, "."@), '.') == parts,
    decreases parts.len(),
{
    reveal_strlit(".");
    if parts.len() == 1 {
        lemma_split_single(parts[0], '.');
        assert(parts =~= seq![parts[0]]);
    } else {
        let before = parts.drop_last();
        lemma_split_joined(before);
        lemma_split_last(joined(before, "."@), parts.last(), '.');
        assert("."@ =~= seq!['.']);
        assert(before.push(parts.last()) =~= parts);
    }
}

proof fn lemma_numbers_of_texts(numbers: Seq<nat>)
    ensures
        numbers_of(numbers.map_values(|n: nat| decimal_text(n))) == numbers,
    decreases numbers.len(),
{
    let parts = numbers.map_values(|n: nat| decimal_text(n));
    if numbers.len() > 0 {
        lemma_numbers_of_texts(numbers.drop_last());
        decimal_round_trip(numbers.last(), numbers.last());
        assert(parts.drop_last() =~= numbers.drop_last().map_values(|n: nat| decimal_text(n)));
        assert(numbers.drop_last().push(numbers.last()) =~= numbers);
    } else {
        assert(numbers_of(parts) =~= numbers);
    }
}

/// The numbers of a version are those of its parts, in order, each of whatever size.
pub proof fn numbers_count_in_order(parts: Seq<Seq<char>>, part: Seq<char>, n: nat)
    requires
        number_of(part) == Some(n),
    ensures
        numbers_of(Seq::empty()) == Seq::<nat>::empty(),
        numbers_of(parts.push(part)) == numbers_of(parts).push(n),
        digits_of(Seq::empty()) == Seq::<Seq<char>>::empty(),
        digits_of(parts.push(part)) == digits_of(parts).push(unsigned_part(part)),
{
    assert(parts.push(part).drop_last() =~= parts);
}

/// The parts of a version are what its dots separate.
pub proof fn dots_separate_numbers(version: Seq<char>)
    ensures
        version_numbers(version) == numbers_of(split_at_each(version, '.')),
{
}

/// The first number in which two versions differ decides which is newer, with zeros for
/// numbers that are not written; what follows it does not count.
pub proof fn first_difference_decides(a: Seq<nat>, b: Seq<nat>, i: int)
    requires
        0 <= i,
        forall|j: int|
            #![trigger a[j]]
            #![trigger b[j]]
            0 <= j < i ==> (if j < a.len() {
                a[j]
            } else {
                0
            }) == (if j < b.len() {
                b[j]
            } else {
                0
            }),
        (if i < a.len() {
            a[i]
        } else {
            0
        }) > (if i < b.len() {
            b[i]
        } else {
            0
        }),
    ensures
        is_newer(a, b),
        !is_newer(b, a),
{
    assert forall|j: int| 0 <= j < i implies #[trigger] number_at(a, j) == number_at(b, j) by {
        if j < a.len() {
            assert(a[j] == a[j]);
        }
    }
    assert(agree_before(a, b, i));
    assert(number_at(a, i) > number_at(b, i));
    newer_is_asymmetric(a, b);
}

/// Of versions that differ in no number, but for zeros that are not written, neither is
/// newer.
pub proof fn equal_numbers_are_not_newer(a: Seq<nat>, b: Seq<nat>)
    requires
        forall|j: int|
            #![trigger a[j]]
            #![trigger b[j]]
            0 <= j ==> (if j < a.len() {
                a[j]
            } else {
                0
            }) == (if j < b.len() {
                b[j]
            } else {
                0
            }),
    ensures
        !is_newer(a, b),
        !is_newer(b, a),
{
    assert forall|j: int| 0 <= j implies #[trigger] number_at(a, j) == number_at(b, j) by {
        if j < a.len() {
            assert(a[j] == a[j]);
        }
    }
    same_is_not_newer(a, b);
}

} // verus!
