//! Decimal text: how numbers are written into names, paths and commands.

use vstd::prelude::*;
use vstd::multiset::Multiset;

verus! {

/// Moving one element from the rest to the end of the elements already
/// placed keeps the elements that the two hold together.
pub proof fn lemma_move_keeps<A>(placed: Seq<A>, rest: Seq<A>, at: int)
    requires
        0 <= at < rest.len(),
    ensures
        placed.push(rest[at]).to_multiset().add(rest.remove(at).to_multiset())
            == placed.to_multiset().add(rest.to_multiset()),
{
    broadcast use vstd::multiset::group_multiset_axioms;

    vstd::seq_lib::to_multiset_build(placed, rest[at]);
    vstd::seq_lib::to_multiset_remove(rest, at);
    vstd::seq_lib::to_multiset_contains(rest, rest[at]);
    assert(rest.contains(rest[at]));
    let moved = placed.to_multiset().insert(rest[at]).add(rest.to_multiset().remove(rest[at]));
    let kept = placed.to_multiset().add(rest.to_multiset());
    assert(moved =~= kept);
}

/// With nothing in one of two sequences, the elements of both together are
/// the elements of the other.
pub proof fn lemma_nothing_there<A>(placed: Seq<A>, rest: Seq<A>)
    requires
        rest.len() == 0,
    ensures
        placed.to_multiset().add(rest.to_multiset()) == placed.to_multiset(),
        rest.to_multiset().add(placed.to_multiset()) == placed.to_multiset(),
{
    broadcast use vstd::multiset::group_multiset_axioms;

    vstd::seq_lib::to_multiset_len(rest);
    assert(rest.to_multiset() =~= Multiset::<A>::empty());
    assert(placed.to_multiset().add(rest.to_multiset()) =~= placed.to_multiset());
    assert(rest.to_multiset().add(placed.to_multiset()) =~= placed.to_multiset());
}

/// The character of a decimal digit.
pub open spec fn digit_char(digit: int) -> char {
    if digit == 0 {
        '0'
    } else if digit == 1 {
        '1'
    } else if digit == 2 {
        '2'
    } else if digit == 3 {
        '3'
    } else if digit == 4 {
        '4'
    } else if digit == 5 {
        '5'
    } else if digit == 6 {
        '6'
    } else if digit == 7 {
        '7'
    } else if digit == 8 {
        '8'
    } else {
        '9'
    }
}

/// A number in decimal, without leading zeros.
pub open spec fn decimal_text(n: nat) -> Seq<char>
    decreases n,
{
    if n < 10 {
        seq![digit_char(n as int)]
    } else {
        decimal_text(n / 10).push(digit_char((n % 10) as int))
    }
}

/// A run of zeros.
pub open spec fn zeros(count: nat) -> Seq<char> {
    Seq::new(count, |i: int| '0')
}

/// A number in decimal, with zeros in front of it up to `width` characters.
/// A number that needs more than `width` characters is written in full.
pub open spec fn padded_decimal(n: nat, width: nat) -> Seq<char> {
    if decimal_text(n).len() >= width {
        decimal_text(n)
    } else {
        zeros((width - decimal_text(n).len()) as nat) + decimal_text(n)
    }
}

/// Ten to the power of `exponent`.
pub open spec fn pow10(exponent: nat) -> nat
    decreases exponent,
{
    if exponent == 0 {
        1
    } else {
        10 * pow10((exponent - 1) as nat)
    }
}

/// A number below ten to the `k` is written with `k` digits at most.
pub proof fn lemma_decimal_text_len(n: nat, k: nat)
    requires
        k >= 1,
        n < pow10(k),
    ensures
        1 <= decimal_text(n).len() <= k,
    decreases k,
{
    if n >= 10 {
        if k == 1 {
            assert(pow10(1) == 10) by {
                reveal_with_fuel(pow10, 2);
            }
        } else {
            assert(n / 10 < pow10((k - 1) as nat));
            lemma_decimal_text_len(n / 10, (k - 1) as nat);
        }
    }
}

/// A number that fits in 64 bits is written with twenty digits at most.
pub proof fn lemma_decimal_text_len_u64(n: nat)
    requires
        n <= u64::MAX,
    ensures
        1 <= decimal_text(n).len() <= 20,
{
    assert(pow10(20) == 100_000_000_000_000_000_000nat) by {
        reveal_with_fuel(pow10, 21);
    }
    lemma_decimal_text_len(n, 20);
}

/// The text of a decimal digit.
pub fn digit_str(digit: u8) -> (text: &'static str)
    requires
        digit < 10,
    ensures
        text@ == seq![digit_char(digit as int)],
{
    proof {
        reveal_strlit("0");
        reveal_strlit("1");
        reveal_strlit("2");
        reveal_strlit("3");
        reveal_strlit("4");
        reveal_strlit("5");
        reveal_strlit("6");
        reveal_strlit("7");
        reveal_strlit("8");
        reveal_strlit("9");
    }
    let text = if digit == 0 {
        "0"
    } else if digit == 1 {
        "1"
    } else if digit == 2 {
        "2"
    } else if digit == 3 {
        "3"
    } else if digit == 4 {
        "4"
    } else if digit == 5 {
        "5"
    } else if digit == 6 {
        "6"
    } else if digit == 7 {
        "7"
    } else if digit == 8 {
        "8"
    } else {
        "9"
    };
    assert(text@ =~= seq![digit_char(digit as int)]);
    text
}

/// Number of characters that a number takes when printed in decimal.
pub fn printable_base10_digits(x: usize) -> (digits: u32)
    ensures
        digits == decimal_text(x as nat).len(),
        1 <= digits <= 20,
    decreases x,
{
    proof {
        lemma_decimal_text_len_u64(x as nat);
    }
    if x < 10 {
        1
    } else {
        proof {
            lemma_decimal_text_len_u64((x / 10) as nat);
        }
        1 + printable_base10_digits(x / 10)
    }
}

/// Appends a number in decimal to a text.
pub fn append_decimal_u64(text: &mut String, n: u64)
    ensures
        final(text)@ == old(text)@ + decimal_text(n as nat),
    decreases n,
{
    if n >= 10 {
        append_decimal_u64(text, n / 10);
    }
    text.append(digit_str((n % 10) as u8));
    assert(text@ =~= old(text)@ + decimal_text(n as nat));
}

/// Appends a number in decimal to a text.
pub fn append_decimal(text: &mut String, n: usize)
    ensures
        final(text)@ == old(text)@ + decimal_text(n as nat),
{
    append_decimal_u64(text, n as u64);
}

/// Appends a number in decimal to a text, with zeros in front of it up to
/// `width` characters.
pub fn append_padded_decimal(text: &mut String, n: usize, width: u32)
    ensures
        final(text)@ == old(text)@ + padded_decimal(n as nat, width as nat),
{
    let digits = printable_base10_digits(n);
    let mut written: u32 = digits;
    while written < width
        invariant
            digits <= written,
            written <= width || written == digits,
            text@ == old(text)@ + zeros((written - digits) as nat),
        decreases width - written,
    {
        proof {
            reveal_strlit("0");
        }
        text.append("0");
        written += 1;
        assert(text@ =~= old(text)@ + zeros((written - digits) as nat));
    }
    append_decimal(text, n);
    assert(text@ =~= old(text)@ + padded_decimal(n as nat, width as nat));
}

/// A number in decimal.
pub fn decimal_string(n: usize) -> (text: String)
    ensures
        text@ == decimal_text(n as nat),
{
    let mut text = String::new();
    append_decimal(&mut text, n);
    assert(text@ =~= decimal_text(n as nat));
    text
}

/// Whether `a` comes before `b` in the order of texts: at the first place
/// where they differ `a` has the lower character, or `a` ends there and `b`
/// goes on.
pub open spec fn sorts_before(a: Seq<char>, b: Seq<char>) -> bool {
    exists|k: int|
        0 <= k <= a.len() && k < b.len() && #[trigger] a.take(k) == b.take(k) && (k == a.len() || (
        a[k] as u32) < (b[k] as u32))
}

/// Digit `place` of a number below one hundred thousand, the ten-thousands
/// being place 0 and the units place 4.
pub open spec fn five_digit(n: nat, place: int) -> int {
    if place == 0 {
        (n / 10000) as int
    } else if place == 1 {
        (n / 1000 % 10) as int
    } else if place == 2 {
        (n / 100 % 10) as int
    } else if place == 3 {
        (n / 10 % 10) as int
    } else {
        (n % 10) as int
    }
}

/// The five digits of a number below one hundred thousand.
pub open spec fn five_digits(n: nat) -> Seq<char> {
    Seq::new(5, |place: int| digit_char(five_digit(n, place)))
}

/// Below one hundred thousand, padding to five characters gives the five
/// digits of the number.
pub proof fn lemma_padded_five(n: nat)
    requires
        n < 100_000,
    ensures
        padded_decimal(n, 5) == five_digits(n),
{
    reveal_with_fuel(decimal_text, 6);
    let text = decimal_text(n);
    let padded = padded_decimal(n, 5);
    if n < 10 {
        assert(text.len() == 1);
    } else if n < 100 {
        assert(text.len() == 2);
    } else if n < 1000 {
        assert(text.len() == 3);
    } else if n < 10000 {
        assert(text.len() == 4);
    } else {
        assert(text.len() == 5);
    }
    assert(padded.len() == 5);
    assert(padded[0] == digit_char(five_digit(n, 0)));
    assert(padded[1] == digit_char(five_digit(n, 1)));
    assert(padded[2] == digit_char(five_digit(n, 2)));
    assert(padded[3] == digit_char(five_digit(n, 3)));
    assert(padded[4] == digit_char(five_digit(n, 4)));
    assert(padded =~= five_digits(n));
}

/// A lower digit has the lower character.
pub proof fn lemma_digit_order(a: int, b: int)
    requires
        0 <= a < b <= 9,
    ensures
        (digit_char(a) as u32) < (digit_char(b) as u32),
{
}

/// Of two numbers with the same tens, the lower has the lower unit.
proof fn lemma_same_tens(x: nat, y: nat)
    requires
        x < y,
        x / 10 == y / 10,
    ensures
        x % 10 < y % 10,
{
}

/// The first place at which two numbers below one hundred thousand differ:
/// their digits agree before it, and there the lower number has the lower
/// digit.
pub open spec fn first_difference(a: nat, b: nat) -> int {
    if a / 10000 != b / 10000 {
        0
    } else if a / 1000 != b / 1000 {
        1
    } else if a / 100 != b / 100 {
        2
    } else if a / 10 != b / 10 {
        3
    } else {
        4
    }
}

/// See [`first_difference`].
pub proof fn lemma_first_difference(a: nat, b: nat)
    requires
        a < b < 100_000,
    ensures
        forall|place: int|
            0 <= place < first_difference(a, b) ==> five_digit(a, place) == five_digit(b, place),
        0 <= five_digit(a, first_difference(a, b)) < five_digit(b, first_difference(a, b)) <= 9,
{
    let k = first_difference(a, b);
    assert(a / 1000 / 10 == a / 10000 && b / 1000 / 10 == b / 10000);
    assert(a / 100 / 10 == a / 1000 && b / 100 / 10 == b / 1000);
    assert(a / 10 / 10 == a / 100 && b / 10 / 10 == b / 100);
    if k == 1 {
        lemma_same_tens(a / 1000, b / 1000);
    } else if k == 2 {
        lemma_same_tens(a / 100, b / 100);
    } else if k == 3 {
        lemma_same_tens(a / 10, b / 10);
    } else if k == 4 {
        lemma_same_tens(a, b);
    }
}

/// Padded to five characters, numbers below one hundred thousand sort as
/// texts the way they sort as numbers.
pub proof fn lemma_padded_five_sorts(a: nat, b: nat)
    requires
        a < b < 100_000,
    ensures
        sorts_before(padded_decimal(a, 5), padded_decimal(b, 5)),
{
    lemma_padded_five(a);
    lemma_padded_five(b);
    lemma_first_difference(a, b);
    let x = five_digits(a);
    let y = five_digits(b);
    let k = first_difference(a, b);
    assert(x.take(k) =~= y.take(k));
    lemma_digit_order(five_digit(a, k), five_digit(b, k));
    assert(x[k] == digit_char(five_digit(a, k)));
    assert(y[k] == digit_char(five_digit(b, k)));
}

/// Taking an element out that a filter does not keep leaves what the filter
/// keeps as it is.
pub proof fn lemma_filter_remove_other<A>(s: Seq<A>, keep: spec_fn(A) -> bool, at: int)
    requires
        0 <= at < s.len(),
        !keep(s[at]),
    ensures
        s.remove(at).filter(keep) == s.filter(keep),
    decreases s.len(),
{
    reveal(Seq::filter);
    if at == s.len() - 1 {
        assert(s.remove(at) =~= s.drop_last());
    } else {
        assert(s.remove(at).drop_last() =~= s.drop_last().remove(at));
        assert(s.remove(at).last() == s.last());
        lemma_filter_remove_other(s.drop_last(), keep, at);
    }
}

/// Taking the first element out that a filter keeps takes the first element
/// out of what the filter keeps.
pub proof fn lemma_filter_remove_first<A>(s: Seq<A>, keep: spec_fn(A) -> bool, at: int)
    requires
        0 <= at < s.len(),
        keep(s[at]),
        forall|j: int| 0 <= j < at ==> !keep(#[trigger] s[j]),
    ensures
        s.filter(keep).len() > 0,
        s.filter(keep)[0] == s[at],
        s.remove(at).filter(keep) == s.filter(keep).drop_first(),
    decreases s.len(),
{
    reveal(Seq::filter);
    if at == s.len() - 1 {
        assert(s.remove(at) =~= s.drop_last());
        lemma_filter_keeps_none(s.drop_last(), keep);
        assert(s.filter(keep) =~= seq![s[at]]);
        assert(s.filter(keep).drop_first() =~= Seq::<A>::empty());
    } else {
        let front = s.drop_last();
        assert(s.remove(at).drop_last() =~= front.remove(at));
        assert(s.remove(at).last() == s.last());
        assert(front[at] == s[at]);
        assert forall|j: int| 0 <= j < at implies !keep(#[trigger] front[j]) by {
            assert(front[j] == s[j]);
        }
        lemma_filter_remove_first(front, keep, at);
        if keep(s.last()) {
            assert(s.filter(keep) == front.filter(keep).push(s.last()));
            assert(front.filter(keep).push(s.last()).drop_first() =~= front.filter(
                keep,
            ).drop_first().push(s.last()));
        }
    }
}

/// A filter that keeps no element of a sequence keeps nothing.
pub proof fn lemma_filter_keeps_none<A>(s: Seq<A>, keep: spec_fn(A) -> bool)
    requires
        forall|j: int| 0 <= j < s.len() ==> !keep(#[trigger] s[j]),
    ensures
        s.filter(keep) == Seq::<A>::empty(),
    decreases s.len(),
{
    reveal(Seq::filter);
    if s.len() > 0 {
        assert forall|j: int| 0 <= j < s.drop_last().len() implies !keep(
            #[trigger] s.drop_last()[j],
        ) by {
            assert(s.drop_last()[j] == s[j]);
        }
        lemma_filter_keeps_none(s.drop_last(), keep);
    }
}

/// What a filter keeps of a sequence with one more element.
pub proof fn lemma_filter_one_more<A>(s: Seq<A>, last: A, keep: spec_fn(A) -> bool)
    ensures
        s.push(last).filter(keep) == if keep(last) {
            s.filter(keep).push(last)
        } else {
            s.filter(keep)
        },
{
    reveal(Seq::filter);
    assert(s.push(last).drop_last() =~= s);
}

} // verus!
