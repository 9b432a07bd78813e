//! Reading texts: white space, numbers, and lists of numbers.

use vstd::prelude::*;
use crate::util::{decimal_text, digit_char, padded_decimal, zeros};

verus! {

/// Whether a character is white space.
pub open spec fn is_space(c: char) -> bool {
    let code = c as u32;
    ||| 0x09 <= code <= 0x0d
    ||| code == 0x20
    ||| code == 0x85
    ||| code == 0xa0
    ||| code == 0x1680
    ||| 0x2000 <= code <= 0x200a
    ||| code == 0x2028
    ||| code == 0x2029
    ||| code == 0x202f
    ||| code == 0x205f
    ||| code == 0x3000
}

/// Number of white-space characters at the start of a text.
pub open spec fn leading_spaces(text: Seq<char>) -> nat
    decreases text.len(),
{
    if text.len() > 0 && is_space(text[0]) {
        1 + leading_spaces(text.drop_first())
    } else {
        0
    }
}

/// Number of white-space characters at the end of a text.
pub open spec fn trailing_spaces(text: Seq<char>) -> nat
    decreases text.len(),
{
    if text.len() > 0 && is_space(text.last()) {
        1 + trailing_spaces(text.drop_last())
    } else {
        0
    }
}

/// A text without the white space at its start and at its end.
pub open spec fn trimmed(text: Seq<char>) -> Seq<char> {
    if leading_spaces(text) >= text.len() {
        Seq::empty()
    } else {
        text.subrange(leading_spaces(text) as int, text.len() - trailing_spaces(text))
    }
}

/// The leading white space of a text ends at the first character that is not
/// white space.
pub proof fn lemma_leading_spaces(text: Seq<char>, count: int)
    requires
        0 <= count <= text.len(),
        forall|i: int| 0 <= i < count ==> is_space(#[trigger] text[i]),
        count < text.len() ==> !is_space(text[count]),
    ensures
        leading_spaces(text) == count,
    decreases text.len(),
{
    if count > 0 {
        let rest = text.drop_first();
        assert(is_space(text[0]));
        assert forall|i: int| 0 <= i < count - 1 implies is_space(#[trigger] rest[i]) by {
            assert(rest[i] == text[i + 1]);
        }
        if count < text.len() {
            assert(rest[count - 1] == text[count]);
        }
        lemma_leading_spaces(rest, count - 1);
    }
}

/// The trailing white space of a text starts after the last character that
/// is not white space.
pub proof fn lemma_trailing_spaces(text: Seq<char>, count: int)
    requires
        0 <= count <= text.len(),
        forall|i: int| text.len() - count <= i < text.len() ==> is_space(#[trigger] text[i]),
        count < text.len() ==> !is_space(text[text.len() - count - 1]),
    ensures
        trailing_spaces(text) == count,
    decreases text.len(),
{
    if count > 0 {
        let rest = text.drop_last();
        assert(is_space(text[text.len() - 1]));
        assert forall|i: int| rest.len() - (count - 1) <= i < rest.len() implies is_space(
            #[trigger] rest[i],
        ) by {
            assert(rest[i] == text[i]);
        }
        if count < text.len() {
            assert(rest[rest.len() - (count - 1) - 1] == text[text.len() - count - 1]);
        }
        lemma_trailing_spaces(rest, count - 1);
    }
}

/// Tells whether a character is white space.
pub fn is_whitespace(c: char) -> (space: bool)
    ensures
        space == is_space(c),
{
    let code = c as u32;
    (0x09 <= code && code <= 0x0d) || code == 0x20 || code == 0x85 || code == 0xa0 || code
        == 0x1680 || (0x2000 <= code && code <= 0x200a) || code == 0x2028 || code == 0x2029 || code
        == 0x202f || code == 0x205f || code == 0x3000
}

/// Takes the white space off the start and the end of a text.
pub fn trim(text: &str) -> (out: &str)
    ensures
        out@ == trimmed(text@),
{
    let len = text.unicode_len();
    let mut start: usize = 0;
    while start < len && is_whitespace(text.get_char(start))
        invariant
            start <= len,
            len == text@.len(),
            forall|i: int| 0 <= i < start ==> is_space(#[trigger] text@[i]),
        decreases len - start,
    {
        start += 1;
    }
    proof {
        lemma_leading_spaces(text@, start as int);
    }
    if start >= len {
        let out = text.substring_char(0, 0);
        assert(out@ =~= Seq::<char>::empty());
        return out;
    }
    let mut end: usize = len;
    while end > start && is_whitespace(text.get_char(end - 1))
        invariant
            start <= end <= len,
            start < len,
            len == text@.len(),
            !is_space(text@[start as int]),
            forall|i: int| end <= i < len ==> is_space(#[trigger] text@[i]),
        decreases end,
    {
        end -= 1;
    }
    proof {
        lemma_trailing_spaces(text@, len - end);
    }
    text.substring_char(start, end)
}

/// Whether a character is a decimal digit.
pub open spec fn is_digit(c: char) -> bool {
    0x30 <= c as u32 <= 0x39
}

/// The value of a decimal digit.
pub open spec fn digit_value(c: char) -> nat {
    (c as u32 - 0x30) as nat
}

/// Whether a text consists of decimal digits only.
pub open spec fn all_digits(text: Seq<char>) -> bool {
    forall|i: int| 0 <= i < text.len() ==> is_digit(#[trigger] text[i])
}

/// The number that a text of decimal digits stands for.
pub open spec fn digits_value(text: Seq<char>) -> nat
    decreases text.len(),
{
    if text.len() == 0 {
        0
    } else {
        10 * digits_value(text.drop_last()) + digit_value(text.last())
    }
}

/// Why a text is no number.
#[derive(Debug, Clone, Copy, PartialEq, Eq, Structural)]
pub enum NumberFault {
    /// The text is empty.
    Empty,
    /// The text holds something that is no digit, or a sign without digits.
    InvalidDigit,
    /// The number does not fit.
    TooLarge,
}

/// The digits of a text that may start with a plus sign.
pub open spec fn unsigned_part(text: Seq<char>) -> Seq<char> {
    if text.len() > 0 && text[0] == '+' {
        text.drop_first()
    } else {
        text
    }
}

/// The number that a text stands for: decimal digits, with or without a plus
/// sign in front of them, that fit into the machine's word.
pub open spec fn number_of(text: Seq<char>) -> Result<usize, NumberFault> {
    if text.len() == 0 {
        Err(NumberFault::Empty)
    } else if unsigned_part(text).len() == 0 || !all_digits(unsigned_part(text)) {
        Err(NumberFault::InvalidDigit)
    } else if digits_value(unsigned_part(text)) > usize::MAX {
        Err(NumberFault::TooLarge)
    } else {
        Ok(digits_value(unsigned_part(text)) as usize)
    }
}

/// Reads a number.
pub fn parse_number(text: &str) -> (result: Result<usize, NumberFault>)
    ensures
        result == number_of(text@),
{
    let len = text.unicode_len();
    if len == 0 {
        return Err(NumberFault::Empty);
    }
    let first: usize = if text.get_char(0) == '+' {
        1
    } else {
        0
    };
    let ghost digits = unsigned_part(text@);
    assert(digits =~= text@.skip(first as int));
    if first >= len {
        return Err(NumberFault::InvalidDigit);
    }
    let mut value: usize = 0;
    let mut i: usize = first;
    let mut fits = true;
    proof {
        assert(digits.take(0) =~= Seq::<char>::empty());
    }
    while i < len
        invariant
            first <= i <= len,
            first < len,
            len == text@.len(),
            digits == text@.skip(first as int),
            digits == unsigned_part(text@),
            forall|j: int| 0 <= j < i - first ==> is_digit(#[trigger] digits[j]),
            fits ==> value == digits_value(digits.take(i - first)),
            !fits ==> digits_value(digits.take(i - first)) > usize::MAX,
        decreases len - i,
    {
        let c = text.get_char(i);
        let code = c as u32;
        assert(digits[i - first] == c);
        if code < 0x30 || code > 0x39 {
            assert(!is_digit(digits[i - first]));
            return Err(NumberFault::InvalidDigit);
        }
        let digit = (code - 0x30) as usize;
        proof {
            assert(digits.take(i - first + 1).drop_last() =~= digits.take(i - first));
            assert(digits.take(i - first + 1).last() == c);
        }
        if fits {
            if value > (usize::MAX - digit) / 10 {
                fits = false;
                assert(10 * value + digit > usize::MAX) by (nonlinear_arith)
                    requires
                        value > (usize::MAX - digit) / 10,
                        0 <= digit <= 9,
                ;
            } else {
                assert(10 * value + digit <= usize::MAX) by (nonlinear_arith)
                    requires
                        value <= (usize::MAX - digit) / 10,
                        0 <= digit <= 9,
                ;
                value = 10 * value + digit;
            }
        }
        i += 1;
    }
    proof {
        assert(digits.take(len - first) =~= digits);
    }
    if fits {
        Ok(value)
    } else {
        Err(NumberFault::TooLarge)
    }
}

/// Place of the first comma of a text; the length of the text where it has
/// none.
pub open spec fn first_comma(text: Seq<char>) -> int
    decreases text.len(),
{
    if text.len() == 0 || text[0] == ',' {
        0
    } else {
        1 + first_comma(text.drop_first())
    }
}

/// The items of a text between its commas. A text without a comma is one
/// item.
pub open spec fn comma_items(text: Seq<char>) -> Seq<Seq<char>>
    decreases text.len(),
    via comma_items_decreases
{
    if first_comma(text) >= text.len() {
        seq![text]
    } else {
        seq![text.take(first_comma(text))] + comma_items(text.skip(first_comma(text) + 1))
    }
}

#[via_fn]
proof fn comma_items_decreases(text: Seq<char>) {
    lemma_first_comma_bounds(text);
}

/// The first comma lies within the text or at its end.
pub proof fn lemma_first_comma_bounds(text: Seq<char>)
    ensures
        0 <= first_comma(text) <= text.len(),
    decreases text.len(),
{
    if text.len() > 0 && text[0] != ',' {
        lemma_first_comma_bounds(text.drop_first());
    }
}

/// A place before which there is no comma, and which is the end of the text
/// or holds a comma, is the place of the first comma.
pub proof fn lemma_first_comma_is(text: Seq<char>, at: int)
    requires
        0 <= at <= text.len(),
        forall|i: int| 0 <= i < at ==> #[trigger] text[i] != ',',
        at < text.len() ==> text[at] == ',',
    ensures
        first_comma(text) == at,
    decreases text.len(),
{
    if at > 0 {
        let rest = text.drop_first();
        assert(text[0] != ',');
        assert forall|i: int| 0 <= i < at - 1 implies #[trigger] rest[i] != ',' by {
            assert(rest[i] == text[i + 1]);
        }
        if at < text.len() {
            assert(rest[at - 1] == text[at]);
        }
        lemma_first_comma_is(rest, at - 1);
    }
}

/// Why a text is no list of numbers: which item is no number, and why.
#[derive(Debug, Clone, Copy, PartialEq, Eq, Structural)]
pub struct ListFault {
    /// Place of the item in the list, counted from zero.
    pub item: usize,
    /// What is wrong with it.
    pub fault: NumberFault,
}

/// The numbers that a list of items stands for, each item without the white
/// space around it; or the first item that is no number.
pub open spec fn numbers_of(items: Seq<Seq<char>>) -> Result<Seq<usize>, ListFault>
    decreases items.len(),
{
    if items.len() == 0 {
        Ok(Seq::empty())
    } else {
        match numbers_of(items.drop_last()) {
            Err(fault) => Err(fault),
            Ok(front) => match number_of(trimmed(items.last())) {
                Ok(n) => Ok(front.push(n)),
                Err(fault) => Err(ListFault { item: (items.len() - 1) as usize, fault }),
            },
        }
    }
}

/// The numbers that a text stands for: nothing but white space is the empty
/// list; anything else is a list of numbers with commas between them and,
/// as may be, white space around them.
pub open spec fn number_list(text: Seq<char>) -> Result<Seq<usize>, ListFault> {
    if trimmed(text).len() == 0 {
        Ok(Seq::empty())
    } else {
        numbers_of(comma_items(trimmed(text)))
    }
}

/// The items after a comma follow the item before it.
proof fn lemma_comma_items_step(text: Seq<char>, start: int, at: int)
    requires
        0 <= start <= at < text.len(),
        text[at] == ',',
        forall|i: int| start <= i < at ==> #[trigger] text[i] != ',',
    ensures
        comma_items(text.skip(start)) == seq![text.subrange(start, at)] + comma_items(
            text.skip(at + 1),
        ),
{
    let rest = text.skip(start);
    assert forall|i: int| 0 <= i < at - start implies #[trigger] rest[i] != ',' by {
        assert(rest[i] == text[start + i]);
    }
    lemma_first_comma_is(rest, at - start);
    assert(rest.take(at - start) =~= text.subrange(start, at));
    assert(rest.skip(at - start + 1) =~= text.skip(at + 1));
}

/// A text without a comma after `start` is one item from there.
proof fn lemma_comma_items_last(text: Seq<char>, start: int)
    requires
        0 <= start <= text.len(),
        forall|i: int| start <= i < text.len() ==> #[trigger] text[i] != ',',
    ensures
        comma_items(text.skip(start)) == seq![text.skip(start)],
{
    let rest = text.skip(start);
    assert forall|i: int| 0 <= i < rest.len() implies #[trigger] rest[i] != ',' by {
        assert(rest[i] == text[start + i]);
    }
    lemma_first_comma_is(rest, rest.len() as int);
}

/// The numbers of a list with one more item.
proof fn lemma_numbers_of_push(items: Seq<Seq<char>>, last: Seq<char>)
    ensures
        numbers_of(items.push(last)) == match numbers_of(items) {
            Err(fault) => Err::<Seq<usize>, ListFault>(fault),
            Ok(front) => match number_of(trimmed(last)) {
                Ok(n) => Ok::<Seq<usize>, ListFault>(front.push(n)),
                Err(fault) => Err::<Seq<usize>, ListFault>(
                    ListFault { item: items.len() as usize, fault },
                ),
            },
        },
{
    assert(items.push(last).drop_last() =~= items);
}

/// Reads a list of numbers with commas between them. White space around the
/// list and around the numbers is passed over; a text of nothing but white
/// space is the empty list.
pub fn parse_comma_separated_numbers(string: &str) -> (result: Result<Vec<usize>, ListFault>)
    ensures
        match number_list(string@) {
            Ok(numbers) => result is Ok && result.unwrap()@ == numbers,
            Err(fault) => result == Err::<Vec<usize>, ListFault>(fault),
        },
{
    let mut numbers: Vec<usize> = Vec::new();
    let text = trim(string);
    let len = text.unicode_len();
    if len == 0 {
        return Ok(numbers);
    }
    let mut start: usize = 0;
    let mut i: usize = 0;
    let ghost mut items: Seq<Seq<char>> = Seq::empty();
    proof {
        assert(text@.skip(0) =~= text@);
        assert(items + comma_items(text@.skip(0)) =~= comma_items(text@));
    }
    while i < len
        invariant
            start <= i <= len,
            len == text@.len(),
            len > 0,
            text@ == trimmed(string@),
            forall|j: int| start <= j < i ==> #[trigger] text@[j] != ',',
            items + comma_items(text@.skip(start as int)) == comma_items(text@),
            numbers_of(items) == Ok::<Seq<usize>, ListFault>(numbers@),
            items.len() == numbers@.len(),
        decreases len - i,
    {
        if text.get_char(i) == ',' {
            let item = text.substring_char(start, i);
            proof {
                lemma_comma_items_step(text@, start as int, i as int);
                lemma_numbers_of_push(items, item@);
                assert((items.push(item@)) + comma_items(text@.skip(i + 1)) =~= items + (
                seq![item@] + comma_items(text@.skip(i + 1))));
            }
            match parse_number(trim(item)) {
                Ok(n) => {
                    numbers.push(n);
                },
                Err(fault) => {
                    proof {
                        lemma_numbers_fault_stays(
                            items.push(item@),
                            comma_items(text@.skip(i + 1)),
                        );
                    }
                    return Err(ListFault { item: numbers.len(), fault });
                },
            }
            proof {
                items = items.push(item@);
            }
            start = i + 1;
        }
        i += 1;
    }
    let item = text.substring_char(start, len);
    proof {
        lemma_comma_items_last(text@, start as int);
        assert(item@ =~= text@.skip(start as int));
        lemma_numbers_of_push(items, item@);
        assert(items.push(item@) =~= items + seq![item@]);
    }
    match parse_number(trim(item)) {
        Ok(n) => {
            numbers.push(n);
            Ok(numbers)
        },
        Err(fault) => Err(ListFault { item: numbers.len(), fault }),
    }
}

/// A list whose beginning holds an item that is no number has that item as
/// its first fault, whatever follows.
proof fn lemma_numbers_fault_stays(front: Seq<Seq<char>>, more: Seq<Seq<char>>)
    requires
        numbers_of(front) is Err,
    ensures
        numbers_of(front + more) == numbers_of(front),
    decreases more.len(),
{
    if more.len() == 0 {
        assert(front + more =~= front);
    } else {
        lemma_numbers_fault_stays(front, more.drop_last());
        assert((front + more).drop_last() =~= front + more.drop_last());
    }
}

/// The character of a digit is a digit and has the digit as its value.
pub proof fn lemma_digit_char(digit: int)
    requires
        0 <= digit <= 9,
    ensures
        is_digit(digit_char(digit)),
        digit_value(digit_char(digit)) == digit,
{
}

/// A number written in decimal reads as itself.
pub proof fn lemma_decimal_reads_back(n: nat)
    ensures
        all_digits(decimal_text(n)),
        digits_value(decimal_text(n)) == n,
    decreases n,
{
    let text = decimal_text(n);
    lemma_digit_char((n % 10) as int);
    if n >= 10 {
        lemma_decimal_reads_back(n / 10);
        assert(text.drop_last() =~= decimal_text(n / 10));
        assert(text.last() == digit_char((n % 10) as int));
        assert forall|i: int| 0 <= i < text.len() implies is_digit(#[trigger] text[i]) by {
            if i < text.len() - 1 {
                assert(text[i] == decimal_text(n / 10)[i]);
            }
        }
        assert(digits_value(text) == 10 * digits_value(text.drop_last()) + digit_value(
            text.last(),
        ));
    } else {
        assert(text.drop_last() =~= Seq::<char>::empty());
        assert(text.last() == digit_char(n as int));
        assert(digits_value(text.drop_last()) == 0);
        assert(digits_value(text) == 10 * digits_value(text.drop_last()) + digit_value(
            text.last(),
        ));
    }
}

/// Zeros in front of digits do not change what they read as.
pub proof fn lemma_zeros_read_as_nothing(count: nat, text: Seq<char>)
    ensures
        digits_value(zeros(count) + text) == digits_value(text),
    decreases text.len(),
{
    if text.len() == 0 {
        assert(zeros(count) + text =~= zeros(count));
        lemma_zeros_value(count);
    } else {
        assert((zeros(count) + text).drop_last() =~= zeros(count) + text.drop_last());
        lemma_zeros_read_as_nothing(count, text.drop_last());
    }
}

/// Zeros read as zero.
proof fn lemma_zeros_value(count: nat)
    ensures
        digits_value(zeros(count)) == 0,
    decreases count,
{
    if count > 0 {
        assert(zeros(count).drop_last() =~= zeros((count - 1) as nat));
        lemma_zeros_value((count - 1) as nat);
    }
}

/// Padded to one width, different numbers are written differently.
pub proof fn lemma_padded_decimal_differs(a: nat, b: nat, width: nat)
    requires
        a != b,
    ensures
        padded_decimal(a, width) != padded_decimal(b, width),
{
    lemma_decimal_reads_back(a);
    lemma_decimal_reads_back(b);
    if decimal_text(a).len() < width {
        lemma_zeros_read_as_nothing((width - decimal_text(a).len()) as nat, decimal_text(a));
    }
    if decimal_text(b).len() < width {
        lemma_zeros_read_as_nothing((width - decimal_text(b).len()) as nat, decimal_text(b));
    }
    assert(digits_value(padded_decimal(a, width)) == a);
    assert(digits_value(padded_decimal(b, width)) == b);
}

/// A number that fits, written in decimal, is read as that number.
pub proof fn lemma_number_reads_back(n: usize)
    ensures
        number_of(decimal_text(n as nat)) == Ok::<usize, NumberFault>(n),
{
    lemma_decimal_reads_back(n as nat);
}

/// What an answer to a yes-or-no question means: `y` or `Y` is yes; `n`,
/// `N` or nothing is no; anything else is no answer. White space around the
/// answer is passed over.
pub open spec fn answer_of(line: Seq<char>) -> Option<bool> {
    if trimmed(line) == "y"@ || trimmed(line) == "Y"@ {
        Some(true)
    } else if trimmed(line) == "n"@ || trimmed(line) == "N"@ || trimmed(line).len() == 0 {
        Some(false)
    } else {
        None
    }
}

/// Reads the answer to a yes-or-no question.
pub fn read_answer(line: &str) -> (answer: Option<bool>)
    ensures
        answer == answer_of(line@),
{
    proof {
        reveal_strlit("y");
        reveal_strlit("Y");
        reveal_strlit("n");
        reveal_strlit("N");
    }
    let text = trim(line);
    let len = text.unicode_len();
    if len == 0 {
        return Some(false);
    }
    if len != 1 {
        return None;
    }
    let c = text.get_char(0);
    if c == 'y' || c == 'Y' {
        assert(text@ =~= seq![c]);
        assert("y"@ =~= seq!['y']);
        assert("Y"@ =~= seq!['Y']);
        Some(true)
    } else if c == 'n' || c == 'N' {
        assert(text@ =~= seq![c]);
        assert("n"@ =~= seq!['n']);
        assert("N"@ =~= seq!['N']);
        Some(false)
    } else {
        assert(text@[0] != 'y' && text@[0] != 'Y' && text@[0] != 'n' && text@[0] != 'N');
        None
    }
}

/// Whether a file name ends in `.mkv`, as the segment files of the muxer do.
pub open spec fn is_segment_name(name: Seq<char>) -> bool {
    name.len() > 4 && name.skip(name.len() - 4) == ".mkv"@
}

/// Tells whether a file name is that of a segment file.
pub fn is_segment_file(name: &str) -> (segment: bool)
    ensures
        segment == is_segment_name(name@),
{
    proof {
        reveal_strlit(".mkv");
    }
    let len = name.unicode_len();
    if len <= 4 {
        return false;
    }
    let tail = name.substring_char(len - 4, len);
    assert(tail@ =~= name@.skip(len - 4));
    let same = tail.get_char(0) == '.' && tail.get_char(1) == 'm' && tail.get_char(2) == 'k'
        && tail.get_char(3) == 'v';
    if same {
        assert(tail@ =~= ".mkv"@);
    }
    same
}

} // verus!
