//! Small operations on text, each stated over the sequence of characters
//! that a string denotes.
use vstd::prelude::*;

verus! {

/// `text` is not empty and its last character is `c`.
pub open spec fn ends_with(text: Seq<char>, c: char) -> bool {
    text.len() > 0 && text.last() == c
}

/// The first two characters of `text` are both `c`.
pub open spec fn starts_with_two(text: Seq<char>, c: char) -> bool {
    text.len() >= 2 && text[0] == c && text[1] == c
}

/// How many times `c` stands at the start of `text` without interruption.
pub open spec fn leading_run(text: Seq<char>, c: char) -> nat
    decreases text.len(),
{
    if text.len() > 0 && text[0] == c {
        1 + leading_run(text.drop_first(), c)
    } else {
        0
    }
}

/// `text` without the run of `c` at its start.
pub open spec fn strip_leading(text: Seq<char>, c: char) -> Seq<char> {
    text.skip(leading_run(text, c) as int)
}

/// The pieces of `text` between occurrences of `sep`. There is always at
/// least one piece; a separator at either end gives an empty piece there.
pub open spec fn split(text: Seq<char>, sep: char) -> Seq<Seq<char>>
    decreases text.len(),
{
    if text.len() == 0 {
        seq![Seq::empty()]
    } else {
        let before = split(text.drop_last(), sep);
        if text.last() == sep {
            before.push(Seq::empty())
        } else {
            before.drop_last().push(before.last().push(text.last()))
        }
    }
}

/// As [`split`], but an empty piece at the very end is left out, so that a
/// text that ends with `sep` has no piece after it and the empty text has none.
pub open spec fn split_terminator(text: Seq<char>, sep: char) -> Seq<Seq<char>> {
    let pieces = split(text, sep);
    if pieces.last().len() == 0 {
        pieces.drop_last()
    } else {
        pieces
    }
}

/// The pieces put together again, with `sep` between each two of them.
pub open spec fn join(pieces: Seq<Seq<char>>, sep: char) -> Seq<char>
    decreases pieces.len(),
{
    if pieces.len() == 0 {
        Seq::empty()
    } else if pieces.len() == 1 {
        pieces[0]
    } else {
        join(pieces.drop_last(), sep).push(sep) + pieces.last()
    }
}

/// The leading run lies within the text, holds nothing but `c`, and ends at
/// the end of the text or before another character.
pub proof fn lemma_leading_run_is_maximal(text: Seq<char>, c: char)
    ensures
        leading_run(text, c) <= text.len(),
        forall|j: int| 0 <= j < leading_run(text, c) ==> text[j] == c,
        leading_run(text, c) < text.len() ==> text[leading_run(text, c) as int] != c,
    decreases text.len(),
{
    if text.len() > 0 && text[0] == c {
        let rest = text.drop_first();
        lemma_leading_run_is_maximal(rest, c);
        assert forall|j: int| 0 <= j < leading_run(text, c) implies text[j] == c by {
            if j > 0 {
                assert(text[j] == rest[j - 1]);
            }
        }
        if leading_run(text, c) < text.len() {
            assert(text[leading_run(text, c) as int] == rest[leading_run(rest, c) as int]);
        }
    }
}

/// What is left when the leading run of `c` is stripped does not begin with `c`.
pub proof fn lemma_strip_leading_leaves_none(text: Seq<char>, c: char)
    ensures
        strip_leading(text, c).len() > 0 ==> strip_leading(text, c)[0] != c,
        strip_leading(text, c).len() == text.len() - leading_run(text, c),
{
    lemma_leading_run_is_maximal(text, c);
}

/// No piece of a split holds the separator, and the pieces joined by the
/// separator are the text again.
pub proof fn lemma_split_is_exact(text: Seq<char>, sep: char)
    ensures
        split(text, sep).len() >= 1,
        forall|i: int, j: int|
            0 <= i < split(text, sep).len() && 0 <= j < split(text, sep)[i].len() ==> split(
                text,
                sep,
            )[i][j] != sep,
        join(split(text, sep), sep) == text,
    decreases text.len(),
{
    if text.len() > 0 {
        let front = text.drop_last();
        let before = split(front, sep);
        let pieces = split(text, sep);
        lemma_split_is_exact(front, sep);
        assert(front.push(text.last()) == text);
        if text.last() == sep {
            assert(pieces.drop_last() == before);
            assert(join(pieces, sep) == join(before, sep).push(sep) + Seq::<char>::empty());
            assert(join(pieces, sep) == text);
        } else {
            let grown = before.last().push(text.last());
            assert(pieces.last() == grown);
            assert(pieces.drop_last() == before.drop_last());
            assert forall|i: int, j: int|
                0 <= i < pieces.len() && 0 <= j < pieces[i].len() implies pieces[i][j] != sep by {
                if i < pieces.len() - 1 {
                    assert(pieces[i] == before[i]);
                } else if j < before.last().len() {
                    assert(pieces[i][j] == before[i][j]);
                }
            }
            if before.len() == 1 {
                assert(before[0] == front);
                assert(join(pieces, sep) == text);
            } else {
                let head = join(before.drop_last(), sep).push(sep);
                assert(join(before, sep) == head + before.last());
                assert(join(pieces, sep) == head + grown);
                assert(head + grown == (head + before.last()).push(text.last()));
                assert(join(pieces, sep) == text);
            }
        }
    } else {
        assert(split(text, sep)[0] == Seq::<char>::empty());
    }
}

/// `split` never returns an empty sequence.
pub proof fn lemma_split_nonempty(text: Seq<char>, sep: char)
    ensures
        split(text, sep).len() >= 1,
    decreases text.len(),
{
    if text.len() > 0 {
        lemma_split_nonempty(text.drop_last(), sep);
    }
}

/// A run of `n` characters `c` at the start of `text`, followed by the end
/// of the text or by another character, is the whole leading run.
pub proof fn lemma_leading_run(text: Seq<char>, c: char, n: int)
    requires
        0 <= n <= text.len(),
        forall|j: int| 0 <= j < n ==> text[j] == c,
        n < text.len() ==> text[n] != c,
    ensures
        leading_run(text, c) == n,
    decreases n,
{
    if n > 0 {
        let rest = text.drop_first();
        assert forall|j: int| 0 <= j < n - 1 implies rest[j] == c by {
            assert(rest[j] == text[j + 1]);
        }
        if n < text.len() {
            assert(rest[n - 1] == text[n]);
        }
        lemma_leading_run(rest, c, n - 1);
    }
}

/// Tells whether `text` ends with a forward slash.
pub fn ends_with_slash(text: &str) -> (r: bool)
    ensures
        r == ends_with(text@, '/'),
{
    let n: usize = text.unicode_len();
    n > 0 && text.get_char(n - 1) == '/'
}

/// Tells whether two strings hold the same characters.
pub fn same_text(a: &str, b: &str) -> (r: bool)
    ensures
        r == (a@ == b@),
{
    let n: usize = a.unicode_len();
    if b.unicode_len() != n {
        return false;
    }
    let mut i: usize = 0;
    while i < n
        invariant
            0 <= i <= n,
            n == a@.len(),
            n == b@.len(),
            forall|j: int| 0 <= j < i ==> a@[j] == b@[j],
        decreases n - i,
    {
        if a.get_char(i) != b.get_char(i) {
            return false;
        }
        i += 1;
    }
    assert(a@ =~= b@);
    true
}

/// Tells whether `text` begins with two forward slashes.
pub fn starts_with_double_slash(text: &str) -> (r: bool)
    ensures
        r == starts_with_two(text@, '/'),
{
    let n: usize = text.unicode_len();
    n >= 2 && text.get_char(0) == '/' && text.get_char(1) == '/'
}

/// Removes every forward slash that stands at the start of `text`.
pub fn strip_leading_slashes(text: &str) -> (r: String)
    ensures
        r@ == strip_leading(text@, '/'),
{
    let n: usize = text.unicode_len();
    let mut i: usize = 0;
    while i < n && text.get_char(i) == '/'
        invariant
            0 <= i <= n,
            n == text@.len(),
            forall|j: int| 0 <= j < i ==> text@[j] == '/',
        decreases n - i,
    {
        i += 1;
    }
    proof {
        lemma_leading_run(text@, '/', i as int);
    }
    text.substring_char(i, n).to_owned()
}

/// Cuts `text` at every occurrence of `sep`.
pub fn split_on(text: &str, sep: char) -> (pieces: Vec<String>)
    ensures
        pieces.deep_view() == split(text@, sep),
{
    let n: usize = text.unicode_len();
    let mut pieces: Vec<String> = Vec::new();
    let mut start: usize = 0;
    let mut i: usize = 0;
    proof {
        assert(pieces.deep_view() == Seq::<Seq<char>>::empty());
        assert(text@.subrange(0, 0) == Seq::<char>::empty());
        assert(text@.take(0).len() == 0);
        assert(Seq::<Seq<char>>::empty().push(Seq::<char>::empty()) == seq![Seq::<char>::empty()]);
    }
    while i < n
        invariant
            0 <= start <= i <= n,
            n == text@.len(),
            pieces.deep_view().push(text@.subrange(start as int, i as int)) == split(
                text@.take(i as int),
                sep,
            ),
        decreases n - i,
    {
        let ghost before = pieces.deep_view();
        let ghost current = text@.subrange(start as int, i as int);
        proof {
            let upto = text@.take(i + 1);
            assert(upto.drop_last() == text@.take(i as int));
            assert(upto.last() == text@[i as int]);
            assert(before.push(current).drop_last() == before);
            assert(before.push(current).last() == current);
        }
        if text.get_char(i) == sep {
            pieces.push(text.substring_char(start, i).to_owned());
            start = i + 1;
            proof {
                assert(pieces.deep_view() == before.push(current));
                assert(text@.subrange(start as int, i + 1) == Seq::<char>::empty());
            }
        } else {
            proof {
                assert(text@.subrange(start as int, i + 1) == current.push(text@[i as int]));
            }
        }
        i += 1;
    }
    let ghost before = pieces.deep_view();
    pieces.push(text.substring_char(start, n).to_owned());
    proof {
        assert(text@.take(n as int) == text@);
        assert(pieces.deep_view() == before.push(text@.subrange(start as int, n as int)));
    }
    pieces
}

/// Names what `char::is_whitespace` of the standard library returns for
/// `c`: whether `c` has the Unicode property `White_Space`.
pub uninterp spec fn is_whitespace(c: char) -> bool;

/// Calls `char::is_whitespace`. The contract only gives its result a name.
#[verifier::external_body]
fn is_whitespace_outside(c: char) -> (r: bool)
    ensures
        r == is_whitespace(c),
{
    c.is_whitespace()
}

/// How many whitespace characters stand at the start of `text` without
/// interruption.
pub open spec fn leading_whitespace(text: Seq<char>) -> nat
    decreases text.len(),
{
    if text.len() > 0 && is_whitespace(text[0]) {
        1 + leading_whitespace(text.drop_first())
    } else {
        0
    }
}

/// How many whitespace characters stand at the end of `text` without
/// interruption.
pub open spec fn trailing_whitespace(text: Seq<char>) -> nat
    decreases text.len(),
{
    if text.len() > 0 && is_whitespace(text.last()) {
        1 + trailing_whitespace(text.drop_last())
    } else {
        0
    }
}

/// `text` without the whitespace at its start and at its end.
pub open spec fn trimmed(text: Seq<char>) -> Seq<char> {
    let rest = text.skip(leading_whitespace(text) as int);
    rest.take(rest.len() - trailing_whitespace(rest))
}

/// How many characters other than `c` stand at the start of `text` without
/// interruption: the position of the first `c`, or the length of `text`
/// where it holds none.
pub open spec fn position_of(text: Seq<char>, c: char) -> nat
    decreases text.len(),
{
    if text.len() > 0 && text[0] != c {
        1 + position_of(text.drop_first(), c)
    } else {
        0
    }
}

/// `c` is one of the ten digits `0` to `9`.
pub open spec fn is_digit(c: char) -> bool {
    '0' <= c <= '9'
}

/// The number that the digit `c` stands for.
pub open spec fn digit_value(c: char) -> nat {
    (c as u32 - '0' as u32) as nat
}

/// Every character of `text` is a digit.
pub open spec fn all_digits(text: Seq<char>) -> bool {
    forall|i: int| 0 <= i < text.len() ==> is_digit(#[trigger] text[i])
}

/// The number that a sequence of digits denotes in base ten.
pub open spec fn digits_value(digits: Seq<char>) -> nat
    decreases digits.len(),
{
    if digits.len() == 0 {
        0
    } else {
        10 * digits_value(digits.drop_last()) + digit_value(digits.last())
    }
}

/// The number that `text` denotes: an optional plus sign, then one digit or
/// more, the whole no greater than `max`. Any other text denotes no number.
pub open spec fn decimal(text: Seq<char>, max: nat) -> Option<nat> {
    let digits = if text.len() > 0 && text[0] == '+' {
        text.skip(1)
    } else {
        text
    };
    if digits.len() > 0 && all_digits(digits) && digits_value(digits) <= max {
        Some(digits_value(digits))
    } else {
        None
    }
}

/// A run of `n` whitespace characters at the start of `text`, followed by the
/// end of the text or by another character, is the whole leading whitespace.
pub proof fn lemma_leading_whitespace(text: Seq<char>, n: int)
    requires
        0 <= n <= text.len(),
        forall|j: int| 0 <= j < n ==> is_whitespace(#[trigger] text[j]),
        n < text.len() ==> !is_whitespace(text[n]),
    ensures
        leading_whitespace(text) == n,
    decreases n,
{
    if n > 0 {
        let rest = text.drop_first();
        assert forall|j: int| 0 <= j < n - 1 implies is_whitespace(#[trigger] rest[j]) by {
            assert(rest[j] == text[j + 1]);
        }
        if n < text.len() {
            assert(rest[n - 1] == text[n]);
        }
        lemma_leading_whitespace(rest, n - 1);
    }
}

/// A run of `n` whitespace characters at the end of `text`, preceded by the
/// start of the text or by another character, is the whole trailing whitespace.
pub proof fn lemma_trailing_whitespace(text: Seq<char>, n: int)
    requires
        0 <= n <= text.len(),
        forall|j: int| text.len() - n <= j < text.len() ==> is_whitespace(#[trigger] text[j]),
        n < text.len() ==> !is_whitespace(text[text.len() - n - 1]),
    ensures
        trailing_whitespace(text) == n,
    decreases n,
{
    if n > 0 {
        let rest = text.drop_last();
        assert forall|j: int| rest.len() - (n - 1) <= j < rest.len() implies is_whitespace(
            #[trigger] rest[j],
        ) by {
            assert(rest[j] == text[j]);
        }
        if n < text.len() {
            assert(rest[rest.len() - (n - 1) - 1] == text[text.len() - n - 1]);
        }
        lemma_trailing_whitespace(rest, n - 1);
    }
}

/// A run of `n` characters other than `c` at the start of `text`, followed by
/// the end of the text or by `c`, ends where `position_of` says.
pub proof fn lemma_position_of(text: Seq<char>, c: char, n: int)
    requires
        0 <= n <= text.len(),
        forall|j: int| 0 <= j < n ==> text[j] != c,
        n < text.len() ==> text[n] == c,
    ensures
        position_of(text, c) == n,
    decreases n,
{
    if n > 0 {
        let rest = text.drop_first();
        assert forall|j: int| 0 <= j < n - 1 implies rest[j] != c by {
            assert(rest[j] == text[j + 1]);
        }
        if n < text.len() {
            assert(rest[n - 1] == text[n]);
        }
        lemma_position_of(rest, c, n - 1);
    }
}

/// The digits read so far never denote more than all of them do.
pub proof fn lemma_digits_value_grows(digits: Seq<char>, n: int)
    requires
        0 <= n <= digits.len(),
    ensures
        digits_value(digits.take(n)) <= digits_value(digits),
    decreases digits.len() - n,
{
    if n < digits.len() {
        lemma_digits_value_grows(digits, n + 1);
        assert(digits.take(n + 1).drop_last() == digits.take(n));
    } else {
        assert(digits.take(n) == digits);
    }
}

/// Removes the whitespace at the start and at the end of `text`.
pub fn trim(text: &str) -> (r: String)
    ensures
        r@ == trimmed(text@),
{
    let n: usize = text.unicode_len();
    let mut start: usize = 0;
    while start < n && is_whitespace_outside(text.get_char(start))
        invariant
            0 <= start <= n,
            n == text@.len(),
            forall|j: int| 0 <= j < start ==> is_whitespace(#[trigger] text@[j]),
        decreases n - start,
    {
        start += 1;
    }
    proof {
        lemma_leading_whitespace(text@, start as int);
    }
    let ghost rest = text@.skip(start as int);
    let mut end: usize = n;
    while end > start && is_whitespace_outside(text.get_char(end - 1))
        invariant
            start <= end <= n,
            n == text@.len(),
            forall|j: int| end <= j < n ==> is_whitespace(#[trigger] text@[j]),
        decreases end,
    {
        end -= 1;
    }
    proof {
        assert forall|j: int| rest.len() - (n - end) <= j < rest.len() implies is_whitespace(
            #[trigger] rest[j],
        ) by {
            assert(rest[j] == text@[j + start]);
        }
        if n - end < rest.len() {
            assert(rest[rest.len() - (n - end) - 1] == text@[end - 1]);
        }
        lemma_trailing_whitespace(rest, n - end);
        assert(rest.take(rest.len() - (n - end)) == text@.subrange(start as int, end as int));
    }
    text.substring_char(start, end).to_owned()
}

/// The position of the first `c` in `text`, or the length of `text` where it
/// holds none.
pub fn find_first(text: &str, c: char) -> (r: usize)
    ensures
        r == position_of(text@, c),
        r <= text@.len(),
{
    let n: usize = text.unicode_len();
    let mut i: usize = 0;
    while i < n && text.get_char(i) != c
        invariant
            0 <= i <= n,
            n == text@.len(),
            forall|j: int| 0 <= j < i ==> text@[j] != c,
        decreases n - i,
    {
        i += 1;
    }
    proof {
        lemma_position_of(text@, c, i as int);
    }
    i
}

/// Reads `text` as a number in base ten that is no greater than `max`.
pub fn parse_decimal(text: &str, max: u64) -> (r: Option<u64>)
    ensures
        match r {
            Some(n) => decimal(text@, max as nat) == Some(n as nat),
            None => decimal(text@, max as nat) is None,
        },
{
    let n: usize = text.unicode_len();
    let first: usize = if n > 0 && text.get_char(0) == '+' {
        1
    } else {
        0
    };
    let ghost digits = text@.skip(first as int);
    proof {
        assert(text@.skip(0) == text@);
    }
    if first == n {
        return None;
    }
    let mut value: u64 = 0;
    let mut i: usize = first;
    while i < n
        invariant
            first <= i <= n,
            n == text@.len(),
            digits == text@.skip(first as int),
            digits == if text@.len() > 0 && text@[0] == '+' {
                text@.skip(1)
            } else {
                text@
            },
            all_digits(digits.take(i - first)),
            value == digits_value(digits.take(i - first)),
            value <= max,
        decreases n - i,
    {
        let c = text.get_char(i);
        let ghost read = digits.take(i - first);
        let ghost next = digits.take(i - first + 1);
        proof {
            assert(digits[i - first] == c);
            assert(next.drop_last() == read);
            assert(next.last() == c);
        }
        if !('0' <= c && c <= '9') {
            assert(!is_digit(digits[i - first]));
            return None;
        }
        let d: u64 = (c as u32 - '0' as u32) as u64;
        assert(d == digit_value(c));
        assert(all_digits(next)) by {
            assert forall|j: int| 0 <= j < next.len() implies is_digit(#[trigger] next[j]) by {
                if j < read.len() {
                    assert(next[j] == read[j]);
                }
            }
        }
        if d > max || value > (max - d) / 10 {
            proof {
                assert(10 * value + d > max);
                lemma_digits_value_grows(digits, i - first + 1);
            }
            return None;
        }
        value = value * 10 + d;
        i += 1;
    }
    proof {
        assert(digits.take(n - first) == digits);
    }
    Some(value)
}

} // verus!
