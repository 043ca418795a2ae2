//! What the orders and the written forms of texts mean.
use vstd::prelude::*;

use crate::text;

verus! {

/// Bytes sort by the first place at which they differ, and a part of the whole before
/// the whole.
pub proof fn bytes_sort_by_their_first_difference(left: Seq<u8>, right: Seq<u8>, at: int)
    requires
        0 <= at <= left.len(),
        at <= right.len(),
        left.take(at) == right.take(at),
    ensures
        at < left.len() && at < right.len() && left[at] != right[at] ==> text::bytes_before(
            left,
            right,
        ) == (left[at] < right[at]),
        at == left.len() ==> text::bytes_before(left, right) == (left.len() < right.len()),
        at == right.len() ==> !text::bytes_before(left, right),
    decreases at,
{
    if at > 0 {
        assert(left[0] == left.take(at)[0]);
        assert(right[0] == right.take(at)[0]);
        assert(left[0] == right[0]);
        assert(text::bytes_before(left, right) == text::bytes_before(left.skip(1), right.skip(1)));
        assert(left.skip(1).take(at - 1) =~= left.take(at).skip(1));
        assert(right.skip(1).take(at - 1) =~= right.take(at).skip(1));
        bytes_sort_by_their_first_difference(left.skip(1), right.skip(1), at - 1);
    }
}

/// Texts of ASCII characters sort by the first character at which they differ.
pub proof fn ascii_texts_sort_by_their_first_difference(
    left: Seq<char>,
    right: Seq<char>,
    at: int,
)
    requires
        vstd::utf8::is_ascii_chars(left),
        vstd::utf8::is_ascii_chars(right),
        0 <= at < left.len(),
        at < right.len(),
        left.take(at) == right.take(at),
        left[at] != right[at],
    ensures
        text::before(left, right) <==> left[at] < right[at],
{
    vstd::utf8::is_ascii_chars_encode_utf8(left);
    vstd::utf8::is_ascii_chars_encode_utf8(right);
    let left_bytes = vstd::utf8::encode_utf8(left);
    let right_bytes = vstd::utf8::encode_utf8(right);
    assert forall|i: int| 0 <= i < at implies left_bytes[i] == right_bytes[i] by {
        assert(left[i] == left.take(at)[i]);
        assert(right[i] == right.take(at)[i]);
    }
    assert(left_bytes.take(at) =~= right_bytes.take(at));
    bytes_sort_by_their_first_difference(left_bytes, right_bytes, at);
}

/// The number that a sequence of digits stands for.
pub open spec fn number_of(digits: Seq<char>) -> int
    decreases digits.len(),
{
    if digits.len() == 0 {
        0
    } else {
        10 * number_of(digits.drop_last()) + (digits.last() as int - '0' as int)
    }
}

/// A number is written with the digits that stand for it, and without a zero in front
/// of others.
pub proof fn a_written_number_reads_as_the_number(n: nat)
    ensures
        number_of(text::decimal(n)) == n,
        text::decimal(n).len() > 0,
        forall|i: int|
            0 <= i < text::decimal(n).len() ==> '0' <= #[trigger] text::decimal(n)[i] <= '9',
        text::decimal(n)[0] == '0' ==> n == 0 && text::decimal(n).len() == 1,
    decreases n,
{
    if n < 10 {
        let digits = text::decimal(n);
        assert(digits.drop_last() =~= Seq::empty());
        assert(number_of(digits.drop_last()) == 0);
    } else {
        a_written_number_reads_as_the_number(n / 10);
        let digits = text::decimal(n);
        let front = text::decimal(n / 10);
        assert(digits.drop_last() =~= front);
        assert forall|i: int| 0 <= i < digits.len() implies '0' <= #[trigger] digits[i] <= '9' by {
            if i < front.len() {
                assert(digits[i] == front[i]);
            }
        }
        assert(digits[0] == front[0]);
    }
}

/// A negative number is written as a minus sign and its distance from zero, another as
/// it is.
pub proof fn a_signed_number_reads_as_the_number(n: int)
    ensures
        n >= 0 ==> number_of(text::signed_decimal(n)) == n,
        n < 0 ==> text::signed_decimal(n)[0] == '-' && number_of(text::signed_decimal(n).skip(1))
            == -n,
{
    if n >= 0 {
        a_written_number_reads_as_the_number(n as nat);
    } else {
        a_written_number_reads_as_the_number((-n) as nat);
        assert(text::signed_decimal(n).skip(1) =~= text::decimal((-n) as nat));
    }
}

/// Joining texts puts the separator between what is joined and nowhere else.
pub proof fn joined_texts_stand_one_after_another(
    left: Seq<Seq<char>>,
    right: Seq<Seq<char>>,
    separator: Seq<char>,
)
    ensures
        right.len() == 1 && left.len() == 0 ==> text::joined(left + right, separator) == right[0],
        left.len() > 0 && right.len() > 0 ==> text::joined(left + right, separator)
            == text::joined(left, separator) + separator + text::joined(right, separator),
    decreases right.len(),
{
    let whole = left + right;
    if right.len() == 1 && left.len() == 0 {
        assert(whole =~= right);
    }
    if left.len() > 0 && right.len() > 0 {
        assert(whole.drop_last() =~= left + right.drop_last());
        assert(whole.last() == right.last());
        if right.len() == 1 {
            assert(left + right.drop_last() =~= left);
        } else {
            joined_texts_stand_one_after_another(left, right.drop_last(), separator);
            assert(text::joined(whole, separator) =~= text::joined(left, separator) + separator
                + text::joined(right, separator));
        }
    }
}

/// Trimming takes white space away at the two ends, all of it, and nothing else.
pub proof fn trimming_takes_the_outer_space_away(
    before: Seq<char>,
    inner: Seq<char>,
    behind: Seq<char>,
)
    requires
        forall|i: int| 0 <= i < before.len() ==> text::white_space(#[trigger] before[i]),
        forall|i: int| 0 <= i < behind.len() ==> text::white_space(#[trigger] behind[i]),
        inner.len() > 0,
        !text::white_space(inner[0]),
        !text::white_space(inner.last()),
    ensures
        text::trimmed(before + inner + behind) == inner,
        text::trimmed(before).len() == 0,
    decreases before.len(),
{
    let whole = before + inner + behind;
    leading_space_goes(before, inner + behind);
    leading_space_goes(before, Seq::empty());
    assert(before + Seq::<char>::empty() =~= before);
    assert(whole =~= before + (inner + behind));
    trailing_space_goes(inner, behind);
}

proof fn leading_space_goes(before: Seq<char>, rest: Seq<char>)
    requires
        forall|i: int| 0 <= i < before.len() ==> text::white_space(#[trigger] before[i]),
        rest.len() > 0 ==> !text::white_space(rest[0]),
    ensures
        text::without_leading_space(before + rest) == rest,
    decreases before.len(),
{
    if before.len() == 0 {
        assert(before + rest =~= rest);
    } else {
        assert((before + rest).skip(1) =~= before.skip(1) + rest);
        assert((before + rest)[0] == before[0]);
        leading_space_goes(before.skip(1), rest);
    }
}

proof fn trailing_space_goes(inner: Seq<char>, behind: Seq<char>)
    requires
        forall|i: int| 0 <= i < behind.len() ==> text::white_space(#[trigger] behind[i]),
        inner.len() > 0,
        !text::white_space(inner.last()),
    ensures
        text::without_trailing_space(inner + behind) == inner,
    decreases behind.len(),
{
    if behind.len() == 0 {
        assert(inner + behind =~= inner);
    } else {
        assert((inner + behind).drop_last() =~= inner + behind.drop_last());
        assert((inner + behind).last() == behind.last());
        trailing_space_goes(inner, behind.drop_last());
    }
}

} // verus!
