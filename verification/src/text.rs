//! Text helpers shared by the other modules, with the order, joins and number
//! formats that the rest of the library states its contracts over.
use vstd::prelude::*;

verus! {

/// `String::push` appends one character to the end of the string.
pub assume_specification[ String::push ](s: &mut String, c: char)
    ensures
        final(s)@ == old(s)@.push(c),
;

/// The `Debug` form of a string, quotes and escapes as the standard library
/// writes them.
pub uninterp spec fn quoted(text: Seq<char>) -> Seq<char>;

/// Formats a string with `{:?}`; the result is named by [`quoted`].
#[verifier::external_body]
pub(crate) fn quote(text: &str) -> (shown: String)
    ensures
        shown@ == quoted(text@),
{
    format!("{:?}", text)
}

/// The `Debug` form of a path whose text is valid UTF-8.
pub uninterp spec fn quoted_path(path: Seq<char>) -> Seq<char>;

/// Formats `std::path::Path` over the given text with `{:?}`; the result is
/// named by [`quoted_path`].
#[verifier::external_body]
pub(crate) fn quote_path(path: &str) -> (shown: String)
    ensures
        shown@ == quoted_path(path@),
{
    format!("{:?}", std::path::Path::new(path))
}

/// The text that `String::from_utf8_lossy` makes of the bytes.
pub uninterp spec fn lossy(bytes: Seq<u8>) -> Seq<char>;

/// Calls `String::from_utf8_lossy`; the result is named by [`lossy`].
#[verifier::external_body]
pub(crate) fn lossy_text(bytes: &[u8]) -> (text: String)
    ensures
        text@ == lossy(bytes@),
{
    String::from_utf8_lossy(bytes).to_string()
}

/// The message of the error that `String::from_utf8` returns for the bytes.
pub uninterp spec fn utf8_complaint(bytes: Seq<u8>) -> Seq<char>;

/// Calls `String::from_utf8`: the text whose UTF-8 encoding the bytes are, or,
/// where they are no valid UTF-8, the error's message, named by
/// [`utf8_complaint`].
#[verifier::external_body]
pub(crate) fn utf8_text(bytes: Vec<u8>) -> (text: Result<String, String>)
    ensures
        match text {
            Ok(decoded) => vstd::utf8::encode_utf8(decoded@) == bytes@,
            Err(complaint) => !vstd::utf8::valid_utf8(bytes@) && complaint@ == utf8_complaint(bytes@),
        },
{
    String::from_utf8(bytes).map_err(|error| error.to_string())
}

/// Whether a character has Unicode's `White_Space` property: the control
/// characters from the tab to the carriage return, the space, the next line, the
/// no-break space, the Ogham space, the spaces of fixed width, the line and the
/// paragraph separator, the narrow no-break space, the mathematical space and the
/// ideographic space.
pub open spec fn white_space(c: char) -> bool {
    ||| '\u{9}' <= c <= '\u{d}'
    ||| c == ' '
    ||| c == '\u{85}'
    ||| c == '\u{a0}'
    ||| c == '\u{1680}'
    ||| '\u{2000}' <= c <= '\u{200a}'
    ||| c == '\u{2028}'
    ||| c == '\u{2029}'
    ||| c == '\u{202f}'
    ||| c == '\u{205f}'
    ||| c == '\u{3000}'
}

/// `char::is_whitespace` tells whether a character has the `White_Space`
/// property.
pub assume_specification[ char::is_whitespace ](c: char) -> (is_white: bool)
    ensures
        is_white == white_space(c),
;

/// The text without its leading white space.
pub open spec fn without_leading_space(text: Seq<char>) -> Seq<char>
    decreases text.len(),
{
    if text.len() > 0 && white_space(text[0]) {
        without_leading_space(text.skip(1))
    } else {
        text
    }
}

/// The text without its trailing white space.
pub open spec fn without_trailing_space(text: Seq<char>) -> Seq<char>
    decreases text.len(),
{
    if text.len() > 0 && white_space(text.last()) {
        without_trailing_space(text.drop_last())
    } else {
        text
    }
}

/// The text without the white space at its two ends.
pub open spec fn trimmed(text: Seq<char>) -> Seq<char> {
    without_trailing_space(without_leading_space(text))
}

/// Removes the white space at the two ends of the text.
pub(crate) fn trim(text: &str) -> (inner: String)
    ensures
        inner@ == trimmed(text@),
{
    let chars = chars_of(text);
    let mut start: usize = 0;
    assert(text@.skip(0) == text@);
    while start < chars.len() && chars[start].is_whitespace()
        invariant
            start <= chars@.len(),
            chars@ == text@,
            without_leading_space(text@) == without_leading_space(text@.skip(start as int)),
        decreases chars@.len() - start,
    {
        assert(text@.skip(start as int).skip(1) == text@.skip(start + 1));
        start += 1;
    }
    let mut end: usize = chars.len();
    assert(text@.subrange(start as int, end as int) == text@.skip(start as int));
    while end > start && chars[end - 1].is_whitespace()
        invariant
            start <= end <= chars@.len(),
            chars@ == text@,
            trimmed(text@) == without_trailing_space(text@.subrange(start as int, end as int)),
        decreases end,
    {
        assert(text@.subrange(start as int, end as int).drop_last() == text@.subrange(
            start as int,
            end - 1,
        ));
        end -= 1;
    }
    text_between(&chars, start, end)
}

/// The contents of a vector of strings.
pub open spec fn views(texts: Seq<String>) -> Seq<Seq<char>> {
    texts.map_values(|text: String| text@)
}

/// The contents of a sequence of string slices.
pub open spec fn slice_views(texts: Seq<&str>) -> Seq<Seq<char>> {
    texts.map_values(|text: &str| text@)
}

/// The strings as slices.
pub(crate) fn as_slices(texts: &Vec<String>) -> (slices: Vec<&str>)
    ensures
        slice_views(slices@) == views(texts@),
{
    let mut slices: Vec<&str> = Vec::new();
    let mut i: usize = 0;
    while i < texts.len()
        invariant
            i <= texts@.len(),
            slices@.len() == i,
            forall|k: int| 0 <= k < i ==> (#[trigger] slices@[k])@ == texts@[k]@,
        decreases texts@.len() - i,
    {
        slices.push(texts[i].as_str());
        i += 1;
    }
    assert(slice_views(slices@) =~= views(texts@));
    slices
}

/// The characters of a string.
pub(crate) fn chars_of(text: &str) -> (chars: Vec<char>)
    ensures
        chars@ == text@,
{
    let mut chars: Vec<char> = Vec::new();
    for c in iter: text.chars()
        invariant
            chars@ == iter.seq().take(iter.index()),
            iter.seq() == text@,
    {
        chars.push(c);
    }
    chars
}

/// The string that consists of the given characters from `start` on.
pub(crate) fn text_from(chars: &Vec<char>, start: usize) -> (text: String)
    requires
        start <= chars@.len(),
    ensures
        text@ == chars@.skip(start as int),
{
    text_between(chars, start, chars.len())
}

/// The string that consists of the given characters from `start` to `end`.
pub(crate) fn text_between(chars: &Vec<char>, start: usize, end: usize) -> (text: String)
    requires
        start <= end <= chars@.len(),
    ensures
        text@ == chars@.subrange(start as int, end as int),
{
    let mut text = String::new();
    let mut i: usize = start;
    while i < end
        invariant
            start <= i <= end <= chars@.len(),
            text@ == chars@.subrange(start as int, i as int),
        decreases end - i,
    {
        text.push(chars[i]);
        i += 1;
    }
    text
}

/// Two texts with the same UTF-8 encoding are the same text.
pub proof fn encodings_are_unique(left: Seq<char>, right: Seq<char>)
    requires
        vstd::utf8::encode_utf8(left) == vstd::utf8::encode_utf8(right),
    ensures
        left == right,
{
    vstd::utf8::encode_utf8_decode_utf8(left);
    vstd::utf8::encode_utf8_decode_utf8(right);
}

/// The UTF-8 encoding of two texts in a row.
pub proof fn encoding_of_both(left: Seq<char>, right: Seq<char>)
    ensures
        vstd::utf8::encode_utf8(left + right) == vstd::utf8::encode_utf8(left)
            + vstd::utf8::encode_utf8(right),
    decreases left.len(),
{
    if left.len() == 0 {
        assert(left + right =~= right);
        assert(vstd::utf8::encode_utf8(left) + vstd::utf8::encode_utf8(right)
            =~= vstd::utf8::encode_utf8(right));
    } else {
        encoding_of_both(left.drop_first(), right);
        assert((left + right).drop_first() =~= left.drop_first() + right);
        assert(vstd::utf8::encode_utf8(left + right) =~= vstd::utf8::encode_utf8(left)
            + vstd::utf8::encode_utf8(right));
    }
}

/// Whether two byte strings are the same.
pub(crate) fn same_bytes(left: &[u8], right: &[u8]) -> (same: bool)
    ensures
        same == (left@ == right@),
{
    if left.len() != right.len() {
        return false;
    }
    let mut i: usize = 0;
    while i < left.len()
        invariant
            i <= left@.len() == right@.len(),
            forall|k: int| 0 <= k < i ==> left@[k] == right@[k],
        decreases left@.len() - i,
    {
        if left[i] != right[i] {
            return false;
        }
        i += 1;
    }
    assert(left@ =~= right@);
    true
}

/// Whether two strings hold the same characters.
pub(crate) fn same_text(left: &str, right: &str) -> (same: bool)
    ensures
        same == (left@ == right@),
{
    let same = same_bytes(left.as_bytes(), right.as_bytes());
    proof {
        if same {
            encodings_are_unique(left@, right@);
        }
    }
    same
}

/// Whether the text begins with the prefix.
pub(crate) fn has_prefix(text: &Vec<char>, prefix: &Vec<char>) -> (has: bool)
    ensures
        has == prefix@.is_prefix_of(text@),
{
    if prefix.len() > text.len() {
        return false;
    }
    let mut i: usize = 0;
    while i < prefix.len()
        invariant
            i <= prefix@.len() <= text@.len(),
            forall|k: int| 0 <= k < i ==> prefix@[k] == text@[k],
        decreases prefix@.len() - i,
    {
        if prefix[i] != text[i] {
            assert(prefix@[i as int] != text@.take(prefix@.len() as int)[i as int]);
            return false;
        }
        i += 1;
    }
    true
}

/// Whether `left` stands before `right` in the lexicographic order of bytes.
pub open spec fn bytes_before(left: Seq<u8>, right: Seq<u8>) -> bool
    decreases left.len(),
{
    if right.len() == 0 {
        false
    } else if left.len() == 0 {
        true
    } else if left[0] != right[0] {
        left[0] < right[0]
    } else {
        bytes_before(left.skip(1), right.skip(1))
    }
}

/// The order of bytes is strict, transitive and total.
pub proof fn bytes_order_is_total(a: Seq<u8>, b: Seq<u8>, c: Seq<u8>)
    ensures
        !bytes_before(a, a),
        bytes_before(a, b) && bytes_before(b, c) ==> bytes_before(a, c),
        bytes_before(a, b) || bytes_before(b, a) || a == b,
        !(bytes_before(a, b) && bytes_before(b, a)),
    decreases a.len(),
{
    if a.len() > 0 {
        if b.len() > 0 {
            if a[0] == b[0] && a.skip(1) == b.skip(1) {
                assert(a == b) by {
                    assert(a.len() == a.skip(1).len() + 1);
                    assert(b.len() == b.skip(1).len() + 1);
                    assert forall|i: int| 0 <= i < a.len() implies a[i] == b[i] by {
                        if i > 0 {
                            assert(a[i] == a.skip(1)[i - 1]);
                            assert(b[i] == b.skip(1)[i - 1]);
                        }
                    }
                }
            }
            if c.len() > 0 {
                bytes_order_is_total(a.skip(1), b.skip(1), c.skip(1));
            } else {
                bytes_order_is_total(a.skip(1), b.skip(1), c);
            }
        } else {
            bytes_order_is_total(a.skip(1), b, c);
            if c.len() > 0 {
                bytes_order_is_total(a.skip(1), b, c.skip(1));
            }
        }
    } else if b.len() == 0 {
        assert(a == b);
    }
}

/// Whether `left` stands before `right`.
pub(crate) fn bytes_precede(left: &[u8], right: &[u8]) -> (is_before: bool)
    ensures
        is_before == bytes_before(left@, right@),
{
    let mut i: usize = 0;
    assert(left@.skip(0) == left@);
    assert(right@.skip(0) == right@);
    while i < left.len() && i < right.len()
        invariant
            i <= left@.len(),
            i <= right@.len(),
            bytes_before(left@, right@) == bytes_before(
                left@.skip(i as int),
                right@.skip(i as int),
            ),
        decreases left@.len() - i,
    {
        if left[i] != right[i] {
            return left[i] < right[i];
        }
        assert(left@.skip(i as int).skip(1) == left@.skip(i + 1));
        assert(right@.skip(i as int).skip(1) == right@.skip(i + 1));
        i += 1;
    }
    i < right.len()
}

/// Whether `left` stands before `right` in the order in which strings sort: the
/// lexicographic order of their UTF-8 encodings.
pub open spec fn before(left: Seq<char>, right: Seq<char>) -> bool {
    bytes_before(vstd::utf8::encode_utf8(left), vstd::utf8::encode_utf8(right))
}

/// The order of strings is strict, transitive and total.
pub proof fn order_is_total(a: Seq<char>, b: Seq<char>, c: Seq<char>)
    ensures
        !before(a, a),
        before(a, b) && before(b, c) ==> before(a, c),
        before(a, b) || before(b, a) || a == b,
        !(before(a, b) && before(b, a)),
{
    let encoded_a = vstd::utf8::encode_utf8(a);
    let encoded_b = vstd::utf8::encode_utf8(b);
    bytes_order_is_total(encoded_a, encoded_b, vstd::utf8::encode_utf8(c));
    if encoded_a == encoded_b {
        encodings_are_unique(a, b);
    }
}

/// Whether `left` stands before `right`.
pub(crate) fn text_precedes(left: &str, right: &str) -> (is_before: bool)
    ensures
        is_before == before(left@, right@),
{
    bytes_precede(left.as_bytes(), right.as_bytes())
}

/// Each text stands before every later one; in particular none occurs twice.
pub open spec fn ordered(texts: Seq<Seq<char>>) -> bool {
    forall|i: int, j: int| 0 <= i < j < texts.len() ==> #[trigger] before(texts[i], texts[j])
}

/// Finds the place of a name among ordered names: everything before the place
/// stands before the name, and everything from it on does not; the name itself
/// can only be at the place.
pub(crate) fn place_of(names: &Vec<String>, name: &str) -> (place: usize)
    requires
        ordered(views(names@)),
    ensures
        place <= names@.len(),
        forall|k: int| 0 <= k < place ==> #[trigger] before(views(names@)[k], name@),
        forall|k: int| place <= k < names@.len() ==> !#[trigger] before(views(names@)[k], name@),
{
    let mut low: usize = 0;
    let mut high: usize = names.len();
    while low < high
        invariant
            ordered(views(names@)),
            low <= high <= names@.len(),
            forall|k: int| 0 <= k < low ==> #[trigger] before(views(names@)[k], name@),
            forall|k: int|
                high <= k < names@.len() ==> !#[trigger] before(views(names@)[k], name@),
        decreases high - low,
    {
        let middle: usize = low + (high - low) / 2;
        if text_precedes(names[middle].as_str(), name) {
            proof {
                assert forall|k: int| 0 <= k < middle + 1 implies #[trigger] before(
                    views(names@)[k],
                    name@,
                ) by {
                    if k < middle {
                        assert(before(views(names@)[k], views(names@)[middle as int]));
                        order_is_total(views(names@)[k], views(names@)[middle as int], name@);
                    }
                }
            }
            low = middle + 1;
        } else {
            proof {
                assert forall|k: int| middle <= k < names@.len() implies !#[trigger] before(
                    views(names@)[k],
                    name@,
                ) by {
                    if k > middle {
                        assert(before(views(names@)[middle as int], views(names@)[k]));
                        order_is_total(views(names@)[middle as int], views(names@)[k], name@);
                    }
                }
            }
            high = middle;
        }
    }
    low
}

/// Inserts a name into ordered names, unless it is among them, and tells whether
/// it was.
pub(crate) fn insert_ordered(names: &mut Vec<String>, name: &str) -> (known: bool)
    requires
        ordered(views(old(names)@)),
    ensures
        known == views(old(names)@).contains(name@),
        ordered(views(final(names)@)),
        forall|text: Seq<char>| #[trigger]
            views(final(names)@).contains(text) <==> views(old(names)@).contains(text) || text
                == name@,
{
    let ghost earlier = views(names@);
    let place: usize = place_of(names, name);
    if place < names.len() && same_text(names[place].as_str(), name) {
        assert(earlier[place as int] == name@);
        return true;
    }
    proof {
        assert forall|k: int| place <= k < earlier.len() implies #[trigger] before(
            name@,
            earlier[k],
        ) by {
            order_is_total(earlier[k], name@, name@);
            if k == place {
                assert(earlier[k] == names@[k]@);
            } else {
                assert(before(earlier[place as int], earlier[k]));
                order_is_total(earlier[place as int], earlier[k], name@);
                order_is_total(earlier[place as int], name@, earlier[k]);
            }
        }
        assert(!earlier.contains(name@)) by {
            if earlier.contains(name@) {
                let k = choose|k: int| 0 <= k < earlier.len() && earlier[k] == name@;
                order_is_total(name@, name@, name@);
                if k < place {
                    assert(before(earlier[k], name@));
                } else {
                    assert(before(name@, earlier[k]));
                }
            }
        }
    }
    names.insert(place, name.to_string());
    let ghost later = views(names@);
    assert(later == earlier.insert(place as int, name@));
    proof {
        assert forall|text: Seq<char>| #[trigger]
            later.contains(text) <==> earlier.contains(text) || text == name@ by {
            if earlier.contains(text) {
                let k = choose|k: int| 0 <= k < earlier.len() && earlier[k] == text;
                if k < place {
                    assert(later[k] == text);
                } else {
                    assert(later[k + 1] == text);
                }
            }
            if text == name@ {
                assert(later[place as int] == text);
            }
            if later.contains(text) {
                let k = choose|k: int| 0 <= k < later.len() && later[k] == text;
                if k < place {
                    assert(earlier[k] == text);
                } else if k > place {
                    assert(earlier[k - 1] == text);
                }
            }
        }
        assert forall|k: int, l: int| 0 <= k < l < later.len() implies #[trigger] before(
            later[k],
            later[l],
        ) by {
            if k < place && l < place {
                assert(before(earlier[k], earlier[l]));
            } else if k < place && l > place {
                assert(before(earlier[k], earlier[l - 1]));
            } else if k > place {
                assert(before(earlier[k - 1], earlier[l - 1]));
            } else if k == place {
                assert(before(name@, earlier[l - 1]));
            } else {
                assert(before(earlier[k], name@));
            }
        }
    }
    false
}

/// The texts in order, with the separator between them.
pub open spec fn joined(texts: Seq<Seq<char>>, separator: Seq<char>) -> Seq<char>
    decreases texts.len(),
{
    if texts.len() == 0 {
        Seq::empty()
    } else if texts.len() == 1 {
        texts[0]
    } else {
        joined(texts.drop_last(), separator) + separator + texts.last()
    }
}

/// Joins the texts with the separator between them.
pub(crate) fn join(texts: &Vec<String>, separator: &str) -> (text: String)
    ensures
        text@ == joined(views(texts@), separator@),
{
    let mut text = String::new();
    let mut i: usize = 0;
    while i < texts.len()
        invariant
            i <= texts@.len(),
            text@ == joined(views(texts@).take(i as int), separator@),
        decreases texts@.len() - i,
    {
        assert(views(texts@).take(i + 1).drop_last() == views(texts@).take(i as int));
        if i > 0 {
            text.append(separator);
        }
        text.append(texts[i].as_str());
        i += 1;
    }
    assert(views(texts@).take(texts@.len() as int) == views(texts@));
    text
}

/// The character of a decimal digit.
pub open spec fn digit(n: nat) -> char {
    (48 + n) as char
}

/// A number in decimal, without leading zeros.
pub open spec fn decimal(n: nat) -> Seq<char>
    decreases n,
{
    if n < 10 {
        seq![digit(n)]
    } else {
        decimal(n / 10).push(digit(n % 10))
    }
}

/// Writes a number in decimal.
pub(crate) fn decimal_text(n: u64) -> (text: String)
    ensures
        text@ == decimal(n as nat),
    decreases n,
{
    let mut text = if n < 10 { String::new() } else { decimal_text(n / 10) };
    let last: u8 = (n % 10) as u8;
    text.push((48 + last) as char);
    text
}

/// A number in decimal, with a sign where it is negative.
pub open spec fn signed_decimal(n: int) -> Seq<char> {
    if n < 0 {
        seq!['-'] + decimal((-n) as nat)
    } else {
        decimal(n as nat)
    }
}

/// Writes a number in decimal, with a sign where it is negative.
pub(crate) fn signed_decimal_text(n: i32) -> (text: String)
    ensures
        text@ == signed_decimal(n as int),
{
    if n < 0 {
        let magnitude: i64 = -(n as i64);
        let mut text = String::new();
        text.push('-');
        text.concat(decimal_text(magnitude as u64).as_str())
    } else {
        decimal_text(n as u64)
    }
}

} // verus!
