//! What the URLs of requests say to whoever reads them.
//!
//! The readers here take a URL apart as a server does: a percent sign and two
//! hexadecimal digits are the byte of that number, and every other character is its
//! own ASCII byte. In a query a plus sign is a space.
use vstd::prelude::*;

use crate::object_path::ObjectPathView;
use crate::storage_url;
use crate::text;

verus! {

/// The value of a hexadecimal digit.
pub open spec fn digit_value(c: char) -> Option<int> {
    if '0' <= c <= '9' {
        Some(c as int - '0' as int)
    } else if 'A' <= c <= 'F' {
        Some(c as int - 'A' as int + 10)
    } else if 'a' <= c <= 'f' {
        Some(c as int - 'a' as int + 10)
    } else {
        None
    }
}

/// The bytes that a piece of a URL stands for, where it stands for any.
pub open spec fn decoded(piece: Seq<char>, plus_is_space: bool) -> Option<Seq<u8>>
    decreases piece.len(),
{
    if piece.len() == 0 {
        Some(Seq::empty())
    } else if piece[0] == '%' {
        if piece.len() < 3 || digit_value(piece[1]) is None || digit_value(piece[2]) is None {
            None
        } else {
            match decoded(piece.skip(3), plus_is_space) {
                Some(rest) => Some(
                    seq![(16 * digit_value(piece[1])->0 + digit_value(piece[2])->0) as u8] + rest,
                ),
                None => None,
            }
        }
    } else if piece[0] as int >= 0x80 {
        None
    } else {
        match decoded(piece.skip(1), plus_is_space) {
            Some(rest) => Some(
                seq![
                    if plus_is_space && piece[0] == '+' {
                        ' ' as u8
                    } else {
                        piece[0] as u8
                    },
                ] + rest,
            ),
            None => None,
        }
    }
}

/// The piece is one segment of a path that stands for the text: read as UTF-8 it is
/// the text, and nothing in it ends the segment.
pub open spec fn segment_says(piece: Seq<char>, text: Seq<char>) -> bool {
    &&& decoded(piece, false) == Some(vstd::utf8::encode_utf8(text))
    &&& !piece.contains('/')
    &&& !piece.contains('?')
    &&& !piece.contains('#')
}

/// The piece is one side of a query pair that stands for the text.
pub open spec fn value_says(piece: Seq<char>, text: Seq<char>) -> bool {
    &&& decoded(piece, true) == Some(vstd::utf8::encode_utf8(text))
    &&& !piece.contains('&')
    &&& !piece.contains('=')
    &&& !piece.contains('#')
}

/// The query is the pairs, in order: each side stands for its text, an equals sign
/// stands between the sides and an ampersand between the pairs.
pub open spec fn query_says(query: Seq<char>, pairs: Seq<(Seq<char>, Seq<char>)>) -> bool
    decreases pairs.len(),
{
    if pairs.len() == 0 {
        query.len() == 0
    } else if pairs.len() == 1 {
        pair_says(query, pairs[0].0, pairs[0].1)
    } else {
        exists|front: Seq<char>, last: Seq<char>|
            {
                &&& query == #[trigger] (front + seq!['&'] + last)
                &&& query_says(front, pairs.drop_last())
                &&& pair_says(last, pairs.last().0, pairs.last().1)
            }
    }
}

pub open spec fn pair_says(query: Seq<char>, name: Seq<char>, value: Seq<char>) -> bool {
    exists|left: Seq<char>, right: Seq<char>|
        {
            &&& query == #[trigger] (left + seq!['='] + right)
            &&& value_says(left, name)
            &&& value_says(right, value)
        }
}

/// The URL is that of an object: `/b/`, its bucket, `/o/`, its name.
pub open spec fn says_object(
    url: Seq<char>,
    base: Seq<char>,
    bucket: Seq<char>,
    object: Seq<char>,
) -> bool {
    exists|first: Seq<char>, second: Seq<char>|
        {
            &&& url == #[trigger] (base + "/b/"@ + first + "/o/"@ + second)
            &&& segment_says(first, bucket)
            &&& segment_says(second, object)
        }
}

/// The URL is that of the objects of a bucket: `/b/`, the bucket, `/o`.
pub open spec fn says_bucket(url: Seq<char>, base: Seq<char>, bucket: Seq<char>) -> bool {
    exists|piece: Seq<char>|
        {
            &&& url == #[trigger] (base + "/b/"@ + piece + "/o"@)
            &&& segment_says(piece, bucket)
        }
}

/// The URL asks for a copy of one object under the name of another.
pub open spec fn says_rewrite(
    url: Seq<char>,
    base: Seq<char>,
    source: (Seq<char>, Seq<char>),
    target: (Seq<char>, Seq<char>),
) -> bool {
    exists|from: Seq<char>, first: Seq<char>, second: Seq<char>|
        {
            &&& url == #[trigger] (from + "/rewriteTo/b/"@ + first + "/o/"@ + second)
            &&& says_object(from, base, source.0, source.1)
            &&& segment_says(first, target.0)
            &&& segment_says(second, target.1)
        }
}

/// The URL is one without a query, and a query of the pairs.
pub open spec fn with_pairs(
    url: Seq<char>,
    plain: Seq<char>,
    pairs: Seq<(Seq<char>, Seq<char>)>,
) -> bool {
    exists|query: Seq<char>|
        url == #[trigger] (plain + seq!['?'] + query) && query_says(query, pairs)
}

proof fn reads_one(piece: Seq<char>, byte: u8, plus_is_space: bool, rest: Seq<char>)
    requires
        ({
            ||| piece == storage_url::escaped(byte)
            ||| {
                &&& piece == seq![byte as char]
                &&& byte < 0x80
                &&& byte != 0x25
                &&& plus_is_space ==> byte != 0x2b
            }
            ||| plus_is_space && byte == 0x20 && piece == seq!['+']
        }),
        decoded(rest, plus_is_space) is Some,
    ensures
        decoded(piece + rest, plus_is_space) == Some(
            seq![byte] + decoded(rest, plus_is_space)->0,
        ),
{
    let whole = piece + rest;
    assert(0 <= byte / 16 < 16);
    assert(0 <= byte % 16 < 16);
    assert(byte == 16 * (byte / 16) + byte % 16);
    if piece == storage_url::escaped(byte) {
        assert(whole.skip(3) =~= rest);
        assert(whole[0] == '%');
        assert(digit_value(whole[1]) == Some((byte / 16) as int));
        assert(digit_value(whole[2]) == Some((byte % 16) as int));
    } else {
        assert(whole.skip(1) =~= rest);
        assert(whole[0] == piece[0]);
    }
}

proof fn reads_path_data(bytes: Seq<u8>, rest: Seq<char>)
    requires
        decoded(rest, false) is Some,
    ensures
        decoded(storage_url::path_data(bytes) + rest, false) == Some(
            bytes + decoded(rest, false)->0,
        ),
    decreases bytes.len(),
{
    let data = storage_url::path_data(bytes);
    if bytes.len() == 0 {
        assert(data + rest =~= rest);
        assert(bytes + decoded(rest, false)->0 =~= decoded(rest, false)->0);
    } else {
        let front = storage_url::path_data(bytes.drop_last());
        let last = bytes.last();
        let piece = if storage_url::reserved(last) {
            storage_url::escaped(last)
        } else {
            seq![last as char]
        };
        reads_one(piece, last, false, rest);
        reads_path_data(bytes.drop_last(), piece + rest);
        assert(data + rest =~= front + (piece + rest));
        assert(bytes.drop_last() + (seq![last] + decoded(rest, false)->0) =~= bytes + decoded(
            rest,
            false,
        )->0);
    }
}

proof fn reads_query_data(bytes: Seq<u8>, rest: Seq<char>)
    requires
        decoded(rest, true) is Some,
    ensures
        decoded(storage_url::query_data(bytes) + rest, true) == Some(
            bytes + decoded(rest, true)->0,
        ),
    decreases bytes.len(),
{
    let data = storage_url::query_data(bytes);
    if bytes.len() == 0 {
        assert(data + rest =~= rest);
        assert(bytes + decoded(rest, true)->0 =~= decoded(rest, true)->0);
    } else {
        let front = storage_url::query_data(bytes.drop_last());
        let last = bytes.last();
        let piece = if storage_url::plain_in_query(last) {
            seq![last as char]
        } else if last == 0x20 {
            seq!['+']
        } else {
            storage_url::escaped(last)
        };
        reads_one(piece, last, true, rest);
        reads_query_data(bytes.drop_last(), piece + rest);
        assert(data + rest =~= front + (piece + rest));
        assert(bytes.drop_last() + (seq![last] + decoded(rest, true)->0) =~= bytes + decoded(
            rest,
            true,
        )->0);
    }
}

proof fn query_data_ends_nowhere(bytes: Seq<u8>)
    ensures
        forall|i: int|
            0 <= i < storage_url::query_data(bytes).len() ==> {
                let c = #[trigger] storage_url::query_data(bytes)[i];
                c != '&' && c != '=' && c != '#'
            },
    decreases bytes.len(),
{
    if bytes.len() > 0 {
        let front = storage_url::query_data(bytes.drop_last());
        let last = bytes.last();
        query_data_ends_nowhere(bytes.drop_last());
        assert(0 <= last / 16 < 16);
        assert(0 <= last % 16 < 16);
        let data = storage_url::query_data(bytes);
        assert forall|i: int| 0 <= i < data.len() implies {
            let c = #[trigger] data[i];
            c != '&' && c != '=' && c != '#'
        } by {
            if i < front.len() {
                assert(data[i] == front[i]);
            }
        }
    }
}

/// An encoded name, read as a segment of a path, is the name again.
pub proof fn an_encoded_name_reads_as_the_name(name: Seq<char>)
    ensures
        segment_says(storage_url::segment(name), name),
{
    let bytes = vstd::utf8::encode_utf8(name);
    let piece = storage_url::segment(name);
    let nothing = Seq::<char>::empty();
    reads_path_data(bytes, nothing);
    assert(piece + nothing =~= piece);
    assert(bytes + Seq::<u8>::empty() =~= bytes);
    storage_url::encoded_names_are_one_segment(name);
    assert forall|c: char| c == '/' || c == '?' || c == '#' implies !piece.contains(c) by {
        if piece.contains(c) {
            let i = choose|i: int| 0 <= i < piece.len() && piece[i] == c;
            assert(storage_url::inside_segment(storage_url::segment(name)[i]));
        }
    }
}

/// Characters that need no escape stand for themselves: a name of printable ASCII
/// characters, none of which is a space or one of `"#%*/:<>?[\]^` and the backquote,
/// `{`, `|` or `}`, is its own encoding.
pub proof fn plain_names_stand_for_themselves(name: Seq<char>)
    requires
        forall|i: int|
            0 <= i < name.len() ==> {
                let c = #[trigger] name[i];
                &&& '!' <= c <= '~'
                &&& c != '"' && c != '#' && c != '%' && c != '*' && c != '/' && c != ':'
                &&& c != '<' && c != '>' && c != '?' && c != '[' && c != '\\' && c != ']'
                &&& c != '^' && c != '`' && c != '{' && c != '|' && c != '}'
            },
    ensures
        storage_url::segment(name) == name,
{
    let bytes = vstd::utf8::encode_utf8(name);
    assert(vstd::utf8::is_ascii_chars(name));
    vstd::utf8::is_ascii_chars_encode_utf8(name);
    plain_bytes_stand_for_themselves(name, bytes);
}

proof fn plain_bytes_stand_for_themselves(name: Seq<char>, bytes: Seq<u8>)
    requires
        bytes.len() == name.len(),
        forall|i: int| 0 <= i < name.len() ==> #[trigger] bytes[i] as char == name[i],
        forall|i: int| 0 <= i < bytes.len() ==> !storage_url::reserved(#[trigger] bytes[i]),
    ensures
        storage_url::path_data(bytes) == name,
    decreases bytes.len(),
{
    if bytes.len() > 0 {
        plain_bytes_stand_for_themselves(name.drop_last(), bytes.drop_last());
        assert(storage_url::path_data(bytes) =~= name);
    } else {
        assert(storage_url::path_data(bytes) =~= name);
    }
}

/// Names are encoded character by character: the encoding of two names put together
/// is that of the first and that of the second.
pub proof fn names_are_encoded_piece_by_piece(first: Seq<char>, second: Seq<char>)
    ensures
        storage_url::segment(first + second) == storage_url::segment(first) + storage_url::segment(
            second,
        ),
{
    text::encoding_of_both(first, second);
    path_data_of_both(vstd::utf8::encode_utf8(first), vstd::utf8::encode_utf8(second));
}

proof fn path_data_of_both(first: Seq<u8>, second: Seq<u8>)
    ensures
        storage_url::path_data(first + second) == storage_url::path_data(first)
            + storage_url::path_data(second),
    decreases second.len(),
{
    if second.len() == 0 {
        assert(first + second =~= first);
        assert(storage_url::path_data(first) + storage_url::path_data(second)
            =~= storage_url::path_data(first));
    } else {
        path_data_of_both(first, second.drop_last());
        assert((first + second).drop_last() =~= first + second.drop_last());
        assert(storage_url::path_data(first + second) =~= storage_url::path_data(first)
            + storage_url::path_data(second));
    }
}

proof fn a_value_reads_as_the_value(value: Seq<char>)
    ensures
        value_says(storage_url::query_data(vstd::utf8::encode_utf8(value)), value),
{
    let bytes = vstd::utf8::encode_utf8(value);
    let piece = storage_url::query_data(bytes);
    let nothing = Seq::<char>::empty();
    reads_query_data(bytes, nothing);
    assert(piece + nothing =~= piece);
    assert(bytes + Seq::<u8>::empty() =~= bytes);
    query_data_ends_nowhere(bytes);
    assert forall|c: char| c == '&' || c == '=' || c == '#' implies !piece.contains(c) by {
        if piece.contains(c) {
            let i = choose|i: int| 0 <= i < piece.len() && piece[i] == c;
            assert(storage_url::query_data(bytes)[i] == c);
        }
    }
}

/// A query pair reads as its name and its value.
pub proof fn a_pair_reads_as_name_and_value(name: Seq<char>, value: Seq<char>)
    ensures
        pair_says(storage_url::pair(name, value), name, value),
{
    let left = storage_url::query_data(vstd::utf8::encode_utf8(name));
    let right = storage_url::query_data(vstd::utf8::encode_utf8(value));
    a_value_reads_as_the_value(name);
    a_value_reads_as_the_value(value);
    assert(storage_url::pair(name, value) == left + seq!['='] + right);
}

/// The pairs as texts.
spec fn written(pairs: Seq<(Seq<char>, Seq<char>)>) -> Seq<Seq<char>> {
    pairs.map_values(|pair: (Seq<char>, Seq<char>)| storage_url::pair(pair.0, pair.1))
}

/// A URL with a query reads as the URL without it and the pairs of the query, in
/// order.
pub proof fn a_query_reads_as_its_pairs(base: Seq<char>, pairs: Seq<(Seq<char>, Seq<char>)>)
    requires
        pairs.len() > 0,
    ensures
        with_pairs(
            storage_url::queried(
                base,
                pairs.map_values(|pair: (Seq<char>, Seq<char>)| storage_url::pair(pair.0, pair.1)),
            ),
            base,
            pairs,
        ),
{
    reveal_strlit("?");
    let query = text::joined(written(pairs), "&"@);
    joined_pairs_read(pairs);
    assert("?"@ =~= seq!['?']);
    assert(storage_url::queried(base, written(pairs)) == base + seq!['?'] + query);
}

proof fn joined_pairs_read(pairs: Seq<(Seq<char>, Seq<char>)>)
    requires
        pairs.len() > 0,
    ensures
        query_says(text::joined(written(pairs), "&"@), pairs),
    decreases pairs.len(),
{
    reveal_strlit("&");
    assert("&"@ =~= seq!['&']);
    let texts = written(pairs);
    a_pair_reads_as_name_and_value(pairs.last().0, pairs.last().1);
    if pairs.len() > 1 {
        joined_pairs_read(pairs.drop_last());
        assert(texts.drop_last() =~= written(pairs.drop_last()));
        let front = text::joined(written(pairs.drop_last()), "&"@);
        let last = storage_url::pair(pairs.last().0, pairs.last().1);
        assert(text::joined(texts, "&"@) == front + seq!['&'] + last);
    } else {
        assert(pairs[0] == pairs.last());
        assert(text::joined(texts, "&"@) == texts[0]);
    }
}

/// The URL of an object reads as its bucket and its name.
pub proof fn an_object_url_reads_as_the_object(base: Seq<char>, object: ObjectPathView)
    ensures
        says_object(storage_url::resource(base, object), base, object.bucket, object.object),
{
    let first = storage_url::segment(object.bucket);
    let second = storage_url::segment(object.object);
    an_encoded_name_reads_as_the_name(object.bucket);
    an_encoded_name_reads_as_the_name(object.object);
    assert(storage_url::resource(base, object) == base + "/b/"@ + first + "/o/"@ + second);
}

/// The URL of the objects of a bucket reads as the bucket.
pub proof fn a_bucket_url_reads_as_the_bucket(base: Seq<char>, bucket: Seq<char>)
    ensures
        says_bucket(storage_url::collection(base, bucket), base, bucket),
{
    let piece = storage_url::segment(bucket);
    an_encoded_name_reads_as_the_name(bucket);
    assert(storage_url::collection(base, bucket) == base + "/b/"@ + piece + "/o"@);
}

/// The URL of a rewrite reads as a copy of the source under the name of the target.
pub proof fn a_rewrite_url_reads_as_a_copy(
    base: Seq<char>,
    source: ObjectPathView,
    target: ObjectPathView,
)
    ensures
        says_rewrite(
            storage_url::rewrite(base, source, target),
            base,
            (source.bucket, source.object),
            (target.bucket, target.object),
        ),
{
    let from = storage_url::resource(base, source);
    let first = storage_url::segment(target.bucket);
    let second = storage_url::segment(target.object);
    an_object_url_reads_as_the_object(base, source);
    an_encoded_name_reads_as_the_name(target.bucket);
    an_encoded_name_reads_as_the_name(target.object);
    assert(storage_url::rewrite(base, source, target) == from + "/rewriteTo/b/"@ + first + "/o/"@
        + second);
}

/// The URL of an object at a generation reads as the object, and a query for that
/// generation alone.
pub proof fn a_generation_url_reads_as_the_generation(
    base: Seq<char>,
    object: ObjectPathView,
    generation: Seq<char>,
)
    ensures
        exists|plain: Seq<char>|
            {
                &&& #[trigger] says_object(plain, base, object.bucket, object.object)
                &&& with_pairs(
                    storage_url::generation_resource(base, object, generation),
                    plain,
                    seq![("generation"@, generation)],
                )
            },
{
    let plain = storage_url::resource(base, object);
    let pairs = seq![("generation"@, generation)];
    an_object_url_reads_as_the_object(base, object);
    a_query_reads_as_its_pairs(plain, pairs);
    assert(written(pairs) =~= seq![storage_url::pair("generation"@, generation)]);
}

/// The URL that creates an object reads as an upload to its bucket, under its name,
/// on the condition that no object has the name.
pub proof fn a_creation_url_reads_as_a_guarded_upload(base: Seq<char>, object: ObjectPathView)
    ensures
        exists|plain: Seq<char>|
            {
                &&& #[trigger] says_bucket(plain, base, object.bucket)
                &&& with_pairs(
                    storage_url::creation(base, object),
                    plain,
                    seq![
                        ("uploadType"@, "media"@),
                        ("name"@, object.object),
                        ("ifGenerationMatch"@, "0"@),
                    ],
                )
            },
{
    let plain = storage_url::collection(base, object.bucket);
    let pairs = seq![
        ("uploadType"@, "media"@),
        ("name"@, object.object),
        ("ifGenerationMatch"@, "0"@),
    ];
    a_bucket_url_reads_as_the_bucket(base, object.bucket);
    a_query_reads_as_its_pairs(plain, pairs);
    assert(written(pairs) =~= seq![
        storage_url::pair("uploadType"@, "media"@),
        storage_url::pair("name"@, object.object),
        storage_url::pair("ifGenerationMatch"@, "0"@),
    ]);
}

} // verus!
