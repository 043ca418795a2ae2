//! URLs of the Cloud Storage JSON API.
use vstd::prelude::*;

use crate::object_path::ObjectPath;
use crate::object_path::ObjectPathView;
use crate::text;
use crate::url_laws;

verus! {

/// Where the JSON API answers.
pub const API_BASE: &'static str = "https://storage.googleapis.com/storage/v1";

/// Where the JSON API takes uploads.
pub const UPLOAD_BASE: &'static str = "https://storage.googleapis.com/upload/storage/v1";

/// The upper-case hexadecimal digit of a number below sixteen.
pub open spec fn hex_digit(n: nat) -> char {
    if n < 10 {
        (48 + n) as char
    } else {
        (55 + n) as char
    }
}

/// A percent sign and the two hexadecimal digits of a byte.
pub open spec fn escaped(byte: u8) -> Seq<char> {
    seq!['%', hex_digit((byte / 16) as nat), hex_digit((byte % 16) as nat)]
}

/// `percent_encoding::percent_encode_byte` escapes a byte, whether or not it
/// could stand for itself.
pub assume_specification[ percent_encoding::percent_encode_byte ](byte: u8) -> (escape: &'static str)
    ensures
        escape@ == escaped(byte),
;

/// The bytes that cannot stand for themselves inside one segment of a URL path:
/// those outside ASCII, the control characters, and the characters that have a
/// meaning in a URL.
pub open spec fn reserved(byte: u8) -> bool {
    ||| byte < 0x20
    ||| byte >= 0x7f
    ||| byte == 0x20  // space
    ||| byte == 0x22  // "
    ||| byte == 0x23  // #
    ||| byte == 0x25  // %
    ||| byte == 0x2a  // *
    ||| byte == 0x2f  // /
    ||| byte == 0x3a  // :
    ||| byte == 0x3c  // <
    ||| byte == 0x3e  // >
    ||| byte == 0x3f  // ?
    ||| byte == 0x5b  // [
    ||| byte == 0x5c  // \
    ||| byte == 0x5d  // ]
    ||| byte == 0x5e  // ^
    ||| byte == 0x60  // `
    ||| byte == 0x7b  // {
    ||| byte == 0x7c  // |
    ||| byte == 0x7d  // }
}

/// The bytes as path data: each either stands for itself or is escaped.
pub open spec fn path_data(bytes: Seq<u8>) -> Seq<char>
    decreases bytes.len(),
{
    if bytes.len() == 0 {
        Seq::empty()
    } else {
        path_data(bytes.drop_last()) + (if reserved(bytes.last()) {
            escaped(bytes.last())
        } else {
            seq![bytes.last() as char]
        })
    }
}

/// A name as one segment of a URL path.
pub open spec fn segment(name: Seq<char>) -> Seq<char> {
    path_data(vstd::utf8::encode_utf8(name))
}

fn is_reserved(byte: u8) -> (is: bool)
    ensures
        is == reserved(byte),
{
    byte <= 0x20 || byte >= 0x7f || byte == 0x22 || byte == 0x23 || byte == 0x25 || byte == 0x2a
        || byte == 0x2f || byte == 0x3a || byte == 0x3c || byte == 0x3e || byte == 0x3f || byte
        == 0x5b || byte == 0x5c || byte == 0x5d || byte == 0x5e || byte == 0x60 || byte == 0x7b
        || byte == 0x7c || byte == 0x7d
}

/// Encodes a name so that it stands for itself in one segment of a URL path.
pub fn encode(value: &str) -> (encoded: String)
    ensures
        encoded@ == segment(value@),
        url_laws::segment_says(encoded@, value@),
{
    proof {
        url_laws::an_encoded_name_reads_as_the_name(value@);
    }
    let bytes = value.as_bytes();
    let mut encoded = String::new();
    let mut i: usize = 0;
    while i < bytes.len()
        invariant
            i <= bytes@.len(),
            encoded@ == path_data(bytes@.take(i as int)),
        decreases bytes@.len() - i,
    {
        assert(bytes@.take(i + 1).drop_last() == bytes@.take(i as int));
        if is_reserved(bytes[i]) {
            encoded.append(percent_encoding::percent_encode_byte(bytes[i]));
        } else {
            encoded.push(bytes[i] as char);
        }
        i += 1;
    }
    assert(bytes@.take(bytes@.len() as int) == bytes@);
    encoded
}

/// The bytes that stand for themselves in a form-encoded query.
pub open spec fn plain_in_query(byte: u8) -> bool {
    ||| byte == 0x2a  // *
    ||| byte == 0x2d  // -
    ||| byte == 0x2e  // .
    ||| byte == 0x5f  // _
    ||| 0x30 <= byte <= 0x39
    ||| 0x41 <= byte <= 0x5a
    ||| 0x61 <= byte <= 0x7a
}

/// The form encoding of bytes: a space becomes a plus sign, and whatever does
/// not stand for itself is escaped.
pub open spec fn query_data(bytes: Seq<u8>) -> Seq<char>
    decreases bytes.len(),
{
    if bytes.len() == 0 {
        Seq::empty()
    } else {
        query_data(bytes.drop_last()) + (if plain_in_query(bytes.last()) {
            seq![bytes.last() as char]
        } else if bytes.last() == 0x20 {
            seq!['+']
        } else {
            escaped(bytes.last())
        })
    }
}

/// One `name=value` pair of a query, both sides form-encoded.
pub open spec fn pair(name: Seq<char>, value: Seq<char>) -> Seq<char> {
    query_data(vstd::utf8::encode_utf8(name)) + seq!['='] + query_data(
        vstd::utf8::encode_utf8(value),
    )
}

/// Serializes one pair with `url::form_urlencoded::Serializer`, whose
/// `append_pair` form-encodes the UTF-8 bytes of the name and of the value and
/// puts an equals sign between them.
#[verifier::external_body]
pub(crate) fn query_pair(name: &str, value: &str) -> (text: String)
    ensures
        text@ == pair(name@, value@),
{
    let mut serializer = url::form_urlencoded::Serializer::new(String::new());
    serializer.append_pair(name, value);
    serializer.finish()
}

/// A URL with a query of the given pairs.
pub open spec fn queried(base: Seq<char>, pairs: Seq<Seq<char>>) -> Seq<char> {
    base + "?"@ + text::joined(pairs, "&"@)
}

/// Appends a query of the given pairs to a URL.
pub(crate) fn with_query(base: String, pairs: &Vec<String>) -> (url: String)
    ensures
        url@ == queried(base@, text::views(pairs@)),
{
    base.concat("?").concat(text::join(pairs, "&").as_str())
}

/// The collection of a bucket's objects.
pub open spec fn collection(base: Seq<char>, bucket: Seq<char>) -> Seq<char> {
    base + "/b/"@ + segment(bucket) + "/o"@
}

pub(crate) fn objects_url(base: &str, bucket: &str) -> (url: String)
    ensures
        url@ == collection(base@, bucket@),
{
    base.to_string().concat("/b/").concat(encode(bucket).as_str()).concat("/o")
}

/// One object.
pub open spec fn resource(base: Seq<char>, object: ObjectPathView) -> Seq<char> {
    base + "/b/"@ + segment(object.bucket) + "/o/"@ + segment(object.object)
}

pub fn object_url(base: &str, object: &ObjectPath) -> (url: String)
    ensures
        url@ == resource(base@, object@),
{
    base.to_string().concat("/b/").concat(encode(object.bucket.as_str()).as_str()).concat(
        "/o/",
    ).concat(encode(object.object.as_str()).as_str())
}

/// The rewrite of one object to another.
pub open spec fn rewrite(base: Seq<char>, source: ObjectPathView, target: ObjectPathView) -> Seq<
    char,
> {
    resource(base, source) + "/rewriteTo/b/"@ + segment(target.bucket) + "/o/"@ + segment(
        target.object,
    )
}

pub fn rewrite_url(base: &str, source: &ObjectPath, target: &ObjectPath) -> (url: String)
    ensures
        url@ == rewrite(base@, source@, target@),
{
    object_url(base, source).concat("/rewriteTo/b/").concat(
        encode(target.bucket.as_str()).as_str(),
    ).concat("/o/").concat(encode(target.object.as_str()).as_str())
}

/// One object at a generation.
pub open spec fn generation_resource(
    base: Seq<char>,
    object: ObjectPathView,
    generation: Seq<char>,
) -> Seq<char> {
    queried(resource(base, object), seq![pair("generation"@, generation)])
}

pub(crate) fn generation_url(base: &str, object: &ObjectPath, generation: &str) -> (url: String)
    ensures
        url@ == generation_resource(base@, object@, generation@),
{
    let pairs: Vec<String> = vec![query_pair("generation", generation)];
    assert(text::views(pairs@) =~= seq![pair("generation"@, generation@)]);
    with_query(object_url(base, object), &pairs)
}

/// The creation of an object that must not exist yet.
pub open spec fn creation(base: Seq<char>, object: ObjectPathView) -> Seq<char> {
    queried(
        collection(base, object.bucket),
        seq![
            pair("uploadType"@, "media"@),
            pair("name"@, object.object),
            pair("ifGenerationMatch"@, "0"@),
        ],
    )
}

pub(crate) fn creation_url(base: &str, object: &ObjectPath) -> (url: String)
    ensures
        url@ == creation(base@, object@),
{
    let pairs: Vec<String> = vec![
        query_pair("uploadType", "media"),
        query_pair("name", object.object.as_str()),
        query_pair("ifGenerationMatch", "0"),
    ];
    assert(text::views(pairs@) =~= seq![
        pair("uploadType"@, "media"@),
        pair("name"@, object.object@),
        pair("ifGenerationMatch"@, "0"@),
    ]);
    with_query(objects_url(base, object.bucket.as_str()), &pairs)
}

/// A character that can stand inside one segment of a URL path: printable ASCII
/// that neither ends the segment nor begins a query or a fragment.
pub open spec fn inside_segment(c: char) -> bool {
    &&& 0x20 < c as int
    &&& (c as int) < 0x7f
    &&& c != '/'
    &&& c != '?'
    &&& c != '#'
}

/// An encoded name is one segment of a URL path, whatever characters the name
/// holds.
pub proof fn encoded_names_are_one_segment(name: Seq<char>)
    ensures
        forall|i: int| 0 <= i < segment(name).len() ==> inside_segment(#[trigger] segment(name)[i]),
{
    path_data_is_one_segment(vstd::utf8::encode_utf8(name));
}

proof fn path_data_is_one_segment(bytes: Seq<u8>)
    ensures
        forall|i: int| 0 <= i < path_data(bytes).len() ==> inside_segment(#[trigger] path_data(bytes)[i]),
    decreases bytes.len(),
{
    if bytes.len() > 0 {
        let last = bytes.last();
        let front = path_data(bytes.drop_last());
        path_data_is_one_segment(bytes.drop_last());
        assert(0 <= last / 16 < 16);
        assert(0 <= last % 16 < 16);
        assert forall|i: int| 0 <= i < path_data(bytes).len() implies inside_segment(
            #[trigger] path_data(bytes)[i],
        ) by {
            if i < front.len() {
                assert(path_data(bytes)[i] == front[i]);
            }
        }
    }
}

/// An escape is never cut short: two digits follow every percent sign.
proof fn escapes_are_whole(bytes: Seq<u8>)
    ensures
        forall|i: int|
            0 <= i < path_data(bytes).len() && #[trigger] path_data(bytes)[i] == '%' ==> i + 2
                < path_data(bytes).len(),
    decreases bytes.len(),
{
    if bytes.len() > 0 {
        let front = path_data(bytes.drop_last());
        escapes_are_whole(bytes.drop_last());
        assert(0 <= bytes.last() / 16 < 16);
        assert(0 <= bytes.last() % 16 < 16);
        assert forall|i: int|
            0 <= i < path_data(bytes).len() && #[trigger] path_data(bytes)[i] == '%' implies i + 2
            < path_data(bytes).len() by {
            if i < front.len() {
                assert(path_data(bytes)[i] == front[i]);
            }
        }
    }
}

proof fn path_data_is_unique(left: Seq<u8>, right: Seq<u8>)
    requires
        path_data(left) == path_data(right),
    ensures
        left == right,
    decreases left.len(),
{
    let data = path_data(left);
    if left.len() == 0 || right.len() == 0 {
        assert(left =~= right);
    } else {
        let a = left.last();
        let b = right.last();
        let front_a = path_data(left.drop_last());
        let front_b = path_data(right.drop_last());
        escapes_are_whole(left.drop_last());
        escapes_are_whole(right.drop_last());
        let n = data.len() as int;
        assert(a / 16 < 16 && a % 16 < 16 && a == 16 * (a / 16) + a % 16);
        assert(b / 16 < 16 && b % 16 < 16 && b == 16 * (b / 16) + b % 16);
        if reserved(a) {
            assert(data[n - 3] == '%');
            if !reserved(b) {
                assert(front_b[n - 3] == data[n - 3]);
                assert(false);
            }
            assert(data[n - 2] == hex_digit((a / 16) as nat));
            assert(data[n - 1] == hex_digit((a % 16) as nat));
            assert(path_data(right)[n - 2] == hex_digit((b / 16) as nat));
            assert(path_data(right)[n - 1] == hex_digit((b % 16) as nat));
            assert(a == b);
            assert(front_a =~= data.take(n - 3));
            assert(front_b =~= data.take(n - 3));
        } else {
            if reserved(b) {
                assert(path_data(right)[n - 3] == '%');
                assert(front_a[n - 3] == data[n - 3]);
                assert(false);
            }
            assert(data[n - 1] == a as char);
            assert(path_data(right)[n - 1] == b as char);
            assert(a == b);
            assert(front_a =~= data.take(n - 1));
            assert(front_b =~= data.take(n - 1));
        }
        path_data_is_unique(left.drop_last(), right.drop_last());
        assert(left =~= left.drop_last().push(a));
        assert(right =~= right.drop_last().push(b));
    }
}

/// Names with the same encoding are the same name.
pub proof fn encoded_names_differ(left: Seq<char>, right: Seq<char>)
    requires
        segment(left) == segment(right),
    ensures
        left == right,
{
    path_data_is_unique(vstd::utf8::encode_utf8(left), vstd::utf8::encode_utf8(right));
    text::encodings_are_unique(left, right);
}

/// A URL names one object, whatever characters its bucket and its name hold.
pub proof fn urls_name_one_object(base: Seq<char>, left: ObjectPathView, right: ObjectPathView)
    requires
        resource(base, left) == resource(base, right),
    ensures
        left == right,
{
    reveal_strlit("/b/");
    reveal_strlit("/o/");
    let url = resource(base, left);
    let start = base.len() as int + 3;
    let left_end = start + segment(left.bucket).len() as int;
    let right_end = start + segment(right.bucket).len() as int;
    encoded_names_are_one_segment(left.bucket);
    encoded_names_are_one_segment(right.bucket);
    assert(url[left_end] == '/');
    assert(resource(base, right)[right_end] == '/');
    assert(left_end == right_end) by {
        if left_end < right_end {
            assert(segment(right.bucket)[left_end - start] == url[left_end]);
        } else if right_end < left_end {
            assert(segment(left.bucket)[right_end - start] == url[right_end]);
        }
    }
    assert(segment(left.bucket) =~= url.subrange(start, left_end));
    assert(segment(right.bucket) =~= url.subrange(start, left_end));
    assert(segment(left.object) =~= url.skip(left_end + 3));
    assert(segment(right.object) =~= url.skip(left_end + 3));
    encoded_names_differ(left.bucket, right.bucket);
    encoded_names_differ(left.object, right.object);
}

} // verus!
