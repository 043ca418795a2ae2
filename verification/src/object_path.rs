//! The name of an object in a bucket.
use vstd::prelude::*;

use crate::error::AppError;
use crate::text;

verus! {

/// Cloud Storage rejects object names longer than this, so reject them before
/// any request is sent and the transaction is half applied.
pub const MAX_OBJECT_NAME_BYTES: usize = 1024;

#[derive(Debug, Hash, Eq)]
pub struct ObjectPath {
    pub bucket: String,
    pub object: String,
}

/// What an [`ObjectPath`] names.
#[verifier::ext_equal]
pub struct ObjectPathView {
    pub bucket: Seq<char>,
    pub object: Seq<char>,
}

impl View for ObjectPath {
    type V = ObjectPathView;

    open spec fn view(&self) -> ObjectPathView {
        ObjectPathView { bucket: self.bucket@, object: self.object@ }
    }
}

impl ObjectPathView {
    /// The URI that names the object.
    pub open spec fn uri(self) -> Seq<char> {
        "gs://"@ + self.bucket + "/"@ + self.object
    }

    /// The size of the object name in UTF-8.
    pub open spec fn name_bytes(self) -> nat {
        vstd::utf8::encode_utf8(self.object).len()
    }

    /// Whether the parts can be told apart in the URI: neither is empty, and
    /// the bucket holds no slash.
    pub open spec fn nameable(self) -> bool {
        &&& self.bucket.len() > 0
        &&& self.object.len() > 0
        &&& !self.bucket.contains('/')
    }
}

impl Clone for ObjectPath {
    fn clone(&self) -> (copy: Self)
        ensures
            copy == *self,
    {
        ObjectPath { bucket: self.bucket.clone(), object: self.object.clone() }
    }
}

impl PartialEq for ObjectPath {
    fn eq(&self, other: &Self) -> (same: bool) {
        self.bucket == other.bucket && self.object == other.object
    }
}

impl vstd::std_specs::cmp::PartialEqSpecImpl for ObjectPath {
    open spec fn obeys_eq_spec() -> bool {
        true
    }

    open spec fn eq_spec(&self, other: &Self) -> bool {
        self@ == other@
    }
}

/// The text is `gs://`, the bucket, a slash and the object, where the bucket is the
/// text up to the first slash and neither part is empty.
pub open spec fn names_object(text: Seq<char>, bucket: Seq<char>, object: Seq<char>) -> bool {
    &&& text == seq!['g', 's', ':', '/', '/'] + bucket + seq!['/'] + object
    &&& 0 < bucket.len()
    &&& 0 < object.len()
    &&& forall|i: int| 0 <= i < bucket.len() ==> #[trigger] bucket[i] != '/'
}

/// Two texts that name the same object are the same, and a text names one object.
pub proof fn a_text_names_one_object(
    text: Seq<char>,
    bucket: Seq<char>,
    object: Seq<char>,
    other: Seq<char>,
    other_bucket: Seq<char>,
    other_object: Seq<char>,
)
    requires
        names_object(text, bucket, object),
        names_object(other, other_bucket, other_object),
    ensures
        text == other <==> bucket == other_bucket && object == other_object,
{
    let path = ObjectPathView { bucket, object };
    let other_path = ObjectPathView { bucket: other_bucket, object: other_object };
    an_object_is_named_by_its_uri(path);
    an_object_is_named_by_its_uri(other_path);
    if text == other {
        uris_name_one_object(path, other_path);
    }
}

/// The URI of an object names it, and nothing but the URI does.
pub proof fn an_object_is_named_by_its_uri(path: ObjectPathView)
    ensures
        forall|text: Seq<char>| #[trigger]
            names_object(text, path.bucket, path.object) <==> path.nameable() && text == path.uri(),
{
    reveal_strlit("gs://");
    reveal_strlit("/");
    assert("gs://"@ =~= seq!['g', 's', ':', '/', '/']);
    assert("/"@ =~= seq!['/']);
    assert forall|text: Seq<char>| #[trigger]
        names_object(text, path.bucket, path.object) implies path.nameable() && text
        == path.uri() by {
        assert(!path.bucket.contains('/'));
    }
    assert forall|text: Seq<char>|
        path.nameable() && text == path.uri() implies #[trigger] names_object(
        text,
        path.bucket,
        path.object,
    ) by {
        assert forall|i: int| 0 <= i < path.bucket.len() implies #[trigger] path.bucket[i]
            != '/' by {
            if path.bucket[i] == '/' {
                assert(path.bucket.contains('/'));
            }
        }
    }
}

proof fn no_object_is_named(text: Seq<char>)
    requires
        forall|path: ObjectPathView| path.nameable() ==> #[trigger] path.uri() != text,
    ensures
        forall|bucket: Seq<char>, object: Seq<char>| !#[trigger] names_object(text, bucket, object),
{
    assert forall|bucket: Seq<char>, object: Seq<char>| !#[trigger] names_object(
        text,
        bucket,
        object,
    ) by {
        let path = ObjectPathView { bucket, object };
        an_object_is_named_by_its_uri(path);
        assert(path.nameable() ==> path.uri() != text);
    }
}

impl ObjectPath {
    /// Parses a Cloud Storage URI.
    pub fn parse(value: &str) -> (parsed: Result<Self, AppError>)
        ensures
            match parsed {
                Ok(path) => path@.nameable() && path@.uri() == value@,
                Err(error) => {
                    &&& error matches AppError::InvalidStorageUri(uri) && uri@ == value@
                    &&& forall|path: ObjectPathView| path.nameable() ==> #[trigger] path.uri() != value@
                },
            },
            parsed is Ok <==> exists|bucket: Seq<char>, object: Seq<char>|
                #[trigger] names_object(value@, bucket, object),
            parsed matches Ok(path) ==> names_object(value@, path.bucket@, path.object@),
    {
        let chars = text::chars_of(value);
        let scheme = text::chars_of("gs://");
        let start: usize = scheme.len();
        proof {
            reveal_strlit("gs://");
            reveal_strlit("/");
            assert forall|path: ObjectPathView| path.nameable() && #[trigger] path.uri() == value@ implies ({
                &&& scheme@.is_prefix_of(value@)
                &&& value@.len() > 5 + path.bucket.len() + 1
                &&& value@[5 + path.bucket.len() as int] == '/'
                &&& forall|k: int| 0 <= k < path.bucket.len() ==> value@[5 + k] == path.bucket[k]
            }) by {
                assert(value@.take(5) == scheme@);
            }
        }
        if !text::has_prefix(&chars, &scheme) {
            proof {
                no_object_is_named(value@);
            }
            return Err(AppError::InvalidStorageUri(value.to_string()));
        }
        let mut slash: usize = start;
        while slash < chars.len() && chars[slash] != '/'
            invariant
                start <= slash <= chars@.len(),
                forall|k: int| start <= k < slash ==> chars@[k] != '/',
            decreases chars@.len() - slash,
        {
            slash += 1;
        }
        if slash == chars.len() || slash == start || slash + 1 == chars.len() {
            proof {
                assert forall|path: ObjectPathView| path.nameable() implies #[trigger] path.uri() != value@ by {
                    if path.uri() == value@ {
                        let end = 5 + path.bucket.len() as int;
                        assert(value@[end] == '/');
                        if slash > start && slash < chars@.len() {
                            assert(end == slash) by {
                                if slash < end {
                                    assert(path.bucket[slash - 5] == value@[5 + (slash - 5)]);
                                    assert(path.bucket.contains('/'));
                                }
                            }
                        } else if slash == start && slash < chars@.len() {
                            assert(path.bucket[0] == value@[5int + 0]);
                            assert(path.bucket.contains('/'));
                        }
                    }
                }
                no_object_is_named(value@);
            }
            return Err(AppError::InvalidStorageUri(value.to_string()));
        }
        let bucket = text::text_between(&chars, start, slash);
        let object = text::text_from(&chars, slash + 1);
        proof {
            assert(value@ == "gs://"@ + bucket@ + "/"@ + object@);
            let path = ObjectPathView { bucket: bucket@, object: object@ };
            assert(path.nameable() && path.uri() == value@);
            an_object_is_named_by_its_uri(path);
            assert(names_object(value@, bucket@, object@));
        }
        Ok(ObjectPath { bucket, object })
    }

    pub fn from_parts(bucket: &str, object: &str) -> (path: Self)
        ensures
            path@ == (ObjectPathView { bucket: bucket@, object: object@ }),
    {
        ObjectPath { bucket: bucket.to_string(), object: object.to_string() }
    }

    /// Accepts names that Cloud Storage accepts; the error says what the name
    /// was meant for.
    pub fn validate_name_length(&self, purpose: &str) -> (valid: Result<(), AppError>)
        ensures
            match valid {
                Ok(()) => self@.name_bytes() <= MAX_OBJECT_NAME_BYTES,
                Err(error) => {
                    &&& self@.name_bytes() > MAX_OBJECT_NAME_BYTES
                    &&& too_long(error, self@, purpose@)
                },
            },
            valid is Ok <==> vstd::utf8::encode_utf8(self.object@).len() <= 1024,
    {
        if self.object.as_str().as_bytes().len() > MAX_OBJECT_NAME_BYTES {
            return Err(
                AppError::Message(
                    "Object name is too long for ".to_string().concat(purpose).concat(": ").concat(
                        self.uri().as_str(),
                    ),
                ),
            );
        }
        Ok(())
    }

    /// The URI that names the object.
    pub fn uri(&self) -> (uri: String)
        ensures
            uri@ == self@.uri(),
            uri@ == "gs://"@ + self.bucket@ + "/"@ + self.object@,
    {
        "gs://".to_string().concat(self.bucket.as_str()).concat("/").concat(self.object.as_str())
    }
}

/// The error for a name that is too long for its purpose.
pub open spec fn too_long(error: AppError, path: ObjectPathView, purpose: Seq<char>) -> bool {
    &&& error matches AppError::Message(message)
    &&& message@ == "Object name is too long for "@ + purpose + ": "@ + path.uri()
}

/// Two paths that can be named by a URI have the same URI only if they are the
/// same: parsing a path's own URI gives the path back.
pub proof fn uris_name_one_object(left: ObjectPathView, right: ObjectPathView)
    requires
        left.nameable(),
        right.nameable(),
        left.uri() == right.uri(),
    ensures
        left == right,
{
    reveal_strlit("gs://");
    reveal_strlit("/");
    let uri = left.uri();
    let left_end = 5 + left.bucket.len() as int;
    let right_end = 5 + right.bucket.len() as int;
    assert(uri[left_end] == '/');
    assert(right.uri()[right_end] == '/');
    assert(left_end == right_end) by {
        if left_end < right_end {
            assert(right.bucket[left_end - 5] == right.uri()[left_end]);
            assert(right.bucket.contains('/'));
        } else if right_end < left_end {
            assert(left.bucket[right_end - 5] == uri[right_end]);
            assert(left.bucket.contains('/'));
        }
    }
    assert(left.bucket == uri.subrange(5, left_end));
    assert(right.bucket == right.uri().subrange(5, right_end));
    assert(left.object == uri.skip(left_end + 1));
    assert(right.object == right.uri().skip(right_end + 1));
}

} // verus!
