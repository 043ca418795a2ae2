//! The buckets whose locks one thread holds, so that operations inside a
//! transaction do not lock them again.
use vstd::prelude::*;

use crate::error::AppError;
use crate::text;

verus! {

#[derive(Debug)]
pub struct HeldBuckets {
    pub names: Vec<String>,
}

/// The names without the first occurrence of one of them.
pub open spec fn without_first(names: Seq<Seq<char>>, name: Seq<char>) -> Seq<Seq<char>>
    decreases names.len(),
{
    if names.len() == 0 {
        names
    } else if names[0] == name {
        names.skip(1)
    } else {
        seq![names[0]] + without_first(names.skip(1), name)
    }
}

/// The held names once each of the buckets was taken out once.
pub open spec fn without_buckets(names: Seq<Seq<char>>, buckets: Seq<Seq<char>>) -> Seq<Seq<char>>
    decreases buckets.len(),
{
    if buckets.len() == 0 {
        names
    } else {
        without_first(without_buckets(names, buckets.drop_last()), buckets.last())
    }
}

/// The error for lock bookkeeping that another thread left unusable.
pub fn poisoned() -> (error: AppError)
    ensures
        error matches AppError::Message(message) && message@
            == "Active bucket lock state is poisoned"@,
{
    AppError::Message("Active bucket lock state is poisoned".to_string())
}

/// Taking out the first occurrence at a known place.
proof fn without_first_at(names: Seq<Seq<char>>, name: Seq<char>, at: int)
    requires
        0 <= at < names.len(),
        names[at] == name,
        forall|k: int| 0 <= k < at ==> names[k] != name,
    ensures
        without_first(names, name) == names.remove(at),
    decreases names.len(),
{
    if at == 0 {
        assert(names.skip(1) =~= names.remove(0));
    } else {
        without_first_at(names.skip(1), name, at - 1);
        assert(seq![names[0]] + names.skip(1).remove(at - 1) =~= names.remove(at));
    }
}

proof fn without_first_absent(names: Seq<Seq<char>>, name: Seq<char>)
    requires
        forall|k: int| 0 <= k < names.len() ==> names[k] != name,
    ensures
        without_first(names, name) == names,
    decreases names.len(),
{
    if names.len() > 0 {
        without_first_absent(names.skip(1), name);
        assert(seq![names[0]] + names.skip(1) =~= names);
    }
}

impl HeldBuckets {
    pub fn new() -> (held: Self)
        ensures
            held.names@.len() == 0,
    {
        HeldBuckets { names: Vec::new() }
    }

    /// Records buckets as held.
    pub fn register(&mut self, buckets: &Vec<String>)
        ensures
            text::views(final(self).names@) == text::views(old(self).names@) + text::views(
                buckets@,
            ),
    {
        let ghost names = text::views(self.names@);
        let mut i: usize = 0;
        while i < buckets.len()
            invariant
                i <= buckets@.len(),
                text::views(self.names@) == names + text::views(buckets@).take(i as int),
            decreases buckets@.len() - i,
        {
            let ghost grown = text::views(self.names@);
            self.names.push(buckets[i].clone());
            assert(text::views(self.names@) =~= grown.push(buckets@[i as int]@));
            assert(text::views(buckets@).take(i + 1) =~= text::views(buckets@).take(i as int).push(
                buckets@[i as int]@,
            ));
            i += 1;
        }
        assert(text::views(buckets@).take(buckets@.len() as int) =~= text::views(buckets@));
    }

    /// Takes buckets out of the record, each of them once.
    pub fn unregister(&mut self, buckets: &Vec<String>)
        ensures
            text::views(final(self).names@) == without_buckets(
                text::views(old(self).names@),
                text::views(buckets@),
            ),
    {
        let ghost names = text::views(self.names@);
        let mut i: usize = 0;
        while i < buckets.len()
            invariant
                i <= buckets@.len(),
                text::views(self.names@) == without_buckets(
                    names,
                    text::views(buckets@).take(i as int),
                ),
            decreases buckets@.len() - i,
        {
            self.take_out(buckets[i].as_str());
            assert(text::views(buckets@).take(i + 1).drop_last() =~= text::views(buckets@).take(
                i as int,
            ));
            i += 1;
        }
        assert(text::views(buckets@).take(buckets@.len() as int) =~= text::views(buckets@));
    }

    fn take_out(&mut self, bucket: &str)
        ensures
            text::views(final(self).names@) == without_first(
                text::views(old(self).names@),
                bucket@,
            ),
    {
        let ghost names = text::views(self.names@);
        let mut at: usize = 0;
        while at < self.names.len() && !text::same_text(self.names[at].as_str(), bucket)
            invariant
                at <= self.names@.len(),
                names == text::views(self.names@),
                forall|k: int| 0 <= k < at ==> names[k] != bucket@,
            decreases self.names@.len() - at,
        {
            assert(names[at as int] == self.names@[at as int]@);
            at += 1;
        }
        if at < self.names.len() {
            proof {
                without_first_at(names, bucket@, at as int);
            }
            self.names.remove(at);
            assert(text::views(self.names@) =~= names.remove(at as int));
        } else {
            proof {
                without_first_absent(names, bucket@);
            }
        }
    }
}

/// Deregistering the buckets that a session registered leaves exactly what was
/// held before: a session only ever registers buckets that were not held, each
/// of them once.
pub proof fn deregistering_undoes_registering(held: Seq<Seq<char>>, buckets: Seq<Seq<char>>)
    requires
        text::ordered(buckets),
        forall|i: int| 0 <= i < buckets.len() ==> !held.contains(#[trigger] buckets[i]),
    ensures
        without_buckets(held + buckets, buckets) == held,
{
    registered_prefix_goes(held, buckets, buckets.len() as int);
    assert(buckets.take(buckets.len() as int) =~= buckets);
    assert(held + buckets.skip(buckets.len() as int) =~= held);
}

proof fn registered_prefix_goes(held: Seq<Seq<char>>, buckets: Seq<Seq<char>>, count: int)
    requires
        0 <= count <= buckets.len(),
        text::ordered(buckets),
        forall|i: int| 0 <= i < buckets.len() ==> !held.contains(#[trigger] buckets[i]),
    ensures
        without_buckets(held + buckets, buckets.take(count)) == held + buckets.skip(count),
    decreases count,
{
    if count == 0 {
        assert(buckets.take(0) =~= Seq::empty());
        assert(buckets.skip(0) =~= buckets);
    } else {
        registered_prefix_goes(held, buckets, count - 1);
        assert(buckets.take(count).drop_last() =~= buckets.take(count - 1));
        let left = held + buckets.skip(count - 1);
        let bucket = buckets[count - 1];
        assert forall|k: int| 0 <= k < held.len() implies left[k] != bucket by {
            assert(held.contains(held[k]));
        }
        assert(left[held.len() as int] == bucket);
        without_first_at(left, bucket, held.len() as int);
        assert(left.remove(held.len() as int) =~= held + buckets.skip(count));
    }
}

} // verus!
