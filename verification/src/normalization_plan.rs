//! The plan that gives every name its NFC form.
use unicode_normalization::UnicodeNormalization;
use vstd::prelude::*;

use crate::error::AppError;
use crate::text;

verus! {

/// Maps one discovered name to the NFC name that the workflow will use.
#[derive(Debug, PartialEq, Eq)]
pub struct Entry {
    pub source: String,
    pub target: String,
}

impl Clone for Entry {
    fn clone(&self) -> (copy: Self)
        ensures
            copy == *self,
    {
        Entry { source: self.source.clone(), target: self.target.clone() }
    }
}

/// The text in Unicode Normalization Form C.
pub uninterp spec fn nfc(text: Seq<char>) -> Seq<char>;

/// Collects `unicode_normalization::UnicodeNormalization::nfc`, the characters
/// of the text in Normalization Form C, into a string; the result is named by
/// [`nfc`].
#[verifier::external_body]
fn compose(value: &str) -> (composed: String)
    ensures
        composed@ == nfc(value@),
{
    value.nfc().collect()
}

/// Returns the NFC representation used for Cloud Storage object names.
pub fn normalized(value: &str) -> (composed: String)
    ensures
        composed@ == nfc(value@),
{
    compose(value)
}

/// The targets of the names.
pub open spec fn targets_of(names: Seq<Seq<char>>) -> Seq<Seq<char>> {
    names.map_values(|name: Seq<char>| nfc(name))
}

/// The entry of every name and its target, in order.
pub open spec fn pairs_up(
    names: Seq<Seq<char>>,
    targets: Seq<Seq<char>>,
    entries: Seq<Entry>,
) -> bool {
    &&& entries.len() == names.len()
    &&& forall|i: int|
        0 <= i < names.len() ==> (#[trigger] entries[i]).source@ == names[i] && entries[i].target@
            == targets[i]
}

/// Whether the text occurs twice among the targets.
pub open spec fn repeats(targets: Seq<Seq<char>>, text: Seq<char>) -> bool {
    exists|i: int, j: int|
        0 <= i < j < targets.len() && #[trigger] targets[i] == text && #[trigger] targets[j] == text
}

/// The targets that occur twice, each once, in order.
pub open spec fn repetitions(targets: Seq<Seq<char>>, texts: Seq<Seq<char>>) -> bool {
    &&& text::ordered(texts)
    &&& forall|text: Seq<char>| #[trigger] texts.contains(text) <==> repeats(targets, text)
}

/// The error that lists the targets that occur twice, of which there are some.
pub open spec fn names_repetitions(targets: Seq<Seq<char>>, error: AppError) -> bool {
    &&& error matches AppError::Collision(list)
    &&& exists|texts: Seq<Seq<char>>|
        {
            &&& #[trigger] repetitions(targets, texts)
            &&& texts.len() > 0
            &&& list@ == text::joined(texts, ", "@)
        }
}

/// The entry of every name.
pub open spec fn entries_of(names: Seq<Seq<char>>, entries: Seq<Entry>) -> bool {
    pairs_up(names, targets_of(names), entries)
}

/// Whether two of the names normalize to the text.
pub open spec fn collides(names: Seq<Seq<char>>, text: Seq<char>) -> bool {
    repeats(targets_of(names), text)
}

/// The error that lists the colliding targets, of which there are some.
pub open spec fn names_collisions(names: Seq<Seq<char>>, error: AppError) -> bool {
    names_repetitions(targets_of(names), error)
}

/// Builds a complete no-side-effect plan and rejects normalized-name collisions
/// before any local rename or remote request can begin.
pub fn build(names: &[String]) -> (plan: Result<Vec<Entry>, AppError>)
    ensures
        match plan {
            Ok(entries) => {
                &&& entries_of(text::views(names@), entries@)
                &&& forall|text: Seq<char>| !collides(text::views(names@), text)
            },
            Err(error) => names_collisions(text::views(names@), error),
        },
        plan is Ok <==> forall|i: int, j: int|
            0 <= i < j < names@.len() ==> nfc((#[trigger] names@[i])@) != nfc(
                (#[trigger] names@[j])@,
            ),
        plan matches Ok(entries) ==> entries@.len() == names@.len() && forall|i: int|
            0 <= i < names@.len() ==> (#[trigger] entries@[i]).source@ == names@[i]@
                && entries@[i].target@ == nfc(names@[i]@),
        plan matches Err(error) ==> error is Collision,
{
    let ghost wanted = targets_of(text::views(names@));
    let mut targets: Vec<String> = Vec::new();
    let mut i: usize = 0;
    while i < names.len()
        invariant
            i <= names@.len(),
            wanted == targets_of(text::views(names@)),
            text::views(targets@) == wanted.take(i as int),
        decreases names@.len() - i,
    {
        let ghost so_far = text::views(targets@);
        targets.push(normalized(names[i].as_str()));
        assert(text::views(targets@) =~= so_far.push(wanted[i as int]));
        assert(wanted.take(i + 1) =~= so_far.push(wanted[i as int]));
        i += 1;
    }
    assert(wanted.take(names@.len() as int) =~= wanted);
    assert(targets@.len() == text::views(targets@).len());
    let plan = build_from_targets(names, targets.as_slice());
    proof {
        let listed = text::views(names@);
        if plan is Err {
            let texts = choose|texts: Seq<Seq<char>>| #[trigger]
                repetitions(wanted, texts) && texts.len() > 0;
            assert(texts.contains(texts[0]));
            let (i, j) = choose|i: int, j: int|
                0 <= i < j < wanted.len() && #[trigger] wanted[i] == texts[0]
                    && #[trigger] wanted[j] == texts[0];
            assert(wanted[i] == nfc(names@[i]@) && wanted[j] == nfc(names@[j]@));
        } else {
            assert forall|i: int, j: int| 0 <= i < j < names@.len() implies nfc(
                (#[trigger] names@[i])@,
            ) != nfc((#[trigger] names@[j])@) by {
                assert(!repeats(wanted, wanted[i]));
                assert(wanted[i] == nfc(names@[i]@) && wanted[j] == nfc(names@[j]@));
            }
            let entries = plan->Ok_0;
            assert forall|i: int| 0 <= i < names@.len() implies (
            #[trigger] entries@[i]).source@ == names@[i]@ && entries@[i].target@ == nfc(
                names@[i]@,
            ) by {
                assert(listed[i] == names@[i]@);
                assert(wanted[i] == nfc(listed[i]));
            }
        }
    }
    plan
}

/// Plans to give each name its target, and rejects targets that occur twice.
pub fn build_from_targets(names: &[String], targets: &[String]) -> (plan: Result<
    Vec<Entry>,
    AppError,
>)
    requires
        names@.len() == targets@.len(),
    ensures
        match plan {
            Ok(entries) => {
                &&& pairs_up(text::views(names@), text::views(targets@), entries@)
                &&& forall|text: Seq<char>| !repeats(text::views(targets@), text)
            },
            Err(error) => names_repetitions(text::views(targets@), error),
        },
{
    let ghost sources = text::views(names@);
    let ghost all = text::views(targets@);
    let mut entries: Vec<Entry> = Vec::new();
    // Grouping before execution prevents two distinct source objects from
    // claiming the same normalized destination.
    let mut known: Vec<String> = Vec::new();
    let mut repeated: Vec<String> = Vec::new();
    let mut i: usize = 0;
    while i < names.len()
        invariant
            i <= names@.len(),
            names@.len() == targets@.len(),
            sources == text::views(names@),
            all == text::views(targets@),
            pairs_up(sources.take(i as int), all.take(i as int), entries@),
            text::ordered(text::views(known@)),
            forall|text: Seq<char>| #[trigger]
                text::views(known@).contains(text) <==> all.take(i as int).contains(text),
            repetitions(all.take(i as int), text::views(repeated@)),
        decreases names@.len() - i,
    {
        let target = targets[i].as_str();
        let ghost seen = text::views(known@);
        let ghost colliding = text::views(repeated@);
        let is_known = text::insert_ordered(&mut known, target);
        if is_known {
            text::insert_ordered(&mut repeated, target);
        }
        proof {
            assert(seen.contains(target@) <==> all.take(i as int).contains(target@));
            targets_grow(all, i as int);
            assert forall|text: Seq<char>| #[trigger]
                text::views(known@).contains(text) <==> all.take(i + 1).contains(text) by {
                assert(seen.contains(text) <==> all.take(i as int).contains(text));
            }
            assert forall|text: Seq<char>| #[trigger]
                text::views(repeated@).contains(text) <==> repeats(all.take(i + 1), text) by {
                assert(colliding.contains(text) <==> repeats(all.take(i as int), text));
            }
        }
        entries.push(Entry { source: names[i].clone(), target: targets[i].clone() });
        i += 1;
    }
    assert(all.take(names@.len() as int) =~= all);
    assert(sources.take(names@.len() as int) =~= sources);
    if repeated.len() > 0 {
        return Err(AppError::Collision(text::join(&repeated, ", ")));
    }
    proof {
        assert forall|text: Seq<char>| !repeats(all, text) by {
            assert(!text::views(repeated@).contains(text));
        }
    }
    Ok(entries)
}

/// What one more target adds to the targets and the repetitions.
proof fn targets_grow(targets: Seq<Seq<char>>, i: int)
    requires
        0 <= i < targets.len(),
    ensures
        forall|text: Seq<char>| #[trigger]
            targets.take(i + 1).contains(text) <==> targets.take(i).contains(text) || text
                == targets[i],
        forall|text: Seq<char>| #[trigger]
            repeats(targets.take(i + 1), text) <==> repeats(targets.take(i), text) || (text
                == targets[i] && targets.take(i).contains(text)),
{
    let earlier = targets.take(i);
    let later = targets.take(i + 1);
    assert(later[i] == targets[i]);
    assert forall|text: Seq<char>| #[trigger]
        later.contains(text) <==> earlier.contains(text) || text == targets[i] by {
        if earlier.contains(text) {
            let k = choose|k: int| 0 <= k < earlier.len() && earlier[k] == text;
            assert(later[k] == earlier[k]);
        }
        if later.contains(text) {
            let k = choose|k: int| 0 <= k < later.len() && later[k] == text;
            if k < i {
                assert(earlier[k] == later[k]);
            }
        }
    }
    assert forall|text: Seq<char>| #[trigger]
        repeats(later, text) <==> repeats(earlier, text) || (text == targets[i]
            && earlier.contains(text)) by {
        if repeats(earlier, text) {
            let (k, l) = choose|k: int, l: int|
                0 <= k < l < earlier.len() && #[trigger] earlier[k] == text
                    && #[trigger] earlier[l] == text;
            assert(later[k] == earlier[k]);
            assert(later[l] == earlier[l]);
        }
        if text == targets[i] && earlier.contains(text) {
            let k = choose|k: int| 0 <= k < earlier.len() && earlier[k] == text;
            assert(later[k] == earlier[k]);
        }
        if repeats(later, text) {
            let (k, l) = choose|k: int, l: int|
                0 <= k < l < later.len() && #[trigger] later[k] == text && #[trigger] later[l]
                    == text;
            assert(earlier[k] == later[k]);
            if l < i {
                assert(earlier[l] == later[l]);
            }
        }
    }
}

/// An accepted plan sends no two names to the same target.
pub proof fn accepted_targets_differ(names: Seq<Seq<char>>, entries: Seq<Entry>, i: int, j: int)
    requires
        entries_of(names, entries),
        forall|text: Seq<char>| !#[trigger] collides(names, text),
        0 <= i < j < entries.len(),
    ensures
        entries[i].target@ != entries[j].target@,
{
    let text = entries[i].target@;
    assert(!collides(names, text));
    assert(targets_of(names)[i] == text);
    assert(targets_of(names)[j] == entries[j].target@);
}

} // verus!
