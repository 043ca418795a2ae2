//! The structure of local paths.
//!
//! Paths are compared and taken apart by their components, as the standard
//! library does on Unix: repeated slashes and inner or trailing dots do not
//! count, a leading dot and every double dot do.
use vstd::prelude::*;

use crate::text;

verus! {

/// One component of a path.
#[derive(Debug)]
pub enum Component {
    Root,
    Current,
    Parent,
    Name(String),
}

/// What a [`Component`] stands for.
#[verifier::ext_equal]
pub enum ComponentView {
    Root,
    Current,
    Parent,
    Name(Seq<char>),
}

impl View for Component {
    type V = ComponentView;

    open spec fn view(&self) -> ComponentView {
        match self {
            Component::Root => ComponentView::Root,
            Component::Current => ComponentView::Current,
            Component::Parent => ComponentView::Parent,
            Component::Name(name) => ComponentView::Name(name@),
        }
    }
}

impl Clone for Component {
    fn clone(&self) -> (copy: Self)
        ensures
            copy == *self,
    {
        match self {
            Component::Root => Component::Root,
            Component::Current => Component::Current,
            Component::Parent => Component::Parent,
            Component::Name(name) => Component::Name(name.clone()),
        }
    }
}

/// The pieces of a path between its slashes.
pub open spec fn pieces(path: Seq<char>) -> Seq<Seq<char>>
    decreases path.len(),
{
    if path.len() == 0 {
        seq![Seq::empty()]
    } else {
        let front = pieces(path.drop_last());
        if path.last() == '/' {
            front.push(Seq::empty())
        } else {
            front.drop_last().push(front.last().push(path.last()))
        }
    }
}

/// The component that a piece stands for, if any. A dot counts only at the very
/// start of a path.
pub open spec fn component_of(piece: Seq<char>, is_first: bool) -> Option<ComponentView> {
    if piece.len() == 0 {
        None
    } else if piece == seq!['.'] {
        if is_first {
            Some(ComponentView::Current)
        } else {
            None
        }
    } else if piece == seq!['.', '.'] {
        Some(ComponentView::Parent)
    } else {
        Some(ComponentView::Name(piece))
    }
}

/// The components of pieces.
pub open spec fn components_of(pieces: Seq<Seq<char>>) -> Seq<ComponentView>
    decreases pieces.len(),
{
    if pieces.len() == 0 {
        Seq::empty()
    } else {
        let front = components_of(pieces.drop_last());
        match component_of(pieces.last(), pieces.len() == 1) {
            Some(component) => front.push(component),
            None => front,
        }
    }
}

/// The components of a path.
pub open spec fn components(path: Seq<char>) -> Seq<ComponentView> {
    (if path.len() > 0 && path[0] == '/' {
        seq![ComponentView::Root]
    } else {
        Seq::empty()
    }) + components_of(pieces(path))
}

/// The views of components.
pub open spec fn component_views(components: Seq<Component>) -> Seq<ComponentView> {
    components.map_values(|component: Component| component@)
}

fn split(path: &str) -> (split: Vec<String>)
    ensures
        text::views(split@) == pieces(path@),
{
    let chars = text::chars_of(path);
    let mut finished: Vec<String> = Vec::new();
    let mut current = String::new();
    let mut i: usize = 0;
    assert(chars@.take(0) =~= Seq::empty());
    assert(text::views(finished@).push(current@) =~= pieces(chars@.take(0)));
    while i < chars.len()
        invariant
            i <= chars@.len(),
            text::views(finished@).push(current@) == pieces(chars@.take(i as int)),
        decreases chars@.len() - i,
    {
        let ghost before = text::views(finished@);
        let ghost piece = current@;
        assert(chars@.take(i + 1).drop_last() =~= chars@.take(i as int));
        assert(before.push(piece).drop_last() =~= before);
        if chars[i] == '/' {
            finished.push(current);
            current = String::new();
            assert(text::views(finished@) =~= before.push(piece));
            assert(text::views(finished@).push(current@) =~= pieces(chars@.take(i + 1)));
        } else {
            current.push(chars[i]);
            assert(text::views(finished@).push(current@) =~= pieces(chars@.take(i + 1)));
        }
        i += 1;
    }
    assert(chars@.take(chars@.len() as int) =~= path@);
    let ghost before = text::views(finished@);
    finished.push(current);
    assert(text::views(finished@) =~= before.push(current@));
    finished
}

/// Takes a path apart into its components.
pub fn path_components(path: &str) -> (parts: Vec<Component>)
    ensures
        component_views(parts@) == components(path@),
{
    let split_path = split(path);
    let mut parts: Vec<Component> = Vec::new();
    let chars = text::chars_of(path);
    if chars.len() > 0 && chars[0] == '/' {
        parts.push(Component::Root);
    }
    let ghost start = component_views(parts@);
    let ghost all = pieces(path@);
    assert(start =~= if path@.len() > 0 && path@[0] == '/' {
        seq![ComponentView::Root]
    } else {
        Seq::empty()
    });
    let mut i: usize = 0;
    assert(start + components_of(all.take(0)) =~= start);
    while i < split_path.len()
        invariant
            i <= split_path@.len(),
            text::views(split_path@) == all,
            component_views(parts@) == start + components_of(all.take(i as int)),
        decreases split_path@.len() - i,
    {
        let ghost so_far = component_views(parts@);
        let piece = &split_path[i];
        assert(piece@ == all[i as int]);
        assert(all.take(i + 1).drop_last() =~= all.take(i as int));
        proof {
            reveal_strlit(".");
            reveal_strlit("..");
            assert("."@ =~= seq!['.']);
            assert(".."@ =~= seq!['.', '.']);
        }
        if piece.as_str().is_empty() {
        } else if text::same_text(piece.as_str(), ".") {
            if i == 0 {
                parts.push(Component::Current);
                assert(component_views(parts@) =~= so_far.push(ComponentView::Current));
            }
        } else if text::same_text(piece.as_str(), "..") {
            parts.push(Component::Parent);
            assert(component_views(parts@) =~= so_far.push(ComponentView::Parent));
        } else {
            parts.push(Component::Name(piece.clone()));
            assert(component_views(parts@) =~= so_far.push(ComponentView::Name(piece@)));
        }
        assert(component_views(parts@) =~= start + components_of(all.take(i + 1)));
        i += 1;
    }
    assert(all.take(all.len() as int) =~= all);
    parts
}

/// Whether two components are the same.
fn same_component(left: &Component, right: &Component) -> (same: bool)
    ensures
        same == (left@ == right@),
{
    match (left, right) {
        (Component::Root, Component::Root) => true,
        (Component::Current, Component::Current) => true,
        (Component::Parent, Component::Parent) => true,
        (Component::Name(left_name), Component::Name(right_name)) => text::same_text(
            left_name.as_str(),
            right_name.as_str(),
        ),
        _ => false,
    }
}

/// Whether two paths are the same: they have the same components.
pub open spec fn same(left: Seq<char>, right: Seq<char>) -> bool {
    components(left) == components(right)
}

/// Whether two paths are the same.
pub fn same_path(left: &str, right: &str) -> (is_same: bool)
    ensures
        is_same == same(left@, right@),
{
    let left_parts = path_components(left);
    let right_parts = path_components(right);
    if left_parts.len() != right_parts.len() {
        assert(component_views(left_parts@).len() != component_views(right_parts@).len());
        return false;
    }
    starts_with(&left_parts, &right_parts)
}

/// Whether the components begin with the given ones.
pub(crate) fn starts_with(parts: &Vec<Component>, prefix: &Vec<Component>) -> (starts: bool)
    ensures
        starts == component_views(prefix@).is_prefix_of(component_views(parts@)),
        starts && parts@.len() == prefix@.len() ==> component_views(parts@) == component_views(
            prefix@,
        ),
        !starts && parts@.len() == prefix@.len() ==> component_views(parts@) != component_views(
            prefix@,
        ),
{
    if prefix.len() > parts.len() {
        return false;
    }
    let ghost all = component_views(parts@);
    let ghost first = component_views(prefix@);
    let mut i: usize = 0;
    while i < prefix.len()
        invariant
            i <= prefix@.len() <= parts@.len(),
            all == component_views(parts@),
            first == component_views(prefix@),
            forall|k: int| 0 <= k < i ==> all[k] == first[k],
        decreases prefix@.len() - i,
    {
        if !same_component(&parts[i], &prefix[i]) {
            assert(all[i as int] != first[i as int]);
            assert(all.take(first.len() as int)[i as int] != first[i as int]);
            return false;
        }
        assert(all[i as int] == first[i as int]);
        i += 1;
    }
    assert(all.take(first.len() as int) =~= first);
    if parts.len() == prefix.len() {
        assert(all =~= first);
    }
    true
}

/// Where the pieces of a path begin and end.
pub open spec fn piece_spans(path: Seq<char>) -> Seq<(int, int)>
    decreases path.len(),
{
    if path.len() == 0 {
        seq![(0, 0)]
    } else {
        let front = piece_spans(path.drop_last());
        if path.last() == '/' {
            front.push((path.len() as int, path.len() as int))
        } else {
            front.drop_last().push((front.last().0, path.len() as int))
        }
    }
}

/// The spans of the pieces that are components.
pub open spec fn spans_of(pieces: Seq<Seq<char>>, spans: Seq<(int, int)>) -> Seq<(int, int)>
    decreases pieces.len(),
{
    if pieces.len() == 0 {
        Seq::empty()
    } else {
        let front = spans_of(pieces.drop_last(), spans.drop_last());
        match component_of(pieces.last(), pieces.len() == 1) {
            Some(_) => front.push(spans.last()),
            None => front,
        }
    }
}

/// Where the components of a path begin and end.
pub open spec fn component_spans(path: Seq<char>) -> Seq<(int, int)> {
    (if path.len() > 0 && path[0] == '/' {
        seq![(0int, 1int)]
    } else {
        Seq::empty()
    }) + spans_of(pieces(path), piece_spans(path))
}

/// There is one span for each component, and it lies inside the path.
pub proof fn spans_fit(path: Seq<char>)
    ensures
        component_spans(path).len() == components(path).len(),
        forall|i: int|
            0 <= i < component_spans(path).len() ==> 0 <= (#[trigger] component_spans(path)[i]).0
                <= component_spans(path)[i].1 <= path.len(),
        forall|i: int, j: int|
            0 <= i <= j < component_spans(path).len() ==> (#[trigger] component_spans(path)[i]).0 <= (
            #[trigger] component_spans(path)[j]).1,
{
    piece_spans_fit(path);
    spans_of_fit(pieces(path), piece_spans(path), path.len() as int);
}

proof fn piece_spans_fit(path: Seq<char>)
    ensures
        pieces(path).len() > 0,
        piece_spans(path).len() == pieces(path).len(),
        spans_lie(piece_spans(path), path.len() as int),
    decreases path.len(),
{
    if path.len() > 0 {
        piece_spans_fit(path.drop_last());
        let front = piece_spans(path.drop_last());
        let all = piece_spans(path);
        assert forall|i: int| 0 <= i < all.len() implies 0 <= (#[trigger] all[i]).0 <= all[i].1
            <= path.len() by {
            if i < front.len() - 1 {
                assert(all[i] == front[i]);
            } else if i == front.len() - 1 {
                assert(front[i].0 <= front[i].1);
            }
        }
        assert forall|i: int, j: int| 0 <= i <= j < all.len() implies (#[trigger] all[i]).0 <= (
        #[trigger] all[j]).1 by {
            if j < front.len() - 1 {
                assert(all[i] == front[i] && all[j] == front[j]);
            } else if i < front.len() {
                assert(front[i].0 <= front[i].1);
                assert(all[i].0 == front[i].0);
            }
        }
    }
}

/// The spans lie inside the length, one after the other.
pub open spec fn spans_lie(spans: Seq<(int, int)>, length: int) -> bool {
    &&& forall|i: int|
        0 <= i < spans.len() ==> 0 <= (#[trigger] spans[i]).0 <= spans[i].1 <= length
    &&& forall|i: int, j: int|
        0 <= i <= j < spans.len() ==> (#[trigger] spans[i]).0 <= (#[trigger] spans[j]).1
}

proof fn spans_of_fit(pieces: Seq<Seq<char>>, spans: Seq<(int, int)>, length: int)
    requires
        spans.len() == pieces.len(),
        spans_lie(spans, length),
    ensures
        spans_of(pieces, spans).len() == components_of(pieces).len(),
        spans_lie(spans_of(pieces, spans), length),
        forall|i: int|
            0 <= i < spans_of(pieces, spans).len() ==> spans.contains(
                #[trigger] spans_of(pieces, spans)[i],
            ),
    decreases pieces.len(),
{
    if pieces.len() > 0 {
        let fewer = spans.drop_last();
        assert forall|i: int| 0 <= i < fewer.len() implies 0 <= (#[trigger] fewer[i]).0
            <= fewer[i].1 <= length by {
            assert(fewer[i] == spans[i]);
        }
        assert forall|i: int, j: int| 0 <= i <= j < fewer.len() implies (#[trigger] fewer[i]).0 <= (
        #[trigger] fewer[j]).1 by {
            assert(fewer[i] == spans[i] && fewer[j] == spans[j]);
        }
        spans_of_fit(pieces.drop_last(), fewer, length);
        let front = spans_of(pieces.drop_last(), fewer);
        let all = spans_of(pieces, spans);
        assert forall|i: int| 0 <= i < all.len() implies spans.contains(#[trigger] all[i]) by {
            if i < front.len() {
                assert(all[i] == front[i]);
                let k = choose|k: int| 0 <= k < fewer.len() && fewer[k] == front[i];
                assert(spans[k] == fewer[k]);
            } else {
                assert(all[i] == spans[spans.len() - 1]);
            }
        }
        assert forall|i: int| 0 <= i < all.len() implies 0 <= (#[trigger] all[i]).0 <= all[i].1
            <= length by {
            if i < front.len() {
                assert(all[i] == front[i]);
            }
        }
        assert forall|i: int, j: int| 0 <= i <= j < all.len() implies (#[trigger] all[i]).0 <= (
        #[trigger] all[j]).1 by {
            if j < front.len() {
                assert(all[i] == front[i] && all[j] == front[j]);
            } else if i < front.len() {
                assert(all[i] == front[i]);
                let k = choose|k: int| 0 <= k < fewer.len() && fewer[k] == front[i];
                assert(spans[k] == fewer[k]);
                assert(spans[k].0 <= spans[spans.len() - 1].1);
            }
        }
    }
}

fn piece_places(path: &str) -> (places: Vec<(usize, usize)>)
    ensures
        places@.len() == piece_spans(path@).len(),
        forall|i: int|
            0 <= i < places@.len() ==> (#[trigger] places@[i]).0 == piece_spans(path@)[i].0
                && places@[i].1 == piece_spans(path@)[i].1,
{
    let chars = text::chars_of(path);
    let mut places: Vec<(usize, usize)> = vec![(0, 0)];
    let mut i: usize = 0;
    assert(chars@.take(0) =~= Seq::empty());
    while i < chars.len()
        invariant
            i <= chars@.len(),
            places@.len() > 0,
            places@.len() == piece_spans(chars@.take(i as int)).len(),
            forall|k: int|
                0 <= k < places@.len() ==> (#[trigger] places@[k]).0 == piece_spans(
                    chars@.take(i as int),
                )[k].0 && places@[k].1 == piece_spans(chars@.take(i as int))[k].1,
        decreases chars@.len() - i,
    {
        assert(chars@.take(i + 1).drop_last() =~= chars@.take(i as int));
        assert(chars@.take(i + 1).len() == i + 1);
        if chars[i] == '/' {
            places.push((i + 1, i + 1));
        } else {
            let last: usize = places.len() - 1;
            let start: usize = places[last].0;
            places.set(last, (start, i + 1));
        }
        i += 1;
    }
    assert(chars@.take(chars@.len() as int) =~= path@);
    places
}

/// Where the components of a path begin and end.
pub(crate) fn component_places(path: &str) -> (places: Vec<(usize, usize)>)
    ensures
        places@.len() == component_spans(path@).len(),
        forall|i: int|
            0 <= i < places@.len() ==> (#[trigger] places@[i]).0 == component_spans(path@)[i].0
                && places@[i].1 == component_spans(path@)[i].1,
{
    let split_path = split(path);
    let all_places = piece_places(path);
    let chars = text::chars_of(path);
    let mut places: Vec<(usize, usize)> = Vec::new();
    if chars.len() > 0 && chars[0] == '/' {
        places.push((0, 1));
    }
    let ghost start: Seq<(int, int)> = if path@.len() > 0 && path@[0] == '/' {
        seq![(0int, 1int)]
    } else {
        Seq::empty()
    };
    let ghost all = pieces(path@);
    let ghost spans = piece_spans(path@);
    proof {
        piece_spans_fit(path@);
        assert(start + spans_of(all.take(0), spans.take(0)) =~= start);
    }
    let mut i: usize = 0;
    while i < split_path.len()
        invariant
            i <= split_path@.len(),
            text::views(split_path@) == all,
            spans.len() == all.len(),
            all_places@.len() == spans.len(),
            forall|k: int|
                0 <= k < all_places@.len() ==> (#[trigger] all_places@[k]).0 == spans[k].0
                    && all_places@[k].1 == spans[k].1,
            places@.len() == (start + spans_of(all.take(i as int), spans.take(i as int))).len(),
            forall|k: int|
                0 <= k < places@.len() ==> (#[trigger] places@[k]).0 == (start + spans_of(
                    all.take(i as int),
                    spans.take(i as int),
                ))[k].0 && places@[k].1 == (start + spans_of(
                    all.take(i as int),
                    spans.take(i as int),
                ))[k].1,
        decreases split_path@.len() - i,
    {
        let piece = &split_path[i];
        assert(piece@ == all[i as int]);
        assert(all.take(i + 1).drop_last() =~= all.take(i as int));
        assert(spans.take(i + 1).drop_last() =~= spans.take(i as int));
        proof {
            reveal_strlit(".");
            assert("."@ =~= seq!['.']);
        }
        let counts = !piece.as_str().is_empty() && (i == 0 || !text::same_text(
            piece.as_str(),
            ".",
        ));
        let ghost so_far = start + spans_of(all.take(i as int), spans.take(i as int));
        if counts {
            places.push(all_places[i]);
            assert(start + spans_of(all.take(i + 1), spans.take(i + 1)) =~= so_far.push(
                spans[i as int],
            ));
        } else {
            assert(start + spans_of(all.take(i + 1), spans.take(i + 1)) =~= so_far);
        }
        i += 1;
    }
    assert(all.take(all.len() as int) =~= all);
    assert(spans.take(spans.len() as int) =~= spans);
    places
}

/// The text of a path below a directory: from its first component there to its
/// last.
pub open spec fn text_below(root: Seq<char>, path: Seq<char>) -> Seq<char> {
    let spans = component_spans(path);
    let first = components(root).len() as int;
    if first < spans.len() {
        path.subrange(spans[first].0, spans.last().1)
    } else {
        Seq::empty()
    }
}

/// The text of a path below a directory.
pub(crate) fn relative_text(root: &str, path: &str) -> (relative: String)
    requires
        below(root@, path@) is Some,
    ensures
        relative@ == text_below(root@, path@),
{
    let first: usize = path_components(root).len();
    let places = component_places(path);
    proof {
        spans_fit(path@);
    }
    if first < places.len() {
        let last: usize = places.len() - 1;
        text::text_between(&text::chars_of(path), places[first].0, places[last].1)
    } else {
        String::new()
    }
}

/// The text of the directory that contains what a path names.
pub open spec fn parent_text_of(path: Seq<char>) -> Option<Seq<char>> {
    let spans = component_spans(path);
    if parent_of(path) is Some {
        Some(
            if spans.len() > 1 {
                path.take(spans[spans.len() - 2].1)
            } else {
                Seq::empty()
            },
        )
    } else {
        None
    }
}

/// The text of the directory that contains what a path names.
pub fn parent_text(path: &str) -> (parent: Option<String>)
    ensures
        match parent {
            Some(text) => parent_text_of(path@) == Some(text@),
            None => parent_text_of(path@) is None,
        },
{
    match parent_components(path) {
        None => None,
        Some(_) => {
            let places = component_places(path);
            proof {
                spans_fit(path@);
            }
            if places.len() > 1 {
                let end: usize = places[places.len() - 2].1;
                let text = text::text_between(&text::chars_of(path), 0, end);
                assert(path@.subrange(0, end as int) =~= path@.take(end as int));
                Some(text)
            } else {
                Some(String::new())
            }
        },
    }
}

/// The name of the file or directory that a path ends in.
pub open spec fn name_of(path: Seq<char>) -> Option<Seq<char>> {
    let parts = components(path);
    if parts.len() > 0 {
        match parts.last() {
            ComponentView::Name(name) => Some(name),
            _ => None,
        }
    } else {
        None
    }
}

/// The name of the file or directory that a path ends in.
pub fn file_name(path: &str) -> (name: Option<String>)
    ensures
        match name {
            Some(name) => name_of(path@) == Some(name@),
            None => name_of(path@) is None,
        },
{
    let parts = path_components(path);
    let ghost all = components(path@);
    if parts.len() == 0 {
        return None;
    }
    let last: usize = parts.len() - 1;
    assert(all.last() == parts@[last as int]@);
    match &parts[last] {
        Component::Name(name) => Some(name.clone()),
        _ => None,
    }
}

/// The name that a path ends in holds no character that the path does not hold.
pub proof fn names_are_made_of_the_path(path: Seq<char>, name: Seq<char>)
    requires
        name_of(path) == Some(name),
    ensures
        forall|i: int| 0 <= i < name.len() ==> path.contains(#[trigger] name[i]),
{
    let parts = components_of(pieces(path));
    assert(components(path).last() == ComponentView::Name(name));
    assert(parts.len() > 0);
    assert(parts.last() == ComponentView::Name(name));
    names_are_pieces(pieces(path));
    let k = choose|k: int| 0 <= k < pieces(path).len() && pieces(path)[k] == name;
    pieces_are_made_of_the_path(path, k);
}

proof fn names_are_pieces(all: Seq<Seq<char>>)
    ensures
        forall|i: int|
            0 <= i < components_of(all).len() ==> (#[trigger] components_of(all)[i] matches
                ComponentView::Name(name) ==> all.contains(name)),
    decreases all.len(),
{
    if all.len() > 0 {
        names_are_pieces(all.drop_last());
        let front = components_of(all.drop_last());
        assert forall|i: int| 0 <= i < components_of(all).len() implies (
        #[trigger] components_of(all)[i] matches ComponentView::Name(name) ==> all.contains(name)) by {
            if i < front.len() {
                assert(components_of(all)[i] == front[i]);
                if let ComponentView::Name(name) = front[i] {
                    let k = choose|k: int|
                        0 <= k < all.drop_last().len() && all.drop_last()[k] == name;
                    assert(all[k] == name);
                }
            } else {
                assert(all[all.len() - 1] == all.last());
            }
        }
    }
}

proof fn pieces_are_made_of_the_path(path: Seq<char>, k: int)
    requires
        0 <= k < pieces(path).len(),
    ensures
        forall|i: int| 0 <= i < pieces(path)[k].len() ==> path.contains(#[trigger] pieces(path)[k][i]),
    decreases path.len(),
{
    if path.len() > 0 {
        let shorter = path.drop_last();
        let front = pieces(shorter);
        piece_spans_fit(shorter);
        assert forall|i: int| 0 <= i < pieces(path)[k].len() implies path.contains(
            #[trigger] pieces(path)[k][i],
        ) by {
            let c = pieces(path)[k][i];
            if k < front.len() && i < front[k].len() {
                assert(c == front[k][i]);
                pieces_are_made_of_the_path(shorter, k);
                let at = choose|at: int| 0 <= at < shorter.len() && shorter[at] == c;
                assert(path[at] == c);
            } else {
                assert(c == path.last());
                assert(path[path.len() - 1] == c);
            }
        }
    }
}

/// The directory that contains what a path names: nothing contains the root,
/// and the empty path has no last component.
pub open spec fn parent_of(path: Seq<char>) -> Option<Seq<ComponentView>> {
    let parts = components(path);
    if parts.len() > 0 && parts.last() != ComponentView::Root {
        Some(parts.drop_last())
    } else {
        None
    }
}

/// The components of the directory that contains what a path names.
pub(crate) fn parent_components(path: &str) -> (parent: Option<Vec<Component>>)
    ensures
        match parent {
            Some(parts) => parent_of(path@) == Some(component_views(parts@)),
            None => parent_of(path@) is None,
        },
{
    let parts = path_components(path);
    let ghost all = components(path@);
    if parts.len() == 0 {
        return None;
    }
    let last: usize = parts.len() - 1;
    assert(all.last() == parts@[last as int]@);
    if let Component::Root = &parts[last] {
        return None;
    }
    let mut parts = parts;
    parts.pop();
    assert(component_views(parts@) =~= all.drop_last());
    Some(parts)
}

/// The components of a path below a directory, if the path is below it.
pub open spec fn below(root: Seq<char>, path: Seq<char>) -> Option<Seq<ComponentView>> {
    if components(root).is_prefix_of(components(path)) {
        Some(components(path).skip(components(root).len() as int))
    } else {
        None
    }
}

/// The components of a path below a directory, if the path is below it.
pub(crate) fn relative_components(root: &str, path: &str) -> (relative: Option<Vec<Component>>)
    ensures
        match relative {
            Some(parts) => below(root@, path@) == Some(component_views(parts@)),
            None => below(root@, path@) is None,
        },
{
    let root_parts = path_components(root);
    let parts = path_components(path);
    if !starts_with(&parts, &root_parts) {
        return None;
    }
    let ghost all = components(path@);
    let mut relative: Vec<Component> = Vec::new();
    let mut i: usize = root_parts.len();
    assert(component_views(relative@) =~= all.subrange(i as int, i as int));
    while i < parts.len()
        invariant
            root_parts@.len() <= i <= parts@.len(),
            component_views(parts@) == all,
            component_views(relative@) == all.subrange(root_parts@.len() as int, i as int),
        decreases parts@.len() - i,
    {
        let ghost so_far = component_views(relative@);
        relative.push(parts[i].clone());
        assert(component_views(relative@) =~= so_far.push(parts@[i as int]@));
        assert(all[i as int] == parts@[i as int]@);
        assert(component_views(relative@) =~= all.subrange(
            root_parts@.len() as int,
            i + 1,
        ));
        i += 1;
    }
    assert(all.subrange(root_parts@.len() as int, all.len() as int) =~= all.skip(
        root_parts@.len() as int,
    ));
    Some(relative)
}

} // verus!
