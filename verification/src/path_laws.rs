//! How local paths are made of their names.
use vstd::prelude::*;

use crate::local_path;
use crate::local_path::ComponentView;

verus! {

/// The path has no slash.
pub open spec fn is_piece(piece: Seq<char>) -> bool {
    forall|i: int| 0 <= i < piece.len() ==> #[trigger] piece[i] != '/'
}

/// The piece is the name of a file or directory.
pub open spec fn is_name(piece: Seq<char>) -> bool {
    &&& is_piece(piece)
    &&& piece.len() > 0
    &&& piece != seq!['.']
    &&& piece != seq!['.', '.']
}

/// A path without a slash is one name, the current or the parent directory, or nothing.
pub proof fn a_piece_is_one_component(piece: Seq<char>)
    requires
        is_piece(piece),
    ensures
        is_name(piece) ==> local_path::components(piece) == seq![ComponentView::Name(piece)],
        piece == seq!['.'] ==> local_path::components(piece) == seq![ComponentView::Current],
        piece == seq!['.', '.'] ==> local_path::components(piece) == seq![ComponentView::Parent],
        piece.len() == 0 ==> local_path::components(piece).len() == 0,
{
    pieces_of_a_piece(piece);
    let all = local_path::pieces(piece);
    assert(all.drop_last() =~= Seq::empty());
    assert(local_path::components_of(all.drop_last()).len() == 0);
    assert(local_path::component_of(piece, true) is None ==> local_path::components(piece)
        =~= Seq::empty());
    assert(local_path::component_of(piece, true) matches Some(component)
        ==> local_path::components(piece) =~= seq![component]);
}

/// What stands behind a slash is one more component: a name as it is, two dots as the
/// parent directory. Nothing behind the slash, or one dot, adds nothing. A slash with
/// nothing before it is the root.
pub proof fn a_slash_adds_one_component(front: Seq<char>, piece: Seq<char>)
    requires
        is_piece(piece),
    ensures
        ({
            let path = front + seq!['/'] + piece;
            let before = if front.len() == 0 {
                seq![ComponentView::Root]
            } else {
                local_path::components(front)
            };
            &&& is_name(piece) ==> local_path::components(path) == before.push(
                ComponentView::Name(piece),
            )
            &&& piece == seq!['.', '.'] ==> local_path::components(path) == before.push(
                ComponentView::Parent,
            )
            &&& piece == seq!['.'] || piece.len() == 0 ==> local_path::components(path) == before
        }),
{
    let path = front + seq!['/'] + piece;
    pieces_grow(front, piece);
    let earlier = local_path::pieces(front);
    some_piece(front);
    assert(local_path::pieces(path).drop_last() =~= earlier);
    assert(local_path::pieces(path).last() == piece);
    if front.len() == 0 {
        assert(path[0] == '/');
        assert(earlier =~= seq![Seq::<char>::empty()]);
        assert(earlier.drop_last() =~= Seq::empty());
        assert(local_path::components_of(earlier.drop_last()) =~= Seq::empty());
        assert(local_path::components_of(earlier) =~= Seq::empty());
    } else {
        assert(path[0] == front[0]);
    }
    let root: Seq<ComponentView> = if path[0] == '/' {
        seq![ComponentView::Root]
    } else {
        Seq::empty()
    };
    let before = local_path::components_of(earlier);
    match local_path::component_of(piece, false) {
        Some(component) => {
            assert(root + before.push(component) =~= (root + before).push(component));
        },
        None => {},
    }
    if front.len() == 0 {
        assert(root + before =~= seq![ComponentView::Root]);
    }
}

proof fn some_piece(path: Seq<char>)
    ensures
        local_path::pieces(path).len() > 0,
    decreases path.len(),
{
    if path.len() > 0 {
        some_piece(path.drop_last());
    }
}

proof fn pieces_of_a_piece(piece: Seq<char>)
    requires
        is_piece(piece),
    ensures
        local_path::pieces(piece) == seq![piece],
        piece.len() > 0 ==> piece[0] != '/',
    decreases piece.len(),
{
    if piece.len() == 0 {
        assert(piece =~= Seq::empty());
    } else {
        let shorter = piece.drop_last();
        assert forall|i: int| 0 <= i < shorter.len() implies #[trigger] shorter[i] != '/' by {
            assert(shorter[i] == piece[i]);
        }
        pieces_of_a_piece(shorter);
        assert(piece.last() == piece[piece.len() - 1]);
        assert(shorter.push(piece.last()) =~= piece);
        assert(local_path::pieces(piece) =~= seq![piece]);
    }
}

proof fn pieces_grow(front: Seq<char>, piece: Seq<char>)
    requires
        is_piece(piece),
    ensures
        local_path::pieces(front + seq!['/'] + piece) == local_path::pieces(front).push(piece),
    decreases piece.len(),
{
    let path = front + seq!['/'] + piece;
    some_piece(front);
    if piece.len() == 0 {
        assert(path.drop_last() =~= front);
        assert(path.last() == '/');
        assert(piece =~= Seq::empty());
    } else {
        let shorter = piece.drop_last();
        assert forall|i: int| 0 <= i < shorter.len() implies #[trigger] shorter[i] != '/' by {
            assert(shorter[i] == piece[i]);
        }
        pieces_grow(front, shorter);
        assert(path.drop_last() =~= front + seq!['/'] + shorter);
        assert(path.last() == piece[piece.len() - 1]);
        assert(shorter.push(piece.last()) =~= piece);
        assert(local_path::pieces(path) =~= local_path::pieces(front).push(piece));
    }
}

/// The name of a path is what stands behind its last slash, and what contains it is what
/// stands before that slash.
pub proof fn a_name_stands_behind_the_last_slash(front: Seq<char>, name: Seq<char>)
    requires
        is_name(name),
    ensures
        local_path::name_of(front + seq!['/'] + name) == Some(name),
        local_path::name_of(name) == Some(name),
        front.len() > 0 ==> local_path::parent_of(front + seq!['/'] + name) == Some(
            local_path::components(front),
        ),
        local_path::parent_of(name) == Some(Seq::<ComponentView>::empty()),
        local_path::name_of(front + seq!['/', '.', '.']) is None,
{
    a_slash_adds_one_component(front, name);
    a_piece_is_one_component(name);
    let path = front + seq!['/'] + name;
    if front.len() > 0 {
        assert(local_path::components(path).drop_last() =~= local_path::components(front));
    }
    assert(local_path::components(name).drop_last() =~= Seq::empty());
    a_slash_adds_one_component(front, seq!['.', '.']);
    assert(front + seq!['/'] + seq!['.', '.'] =~= front + seq!['/', '.', '.']);
}

/// Slashes at the end of a path, and dots behind them, do not change what it names.
pub proof fn a_trailing_slash_changes_nothing(path: Seq<char>)
    requires
        path.len() > 0,
    ensures
        local_path::same(path + seq!['/'], path),
        local_path::same(path + seq!['/', '.'], path),
        local_path::name_of(path + seq!['/']) == local_path::name_of(path),
        local_path::parent_of(path + seq!['/']) == local_path::parent_of(path),
{
    a_slash_adds_one_component(path, Seq::empty());
    a_slash_adds_one_component(path, seq!['.']);
    assert(path + seq!['/'] + Seq::<char>::empty() =~= path + seq!['/']);
    assert(path + seq!['/'] + seq!['.'] =~= path + seq!['/', '.']);
}

/// What a directory contains is below it: a name behind the directory is the way from the
/// directory to what it contains, and what is not below a directory is not below it with
/// a name more.
pub proof fn a_name_is_below_its_directory(directory: Seq<char>, name: Seq<char>)
    requires
        is_name(name),
        directory.len() > 0,
    ensures
        local_path::below(directory, directory + seq!['/'] + name) == Some(
            seq![ComponentView::Name(name)],
        ),
        local_path::below(directory, directory) == Some(Seq::<ComponentView>::empty()),
        local_path::below(directory + seq!['/'] + name, directory) is None,
{
    a_slash_adds_one_component(directory, name);
    let parts = local_path::components(directory);
    let path = directory + seq!['/'] + name;
    assert(local_path::components(path).skip(parts.len() as int) =~= seq![
        ComponentView::Name(name),
    ]);
    assert(parts.skip(parts.len() as int) =~= Seq::empty());
}

/// The path ends in a name.
pub open spec fn ends_in_name(path: Seq<char>) -> bool {
    ||| is_name(path)
    ||| exists|front: Seq<char>, name: Seq<char>|
        is_name(name) && path == #[trigger] (front + seq!['/'] + name)
}

proof fn piece_spans_grow(front: Seq<char>, piece: Seq<char>)
    requires
        is_piece(piece),
    ensures
        local_path::piece_spans(front + seq!['/'] + piece) == local_path::piece_spans(front).push(
            (front.len() as int + 1, front.len() as int + 1 + piece.len() as int),
        ),
    decreases piece.len(),
{
    let path = front + seq!['/'] + piece;
    if piece.len() == 0 {
        assert(path.drop_last() =~= front);
        assert(path.last() == '/');
    } else {
        let shorter = piece.drop_last();
        assert forall|i: int| 0 <= i < shorter.len() implies #[trigger] shorter[i] != '/' by {
            assert(shorter[i] == piece[i]);
        }
        piece_spans_grow(front, shorter);
        assert(path.drop_last() =~= front + seq!['/'] + shorter);
        assert(path.last() == piece[piece.len() - 1]);
        assert(local_path::piece_spans(path) =~= local_path::piece_spans(front).push(
            (front.len() as int + 1, front.len() as int + 1 + piece.len() as int),
        ));
    }
}

proof fn piece_span_of_a_piece(piece: Seq<char>)
    requires
        is_piece(piece),
    ensures
        local_path::piece_spans(piece) == seq![(0int, piece.len() as int)],
    decreases piece.len(),
{
    if piece.len() == 0 {
        assert(local_path::piece_spans(piece) =~= seq![(0int, piece.len() as int)]);
    } else {
        let shorter = piece.drop_last();
        assert forall|i: int| 0 <= i < shorter.len() implies #[trigger] shorter[i] != '/' by {
            assert(shorter[i] == piece[i]);
        }
        piece_span_of_a_piece(shorter);
        assert(piece.last() == piece[piece.len() - 1]);
        assert(local_path::piece_spans(piece) =~= seq![(0int, piece.len() as int)]);
    }
}

proof fn spans_grow(front: Seq<char>, name: Seq<char>)
    requires
        is_name(name),
    ensures
        local_path::component_spans(front + seq!['/'] + name) == (if front.len() == 0 {
            seq![(0int, 1int)]
        } else {
            local_path::component_spans(front)
        }).push((front.len() as int + 1, front.len() as int + 1 + name.len() as int)),
{
    let path = front + seq!['/'] + name;
    pieces_grow(front, name);
    piece_spans_grow(front, name);
    some_piece(front);
    let pieces = local_path::pieces(path);
    let spans = local_path::piece_spans(path);
    assert(pieces.drop_last() =~= local_path::pieces(front));
    assert(spans.drop_last() =~= local_path::piece_spans(front));
    let before = local_path::spans_of(local_path::pieces(front), local_path::piece_spans(front));
    let last = (front.len() as int + 1, front.len() as int + 1 + name.len() as int);
    assert(local_path::spans_of(pieces, spans) == before.push(last));
    let root: Seq<(int, int)> = if path[0] == '/' {
        seq![(0int, 1int)]
    } else {
        Seq::empty()
    };
    if front.len() == 0 {
        assert(path[0] == '/');
        assert(local_path::pieces(front).drop_last() =~= Seq::empty());
        assert(local_path::spans_of(
            local_path::pieces(front).drop_last(),
            local_path::piece_spans(front).drop_last(),
        ) =~= Seq::empty());
        assert(before =~= Seq::empty());
        assert(root + before =~= seq![(0int, 1int)]);
    } else {
        assert(path[0] == front[0]);
    }
    assert(root + before.push(last) =~= (root + before).push(last));
}

proof fn the_last_span(path: Seq<char>)
    requires
        ends_in_name(path),
    ensures
        local_path::component_spans(path).len() > 0,
        local_path::component_spans(path).last().1 == path.len(),
{
    if is_name(path) {
        pieces_of_a_piece(path);
        piece_span_of_a_piece(path);
        let pieces = local_path::pieces(path);
        let spans = local_path::piece_spans(path);
        assert(pieces.drop_last() =~= Seq::empty());
        assert(local_path::spans_of(pieces.drop_last(), spans.drop_last()) =~= Seq::empty());
        assert(local_path::spans_of(pieces, spans) =~= spans);
        assert(local_path::component_spans(path) =~= spans);
    } else {
        let (front, name) = choose|front: Seq<char>, name: Seq<char>|
            is_name(name) && path == #[trigger] (front + seq!['/'] + name);
        spans_grow(front, name);
    }
}

/// What contains a file or directory is written as what stands before the slash before
/// its name, a name alone stands in the directory that is not written at all, and a name
/// in the root stands in the root.
pub proof fn the_parent_stands_before_the_slash(front: Seq<char>, name: Seq<char>)
    requires
        is_name(name),
    ensures
        ends_in_name(front) ==> local_path::parent_text_of(front + seq!['/'] + name) == Some(front),
        local_path::parent_text_of(name) == Some(Seq::<char>::empty()),
        local_path::parent_text_of(seq!['/'] + name) == Some(seq!['/']),
{
    let path = front + seq!['/'] + name;
    a_slash_adds_one_component(front, name);
    if ends_in_name(front) {
        assert(front.len() > 0);
        spans_grow(front, name);
        the_last_span(front);
        assert(path.take(front.len() as int) =~= front);
    }
    a_piece_is_one_component(name);
    local_path::spans_fit(name);
    let rooted = seq!['/'] + name;
    let empty = Seq::<char>::empty();
    assert(empty + seq!['/'] + name =~= rooted);
    a_slash_adds_one_component(empty, name);
    spans_grow(empty, name);
    assert(rooted.take(1) =~= seq!['/']);
}

/// The way from a directory to what it contains is written as the name, and the way to
/// something further below as the way so far, a slash and the name.
pub proof fn the_way_below_is_written_with_its_names(
    root: Seq<char>,
    front: Seq<char>,
    name: Seq<char>,
)
    requires
        is_name(name),
        root.len() > 0,
    ensures
        local_path::text_below(root, root + seq!['/'] + name) == name,
        ends_in_name(front) && local_path::components(root).len() < local_path::components(
            front,
        ).len() ==> local_path::text_below(root, front + seq!['/'] + name)
            == local_path::text_below(root, front) + seq!['/'] + name,
{
    spans_grow(root, name);
    local_path::spans_fit(root);
    let direct = root + seq!['/'] + name;
    assert(direct.subrange(root.len() as int + 1, direct.len() as int) =~= name);
    if ends_in_name(front) && local_path::components(root).len() < local_path::components(
        front,
    ).len() {
        assert(front.len() > 0);
        let path = front + seq!['/'] + name;
        spans_grow(front, name);
        the_last_span(front);
        local_path::spans_fit(front);
        let first = local_path::components(root).len() as int;
        let spans = local_path::component_spans(front);
        let begin = spans[first].0;
        assert(local_path::component_spans(path)[first] == spans[first]);
        assert(path.subrange(begin, path.len() as int) =~= front.subrange(
            begin,
            front.len() as int,
        ) + seq!['/'] + name);
    }
}

} // verus!
