//! Paths as text, with `/` between the names.
//!
//! Two spellings of a path are the same where their components are: repeated separators, a
//! separator at the end and `.` inside a path do not count.
use vstd::prelude::*;

use crate::text::{
    begins_with, begins_with_char, chars_of, finishes_with, finishes_with_char,
    law_split_without_separator, lemma_split_between, same_text, split, split_on,
};

verus! {

/// A component of a path.
pub enum PathPart {
    /// The `/` at the beginning.
    Root,
    /// A `.` at the beginning.
    Current,
    /// A `..`.
    Parent,
    /// A name.
    Normal(String),
}

/// A component of a path, as a value.
pub enum PartView {
    Root,
    Current,
    Parent,
    Normal(Seq<char>),
}

impl View for PathPart {
    type V = PartView;

    open spec fn view(&self) -> PartView {
        match self {
            PathPart::Root => PartView::Root,
            PathPart::Current => PartView::Current,
            PathPart::Parent => PartView::Parent,
            PathPart::Normal(name) => PartView::Normal(name@),
        }
    }
}

impl DeepView for PathPart {
    type V = PartView;

    open spec fn deep_view(&self) -> PartView {
        self@
    }
}

/// The component that a piece between separators stands for, if it stands for any.
pub open spec fn piece_part(piece: Seq<char>) -> Seq<PartView> {
    if piece.len() == 0 || piece == seq!['.'] {
        Seq::empty()
    } else if piece == seq!['.', '.'] {
        seq![PartView::Parent]
    } else {
        seq![PartView::Normal(piece)]
    }
}

/// The components that pieces stand for.
pub open spec fn piece_parts(pieces: Seq<Seq<char>>) -> Seq<PartView>
    decreases pieces.len(),
{
    if pieces.len() == 0 {
        Seq::empty()
    } else {
        piece_parts(pieces.drop_last()) + piece_part(pieces.last())
    }
}

/// The component that only the beginning of a path can have.
pub open spec fn leading_part(path: Seq<char>) -> Seq<PartView> {
    if begins_with(path, '/') {
        seq![PartView::Root]
    } else if split_on(path, '/')[0] == seq!['.'] {
        seq![PartView::Current]
    } else {
        Seq::empty()
    }
}

/// The components of a path.
pub open spec fn components(path: Seq<char>) -> Seq<PartView> {
    leading_part(path) + piece_parts(split_on(path, '/'))
}

/// `path` lies at `base` or beneath it.
pub open spec fn lies_beneath(path: Seq<char>, base: Seq<char>) -> bool {
    components(base).is_prefix_of(components(path))
}

/// The path `rel` as seen from the directory `base`.
pub open spec fn joined(base: Seq<char>, rel: Seq<char>) -> Seq<char> {
    if begins_with(rel, '/') || base.len() == 0 {
        rel
    } else if finishes_with(base, '/') {
        base + rel
    } else {
        base + seq!['/'] + rel
    }
}

/// The last name of a path, if it ends in a name.
pub open spec fn last_name(path: Seq<char>) -> Option<Seq<char>> {
    let parts = components(path);
    if parts.len() > 0 && parts.last() is Normal {
        Some(parts.last()->Normal_0)
    } else {
        None
    }
}

/// A path has a parent unless it is empty or the root.
pub open spec fn has_parent(path: Seq<char>) -> bool {
    components(path).len() > 0 && components(path).last() != PartView::Root
}

/// `k` is the length of the shortest beginning of `path` that has all its components but the last.
pub open spec fn parent_length(path: Seq<char>, k: int) -> bool {
    &&& 0 <= k <= path.len()
    &&& components(path.take(k)) == components(path).drop_last()
    &&& forall|j: int|
        0 <= j < k ==> #[trigger] components(path.take(j)) != components(path).drop_last()
}

/// The directory that holds what `path` names.
pub open spec fn parent_of(path: Seq<char>) -> Option<Seq<char>> {
    if has_parent(path) {
        Some(path.take(choose|k: int| parent_length(path, k)))
    } else {
        None
    }
}

/// The kind of a component, by which components are ordered first.
pub open spec fn part_rank(p: PartView) -> int {
    match p {
        PartView::Root => 0,
        PartView::Current => 1,
        PartView::Parent => 2,
        PartView::Normal(_) => 3,
    }
}

/// Text in the order of its characters.
pub open spec fn text_before(a: Seq<char>, b: Seq<char>) -> bool
    decreases b.len(),
{
    if b.len() == 0 {
        false
    } else if a.len() == 0 {
        true
    } else {
        a[0] < b[0] || (a[0] == b[0] && text_before(a.drop_first(), b.drop_first()))
    }
}

/// Components in order: the root, `.`, `..`, then names as text.
pub open spec fn part_before(a: PartView, b: PartView) -> bool {
    part_rank(a) < part_rank(b) || (a is Normal && b is Normal && text_before(
        a->Normal_0,
        b->Normal_0,
    ))
}

/// Paths in the order of their components.
pub open spec fn parts_before(a: Seq<PartView>, b: Seq<PartView>) -> bool
    decreases b.len(),
{
    if b.len() == 0 {
        false
    } else if a.len() == 0 {
        true
    } else {
        part_before(a[0], b[0]) || (a[0] == b[0] && parts_before(
            a.drop_first(),
            b.drop_first(),
        ))
    }
}

/// The order of paths.
pub open spec fn path_before(a: Seq<char>, b: Seq<char>) -> bool {
    parts_before(components(a), components(b))
}

proof fn lemma_text_total(a: Seq<char>, b: Seq<char>)
    ensures
        !(text_before(a, b) && text_before(b, a)),
        text_before(a, b) || text_before(b, a) || a == b,
    decreases a.len(),
{
    if a.len() > 0 && b.len() > 0 {
        lemma_text_total(a.drop_first(), b.drop_first());
        if a[0] == b[0] && a.drop_first() == b.drop_first() {
            assert(a =~= seq![a[0]] + a.drop_first());
            assert(b =~= seq![b[0]] + b.drop_first());
        }
    } else if a.len() == 0 && b.len() == 0 {
        assert(a =~= b);
    }
}

proof fn lemma_text_transitive(a: Seq<char>, b: Seq<char>, c: Seq<char>)
    requires
        text_before(a, b),
        text_before(b, c),
    ensures
        text_before(a, c),
    decreases a.len(),
{
    if a.len() > 0 && a[0] == b[0] && b[0] == c[0] {
        lemma_text_transitive(a.drop_first(), b.drop_first(), c.drop_first());
    }
}

/// Text is ordered strictly.
pub proof fn lemma_text_order(a: Seq<char>, b: Seq<char>, c: Seq<char>)
    ensures
        !text_before(a, a),
        text_before(a, b) && text_before(b, c) ==> text_before(a, c),
{
    lemma_text_total(a, a);
    if text_before(a, b) && text_before(b, c) {
        lemma_text_transitive(a, b, c);
    }
}

proof fn lemma_part_total(a: PartView, b: PartView)
    ensures
        !(part_before(a, b) && part_before(b, a)),
        part_before(a, b) || part_before(b, a) || a == b,
        !part_before(a, a),
{
    if a is Normal {
        lemma_text_total(a->Normal_0, a->Normal_0);
    }
    if a is Normal && b is Normal {
        lemma_text_total(a->Normal_0, b->Normal_0);
    }
}

proof fn lemma_part_transitive(a: PartView, b: PartView, c: PartView)
    requires
        part_before(a, b),
        part_before(b, c),
    ensures
        part_before(a, c),
{
    if a is Normal && b is Normal && c is Normal {
        lemma_text_transitive(a->Normal_0, b->Normal_0, c->Normal_0);
    }
}

proof fn lemma_parts_total(a: Seq<PartView>, b: Seq<PartView>)
    ensures
        !(parts_before(a, b) && parts_before(b, a)),
        parts_before(a, b) || parts_before(b, a) || a == b,
    decreases a.len(),
{
    if a.len() > 0 && b.len() > 0 {
        lemma_part_total(a[0], b[0]);
        lemma_parts_total(a.drop_first(), b.drop_first());
        if a[0] == b[0] && a.drop_first() == b.drop_first() {
            assert(a =~= seq![a[0]] + a.drop_first());
            assert(b =~= seq![b[0]] + b.drop_first());
        }
    } else if a.len() == 0 && b.len() == 0 {
        assert(a =~= b);
    }
}

proof fn lemma_parts_transitive(a: Seq<PartView>, b: Seq<PartView>, c: Seq<PartView>)
    requires
        parts_before(a, b),
        parts_before(b, c),
    ensures
        parts_before(a, c),
    decreases a.len(),
{
    if a.len() > 0 {
        if part_before(a[0], b[0]) && part_before(b[0], c[0]) {
            lemma_part_transitive(a[0], b[0], c[0]);
        } else if a[0] == b[0] && b[0] == c[0] {
            if !part_before(a[0], c[0]) {
                if part_before(a[0], b[0]) {
                    lemma_part_total(a[0], b[0]);
                }
                lemma_parts_transitive(a.drop_first(), b.drop_first(), c.drop_first());
            }
        }
    }
}

/// Of two paths with different components exactly one comes before the other, and no path comes
/// before itself.
pub proof fn law_path_order_total(a: Seq<char>, b: Seq<char>)
    ensures
        !path_before(a, a),
        !(path_before(a, b) && path_before(b, a)),
        path_before(a, b) || path_before(b, a) || components(a) == components(b),
{
    lemma_parts_total(components(a), components(b));
    lemma_parts_total(components(a), components(a));
}

/// The order of paths is transitive.
pub proof fn law_path_order_transitive(a: Seq<char>, b: Seq<char>, c: Seq<char>)
    requires
        path_before(a, b),
        path_before(b, c),
    ensures
        path_before(a, c),
{
    lemma_parts_transitive(components(a), components(b), components(c));
}

/// The pieces of a text and of the text with one more character differ only at the end.
proof fn lemma_split_grow(s: Seq<char>, c: char)
    ensures
        split_on(s, '/').len() > 0,
        c == '/' ==> split_on(s.push(c), '/') == split_on(s, '/').push(Seq::empty()),
        c != '/' ==> split_on(s.push(c), '/') == split_on(s, '/').drop_last().push(
            split_on(s, '/').last().push(c),
        ),
    decreases s.len(),
{
    crate::text::law_join_of_split(s, '/');
    assert(s.push(c).drop_last() =~= s);
}

/// A beginning of the path ends right before its last piece.
proof fn lemma_before_last_piece(path: Seq<char>)
    ensures
        split_on(path, '/').len() > 0,
        split_on(path, '/').last().len() <= path.len(),
        split_on(path, '/').len() == 1 ==> split_on(path, '/')[0] == path,
        split_on(path, '/').len() > 1 ==> {
            let k = path.len() - split_on(path, '/').last().len();
            &&& k > 0
            &&& path[k - 1] == '/'
            &&& split_on(path.take(k), '/') == split_on(path, '/').drop_last().push(Seq::empty())
        },
    decreases path.len(),
{
    if path.len() == 0 {
        assert(split_on(path, '/')[0] =~= path);
    } else {
        let t = path.drop_last();
        lemma_before_last_piece(t);
        assert(path =~= t.push(path.last()));
        lemma_split_grow(t, path.last());
        let pieces = split_on(path, '/');
        if path.last() == '/' {
            assert(path.take(path.len() as int) =~= path);
            assert(pieces =~= pieces.drop_last().push(Seq::empty()));
        } else {
            let front = split_on(t, '/');
            if front.len() > 1 {
                let k = t.len() - front.last().len();
                assert(path.take(k) =~= t.take(k));
                assert(pieces.drop_last() =~= front.drop_last());
            }
        }
    }
}

/// A path that has a parent has a beginning with all its components but the last.
proof fn lemma_parent_exists(path: Seq<char>) -> (k: int)
    requires
        has_parent(path),
    ensures
        0 <= k <= path.len(),
        components(path.take(k)) == components(path).drop_last(),
    decreases path.len(),
{
    let pieces = split_on(path, '/');
    lemma_before_last_piece(path);
    let dot = seq!['.'];
    if path.len() == 0 {
        assert(piece_parts(pieces.drop_last()) =~= Seq::empty());
        assert(components(path) =~= Seq::empty());
        0
    } else if pieces.len() == 1 {
        assert(pieces.drop_last() =~= Seq::<Seq<char>>::empty());
        assert(piece_parts(pieces.drop_last()) =~= Seq::empty());
        assert(piece_parts(pieces) =~= piece_part(path));
        let empty = path.take(0);
        assert(empty.len() == 0);
        assert(split_on(empty, '/') =~= seq![Seq::<char>::empty()]);
        assert(split_on(empty, '/').drop_last() =~= Seq::<Seq<char>>::empty());
        assert(components(empty) =~= Seq::empty());
        assert(path[0] != '/') by {
            crate::text::law_split_pieces(path, '/');
            assert(pieces[0][0] != '/');
        }
        assert(components(path).drop_last() =~= Seq::empty());
        0
    } else {
        let last = pieces.last();
        let k = path.len() - last.len();
        let front = pieces.drop_last();
        let head = path.take(k);
        let head_pieces = split_on(head, '/');
        assert(head_pieces.drop_last() =~= front);
        assert(piece_parts(head_pieces) =~= piece_parts(front));
        assert(head[0] == path[0]);
        assert(head_pieces[0] == front[0] && pieces[0] == front[0]);
        assert(leading_part(head) == leading_part(path));
        assert(components(path) =~= components(head) + piece_part(last));
        if piece_part(last).len() > 0 {
            assert(components(path).drop_last() =~= components(head));
            k
        } else {
            assert(components(path) =~= components(head));
            if last.len() == 0 {
                // The path ends with a separator: leave it out.
                let t = path.drop_last();
                assert(path =~= t.push('/')) by {
                    assert(path[k - 1] == '/');
                }
                lemma_split_grow(t, '/');
                assert(pieces.drop_last() =~= split_on(t, '/'));
                if t.len() == 0 {
                    assert(split_on(t, '/') =~= seq![Seq::<char>::empty()]);
                    assert(split_on(t, '/').drop_last() =~= Seq::<Seq<char>>::empty());
                    assert(front.drop_last() =~= Seq::<Seq<char>>::empty());
                    assert(piece_parts(front.drop_last()) =~= Seq::empty());
                    assert(piece_parts(front) =~= Seq::empty());
                    assert(components(path) =~= seq![PartView::Root]);
                    0
                } else {
                    assert(t[0] == path[0]);
                    assert(split_on(t, '/')[0] == pieces[0]);
                    assert(components(t) =~= components(path));
                    let j = lemma_parent_exists(t);
                    assert(path.take(j) =~= t.take(j));
                    j
                }
            } else {
                let j = lemma_parent_exists(head);
                assert(path.take(j) =~= head.take(j));
                j
            }
        }
    }
}

/// There is exactly one length of the parent.
proof fn lemma_parent_length(path: Seq<char>, upper: int) -> (k: int)
    requires
        0 <= upper <= path.len(),
        components(path.take(upper)) == components(path).drop_last(),
    ensures
        parent_length(path, k),
        k <= upper,
    decreases upper,
{
    if exists|j: int|
        0 <= j < upper && #[trigger] components(path.take(j)) == components(path).drop_last() {
        let j = choose|j: int|
            0 <= j < upper && #[trigger] components(path.take(j)) == components(path).drop_last();
        lemma_parent_length(path, j)
    } else {
        upper
    }
}

/// Going from a path to its parent removes the last component and nothing else.
pub proof fn law_parent_components(path: Seq<char>)
    ensures
        parent_of(path) is Some <==> has_parent(path),
        has_parent(path) ==> components(parent_of(path)->0) == components(path).drop_last(),
        has_parent(path) ==> parent_of(path)->0.is_prefix_of(path),
        has_parent(path) ==> parent_of(path)->0.len() < path.len(),
{
    if has_parent(path) {
        let upper = lemma_parent_exists(path);
        let k = lemma_parent_length(path, upper);
        assert(parent_length(path, k));
        let c = choose|k: int| parent_length(path, k);
        assert(parent_length(path, c));
        if c == path.len() {
            assert(path.take(c) =~= path);
            assert(components(path).drop_last().len() == components(path).len() - 1);
        }
    }
}

proof fn lemma_parts_joined(a: Seq<Seq<char>>, b: Seq<Seq<char>>)
    ensures
        piece_parts(a + b) == piece_parts(a) + piece_parts(b),
    decreases b.len(),
{
    if b.len() == 0 {
        assert(a + b =~= a);
        assert(piece_parts(a) + piece_parts(b) =~= piece_parts(a));
    } else {
        lemma_parts_joined(a, b.drop_last());
        assert((a + b).drop_last() =~= a + b.drop_last());
        assert(piece_parts(a + b) =~= piece_parts(a) + piece_parts(b));
    }
}

/// A path inside a directory has the components of the directory and then its own, unless it
/// begins at the root or with a `.`.
pub proof fn law_joined_components(base: Seq<char>, rel: Seq<char>)
    requires
        !begins_with(rel, '/'),
        split_on(rel, '/')[0] != seq!['.'],
    ensures
        components(joined(base, rel)) == components(base) + components(rel),
{
    assert(components(rel) =~= piece_parts(split_on(rel, '/')));
    if base.len() == 0 {
        assert(split_on(base, '/') =~= seq![Seq::<char>::empty()]);
        assert(split_on(base, '/').drop_last() =~= Seq::<Seq<char>>::empty());
        assert(piece_parts(split_on(base, '/').drop_last()) =~= Seq::empty());
        assert(split_on(base, '/')[0].len() != seq!['.'].len());
        assert(components(base) =~= Seq::empty());
        assert(components(base) + components(rel) =~= components(rel));
    } else if finishes_with(base, '/') {
        let head = base.drop_last();
        assert(base =~= head.push('/'));
        crate::text::lemma_split_between(head, rel, '/');
        lemma_split_grow(head, '/');
        assert(joined(base, rel) =~= head + seq!['/'] + rel);
        lemma_parts_joined(split_on(head, '/'), split_on(rel, '/'));
        let pieces = split_on(base, '/');
        assert(pieces.drop_last() =~= split_on(head, '/'));
        assert(piece_parts(pieces) =~= piece_parts(split_on(head, '/')));
        lemma_leading(head, rel);
        assert(leading_part(base) == leading_part(joined(base, rel))) by {
            assert(joined(base, rel)[0] == base[0]);
            assert(pieces[0] == split_on(head, '/')[0]);
        }
        assert(components(joined(base, rel)) =~= components(base) + components(rel));
    } else {
        crate::text::lemma_split_between(base, rel, '/');
        assert(joined(base, rel) =~= base + seq!['/'] + rel);
        lemma_parts_joined(split_on(base, '/'), split_on(rel, '/'));
        lemma_leading(base, rel);
        assert(leading_part(base) == leading_part(joined(base, rel))) by {
            assert(joined(base, rel)[0] == base[0]);
        }
        assert(components(joined(base, rel)) =~= components(base) + components(rel));
    }
}

/// The first piece of a path is that of the directory that it begins with.
proof fn lemma_leading(a: Seq<char>, b: Seq<char>)
    ensures
        split_on(a + seq!['/'] + b, '/')[0] == split_on(a, '/')[0],
{
    crate::text::lemma_split_between(a, b, '/');
}

/// What lies inside a directory lies beneath it.
pub proof fn law_joined_lies_beneath(base: Seq<char>, rel: Seq<char>)
    requires
        !begins_with(rel, '/'),
        split_on(rel, '/')[0] != seq!['.'],
    ensures
        lies_beneath(joined(base, rel), base),
{
    law_joined_components(base, rel);
    assert((components(base) + components(rel)).subrange(0, components(base).len() as int)
        =~= components(base));
}

/// The components of a path.
pub fn components_of(path: &str) -> (r: Vec<PathPart>)
    ensures
        r.deep_view() == components(path@),
{
    let pieces: Vec<String> = split(path, '/');
    let ghost all = pieces.deep_view();
    let mut r: Vec<PathPart> = Vec::new();
    proof {
        reveal_strlit(".");
        reveal_strlit("..");
        assert("."@ =~= seq!['.']);
        assert(".."@ =~= seq!['.', '.']);
        assert(all[0] == pieces@[0]@);
    }
    if begins_with_char(path, '/') {
        r.push(PathPart::Root);
    } else if same_text(pieces[0].as_str(), ".") {
        r.push(PathPart::Current);
    }
    let ghost leading = r.deep_view();
    assert(leading =~= leading_part(path@));
    let mut i: usize = 0;
    assert(piece_parts(all.take(0)) =~= Seq::empty());
    assert(r.deep_view() =~= leading + piece_parts(all.take(0)));
    while i < pieces.len()
        invariant
            i <= pieces.len(),
            all == pieces.deep_view(),
            "."@ == seq!['.'],
            ".."@ == seq!['.', '.'],
            r.deep_view() == leading + piece_parts(all.take(i as int)),
        decreases pieces.len() - i,
    {
        let ghost before = r.deep_view();
        assert(all.take(i + 1).drop_last() =~= all.take(i as int));
        assert(all[i as int] == pieces@[i as int]@);
        let piece: &String = &pieces[i];
        if piece.as_str().is_empty() || same_text(piece.as_str(), ".") {
        } else if same_text(piece.as_str(), "..") {
            r.push(PathPart::Parent);
            assert(r.deep_view() =~= before.push(PartView::Parent));
        } else {
            r.push(PathPart::Normal(piece.clone()));
            assert(r.deep_view() =~= before.push(PartView::Normal(piece@)));
        }
        assert(r.deep_view() =~= leading + piece_parts(all.take(i + 1)));
        i += 1;
    }
    assert(all.take(all.len() as int) =~= all);
    r
}

fn same_part(a: &PathPart, b: &PathPart) -> (r: bool)
    ensures
        r == (a@ == b@),
{
    match (a, b) {
        (PathPart::Root, PathPart::Root) => true,
        (PathPart::Current, PathPart::Current) => true,
        (PathPart::Parent, PathPart::Parent) => true,
        (PathPart::Normal(x), PathPart::Normal(y)) => same_text(x.as_str(), y.as_str()),
        _ => false,
    }
}

/// Whether the first list of components is a beginning of the second.
fn is_beginning(short: &Vec<PathPart>, long: &Vec<PathPart>) -> (r: bool)
    ensures
        r == short.deep_view().is_prefix_of(long.deep_view()),
{
    if short.len() > long.len() {
        return false;
    }
    let mut i: usize = 0;
    while i < short.len()
        invariant
            i <= short.len() <= long.len(),
            forall|j: int|
                0 <= j < i ==> #[trigger] short.deep_view()[j] == long.deep_view()[j],
        decreases short.len() - i,
    {
        assert(short.deep_view()[i as int] == short@[i as int]@);
        assert(long.deep_view()[i as int] == long@[i as int]@);
        if !same_part(&short[i], &long[i]) {
            assert(short.deep_view()[i as int] != long.deep_view().subrange(
                0,
                short@.len() as int,
            )[i as int]);
            return false;
        }
        i += 1;
    }
    assert(short.deep_view() =~= long.deep_view().subrange(0, short@.len() as int));
    true
}

/// Whether `path` lies at `base` or beneath it.
pub fn starts_with_path(path: &str, base: &str) -> (r: bool)
    ensures
        r == lies_beneath(path@, base@),
{
    is_beginning(&components_of(base), &components_of(path))
}

/// Whether the two spellings name the same path.
pub fn same_path(a: &str, b: &str) -> (r: bool)
    ensures
        r == (components(a@) == components(b@)),
{
    let x: Vec<PathPart> = components_of(a);
    let y: Vec<PathPart> = components_of(b);
    let r: bool = x.len() == y.len() && is_beginning(&x, &y);
    proof {
        if r {
            assert(y.deep_view().subrange(0, x@.len() as int) =~= y.deep_view());
        } else if x.deep_view() == y.deep_view() {
            assert(x.deep_view().len() == x@.len() && y.deep_view().len() == y@.len());
            assert(y.deep_view().subrange(0, x@.len() as int) =~= x.deep_view());
        }
    }
    r
}

/// The path `rel` as seen from the directory `base`.
pub fn join_path(base: &str, rel: &str) -> (r: String)
    ensures
        r@ == joined(base@, rel@),
{
    if begins_with_char(rel, '/') || base.is_empty() {
        rel.to_owned()
    } else if finishes_with_char(base, '/') {
        base.to_owned().concat(rel)
    } else {
        proof {
            reveal_strlit("/");
            assert("/"@ =~= seq!['/']);
        }
        base.to_owned().concat("/").concat(rel)
    }
}

/// The last name of a path, if it ends in a name.
pub fn file_name(path: &str) -> (r: Option<String>)
    ensures
        r.deep_view() == last_name(path@),
{
    let parts: Vec<PathPart> = components_of(path);
    let n: usize = parts.len();
    if n == 0 {
        return None;
    }
    assert(components(path@)[n - 1] == parts@[n - 1]@);
    match &parts[n - 1] {
        PathPart::Normal(name) => Some(name.clone()),
        _ => None,
    }
}

/// The directory that holds what the path names, if there is one.
pub fn parent_path(path: &str) -> (r: Option<String>)
    ensures
        r.deep_view() == parent_of(path@),
{
    let mut parts: Vec<PathPart> = components_of(path);
    let ghost all = parts.deep_view();
    let n: usize = parts.len();
    if n == 0 {
        return None;
    }
    assert(all[n - 1] == parts@[n - 1]@);
    match &parts[n - 1] {
        PathPart::Root => {
            return None;
        },
        _ => {},
    }
    parts.truncate(n - 1);
    let ghost target = all.drop_last();
    assert(parts.deep_view() =~= target);
    proof {
        let upper = lemma_parent_exists(path@);
        let k = lemma_parent_length(path@, upper);
        assert(parent_length(path@, k));
    }
    let ghost k = choose|k: int| parent_length(path@, k);
    let len: usize = path.unicode_len();
    let mut i: usize = 0;
    while i <= len
        invariant
            i <= k,
            parent_length(path@, k),
            parts.deep_view() == target,
            target == components(path@).drop_last(),
            len == path@.len(),
            has_parent(path@),
            k == (choose|k: int| parent_length(path@, k)),
        decreases len + 1 - i,
    {
        let head: &str = path.substring_char(0, i);
        assert(head@ =~= path@.take(i as int));
        let head_parts: Vec<PathPart> = components_of(head);
        let found: bool = head_parts.len() == parts.len() && is_beginning(&head_parts, &parts);
        proof {
            if found {
                assert(parts.deep_view().subrange(0, head_parts@.len() as int)
                    =~= parts.deep_view());
                assert(components(path@.take(i as int)) == target);
            } else if head_parts.deep_view() == parts.deep_view() {
                assert(head_parts.deep_view().len() == head_parts@.len());
                assert(parts.deep_view().len() == parts@.len());
                assert(parts.deep_view().subrange(0, head_parts@.len() as int)
                    =~= head_parts.deep_view());
            }
        }
        if found {
            return Some(head.to_owned());
        }
        assert(i < k);
        i += 1;
    }
    None
}

/// The path and the directories around it, from the inside out.
pub open spec fn enclosing(path: Seq<char>) -> Seq<Seq<char>>
    decreases path.len(),
{
    match parent_of(path) {
        Some(parent) => if parent.len() < path.len() {
            seq![path] + enclosing(parent)
        } else {
            seq![path]
        },
        None => seq![path],
    }
}

/// The path and the directories around it, from the inside out.
pub fn enclosing_paths(path: &str) -> (r: Vec<String>)
    ensures
        r.deep_view() == enclosing(path@),
{
    let mut r: Vec<String> = Vec::new();
    let mut current: String = path.to_owned();
    assert(r.deep_view() + enclosing(current@) =~= enclosing(path@));
    loop
        invariant
            r.deep_view() + enclosing(current@) == enclosing(path@),
        decreases current@.len(),
    {
        let ghost before = r.deep_view();
        let ghost here = current@;
        proof {
            law_parent_components(here);
        }
        let parent: Option<String> = parent_path(current.as_str());
        r.push(current);
        assert(r.deep_view() =~= before.push(here));
        match parent {
            Some(p) => {
                current = p;
                assert(r.deep_view() + enclosing(current@) =~= before + enclosing(here));
            },
            None => {
                assert(r.deep_view() =~= before + enclosing(here));
                return r;
            },
        }
    }
}

/// Whether one text comes before the other in the order of characters.
pub fn is_text_before(a: &str, b: &str) -> (r: bool)
    ensures
        r == text_before(a@, b@),
{
    let x: Vec<char> = chars_of(a);
    let y: Vec<char> = chars_of(b);
    let mut i: usize = 0;
    assert(x@.skip(0) =~= x@ && y@.skip(0) =~= y@);
    while i < x.len() && i < y.len()
        invariant
            i <= x.len(),
            i <= y.len(),
            x@ == a@,
            y@ == b@,
            text_before(a@, b@) == text_before(x@.skip(i as int), y@.skip(i as int)),
        decreases x.len() - i,
    {
        assert(x@.skip(i as int).drop_first() =~= x@.skip(i + 1));
        assert(y@.skip(i as int).drop_first() =~= y@.skip(i + 1));
        if x[i] != y[i] {
            return x[i] < y[i];
        }
        i += 1;
    }
    i < y.len()
}

/// Whether one component comes before the other.
fn is_part_before(a: &PathPart, b: &PathPart) -> (r: bool)
    ensures
        r == part_before(a@, b@),
{
    match (a, b) {
        (PathPart::Normal(x), PathPart::Normal(y)) => is_text_before(x.as_str(), y.as_str()),
        (PathPart::Normal(_), _) => false,
        (PathPart::Parent, PathPart::Normal(_)) => true,
        (PathPart::Parent, _) => false,
        (PathPart::Current, PathPart::Normal(_)) => true,
        (PathPart::Current, PathPart::Parent) => true,
        (PathPart::Current, _) => false,
        (PathPart::Root, PathPart::Root) => false,
        (PathPart::Root, _) => true,
    }
}

/// Whether one path comes before the other.
pub fn is_path_before(a: &str, b: &str) -> (r: bool)
    ensures
        r == path_before(a@, b@),
{
    let x: Vec<PathPart> = components_of(a);
    let y: Vec<PathPart> = components_of(b);
    let ghost xs = x.deep_view();
    let ghost ys = y.deep_view();
    let mut i: usize = 0;
    assert(xs.skip(0) =~= xs && ys.skip(0) =~= ys);
    while i < x.len() && i < y.len()
        invariant
            i <= x.len(),
            i <= y.len(),
            xs == x.deep_view(),
            ys == y.deep_view(),
            xs == components(a@),
            ys == components(b@),
            path_before(a@, b@) == parts_before(xs.skip(i as int), ys.skip(i as int)),
        decreases x.len() - i,
    {
        assert(xs.skip(i as int).drop_first() =~= xs.skip(i + 1));
        assert(ys.skip(i as int).drop_first() =~= ys.skip(i + 1));
        assert(xs[i as int] == x@[i as int]@ && ys[i as int] == y@[i as int]@);
        proof {
            lemma_part_total(xs[i as int], ys[i as int]);
        }
        if is_part_before(&x[i], &y[i]) {
            return true;
        }
        if !same_part(&x[i], &y[i]) {
            return false;
        }
        i += 1;
    }
    i < y.len()
}

/// The relative path that leads from one directory to a path, where there is one.
pub uninterp spec fn path_difference(path: Seq<char>, base: Seq<char>) -> Option<Seq<char>>;

/// The way up by a number of directories.
pub open spec fn way_up(n: nat) -> Seq<PartView> {
    Seq::new(n, |i: int| PartView::Parent)
}

/// The relative path that leads from the directory `base` to `path`, where there is one.
///
/// Calls `pathdiff::diff_paths`, whose result depends on its two arguments alone and is named
/// `path_difference` here. Where the path lies beneath the base, the result is what is left of it;
/// where the base lies beneath the path, and both begin at the root or neither does, the result
/// leads up as often as the base goes down.
#[verifier::external_body]
pub(crate) fn diff_paths(path: &str, base: &str) -> (r: Option<String>)
    ensures
        r.deep_view() == path_difference(path@, base@),
        lies_beneath(path@, base@) ==> r is Some && components(r->0@) == components(path@).skip(
            components(base@).len() as int,
        ),
        lies_beneath(base@, path@) && begins_with(path@, '/') == begins_with(base@, '/') ==> r
            is Some && components(r->0@) == way_up(
            (components(base@).len() - components(path@).len()) as nat,
        ),
{
    pathdiff::diff_paths(path, base).map(|p| p.to_string_lossy().into_owned())
}

/// A name: not empty, without a separator, and neither `.` nor `..`.
pub open spec fn is_name(name: Seq<char>) -> bool {
    name.len() > 0 && !name.contains('/') && name != seq!['.'] && name != seq!['.', '.']
}

/// The components of the shortest paths: a name is one component, and so is each of the root, `.`
/// and `..`; the empty path has none.
pub proof fn law_single_components(name: Seq<char>)
    requires
        is_name(name),
    ensures
        components(name) == seq![PartView::Normal(name)],
        components(seq!['/'] + name) == seq![PartView::Root, PartView::Normal(name)],
        components(seq!['/']) == seq![PartView::Root],
        components(seq!['.']) == seq![PartView::Current],
        components(seq!['.', '.']) == seq![PartView::Parent],
        components(Seq::empty()) == Seq::<PartView>::empty(),
{
    lemma_only_piece(name);
    lemma_only_piece(seq!['.']);
    lemma_only_piece(seq!['.', '.']);
    lemma_only_piece(Seq::empty());
    assert(name.contains(name[0]));
    assert(components(name) =~= seq![PartView::Normal(name)]);
    assert(components(seq!['.']) =~= seq![PartView::Current]);
    assert(seq!['.', '.'].len() != seq!['.'].len());
    assert(components(seq!['.', '.']) =~= seq![PartView::Parent]);
    assert(Seq::<char>::empty().len() != seq!['.'].len());
    assert(components(Seq::empty()) =~= Seq::<PartView>::empty());
    let empty = Seq::<char>::empty();
    lemma_split_between(empty, name, '/');
    assert(empty + seq!['/'] + name =~= seq!['/'] + name);
    lemma_parts_joined(split_on(empty, '/'), split_on(name, '/'));
    assert(components(seq!['/'] + name) =~= seq![PartView::Root, PartView::Normal(name)]);
    lemma_split_between(empty, empty, '/');
    assert(empty + seq!['/'] + empty =~= seq!['/']);
    lemma_parts_joined(split_on(empty, '/'), split_on(empty, '/'));
    assert(components(seq!['/']) =~= seq![PartView::Root]);
}

/// A text without separators is its own piece.
proof fn lemma_only_piece(text: Seq<char>)
    requires
        !text.contains('/'),
    ensures
        split_on(text, '/') == seq![text],
        piece_parts(seq![text]) == piece_part(text),
{
    law_split_without_separator(text, '/');
    assert(seq![text].drop_last() =~= Seq::<Seq<char>>::empty());
    reveal_with_fuel(piece_parts, 2);
    assert(piece_parts(seq![text]) =~= piece_part(text));
}

/// How a path is spelt makes no difference: a separator at its end, two separators in place of one,
/// and a `.` between separators are the same path. A `..` is not, and is a component of its own.
pub proof fn law_spelling_makes_no_difference(a: Seq<char>, b: Seq<char>)
    requires
        a.len() > 0,
    ensures
        components(a.push('/')) == components(a),
        components(a + seq!['/', '/'] + b) == components(a + seq!['/'] + b),
        components(a + seq!['/', '.', '/'] + b) == components(a + seq!['/'] + b),
        components(a + seq!['/', '.']) == components(a),
        components(a + seq!['/', '.', '.']) == components(a).push(PartView::Parent),
{
    let empty = Seq::<char>::empty();
    let dot = seq!['.'];
    let dots = seq!['.', '.'];
    lemma_only_piece(empty);
    lemma_only_piece(dot);
    lemma_only_piece(dots);
    lemma_inner_piece(a, empty, b);
    lemma_inner_piece(a, dot, b);
    lemma_last_piece(a, empty);
    lemma_last_piece(a, dot);
    lemma_last_piece(a, dots);
    assert(a + seq!['/'] + empty =~= a.push('/'));
    assert(a + seq!['/'] + dot =~= a + seq!['/', '.']);
    assert(a + seq!['/'] + dots =~= a + seq!['/', '.', '.']);
    assert(a + seq!['/'] + (empty + seq!['/'] + b) =~= a + seq!['/', '/'] + b);
    assert(a + seq!['/'] + (dot + seq!['/'] + b) =~= a + seq!['/', '.', '/'] + b);
    assert(components(a) + piece_part(empty) =~= components(a));
    assert(components(a) + piece_part(dot) =~= components(a));
    assert(dots.len() != dot.len());
    assert(components(a) + piece_part(dots) =~= components(a).push(PartView::Parent));
}

/// One more piece at the end of a path.
proof fn lemma_last_piece(a: Seq<char>, piece: Seq<char>)
    requires
        a.len() > 0,
        !piece.contains('/'),
    ensures
        components(a + seq!['/'] + piece) == components(a) + piece_part(piece),
{
    let whole = a + seq!['/'] + piece;
    lemma_only_piece(piece);
    lemma_split_between(a, piece, '/');
    lemma_parts_joined(split_on(a, '/'), split_on(piece, '/'));
    lemma_leading(a, piece);
    assert(whole[0] == a[0]);
    assert(leading_part(whole) == leading_part(a));
    assert(components(whole) =~= components(a) + piece_part(piece));
}

/// A piece that stands for nothing, inside a path.
proof fn lemma_inner_piece(a: Seq<char>, piece: Seq<char>, b: Seq<char>)
    requires
        a.len() > 0,
        !piece.contains('/'),
        piece_part(piece).len() == 0,
    ensures
        components(a + seq!['/'] + (piece + seq!['/'] + b)) == components(a + seq!['/'] + b),
{
    let tail = piece + seq!['/'] + b;
    let long = a + seq!['/'] + tail;
    let short = a + seq!['/'] + b;
    lemma_only_piece(piece);
    lemma_split_between(piece, b, '/');
    lemma_split_between(a, tail, '/');
    lemma_split_between(a, b, '/');
    lemma_parts_joined(split_on(piece, '/'), split_on(b, '/'));
    lemma_parts_joined(split_on(a, '/'), split_on(tail, '/'));
    lemma_parts_joined(split_on(a, '/'), split_on(b, '/'));
    lemma_leading(a, tail);
    lemma_leading(a, b);
    assert(long[0] == a[0] && short[0] == a[0]);
    assert(leading_part(long) == leading_part(short));
    assert(components(long) =~= components(short));
}

/// A path inside a directory is the directory, one separator and the path; a path that begins at
/// the root stands on its own wherever it is seen from.
pub proof fn law_joined_text(base: Seq<char>, rel: Seq<char>)
    ensures
        joined(base, seq!['/'] + rel) == seq!['/'] + rel,
        joined(Seq::empty(), rel) == rel,
        base.len() > 0 && !begins_with(rel, '/') ==> {
            &&& base.is_prefix_of(joined(base, rel))
            &&& rel.is_suffix_of(joined(base, rel))
            &&& joined(base, rel)[joined(base, rel).len() - rel.len() - 1] == '/'
            &&& joined(base, rel).len() == base.len() + rel.len() + (if base.last() == '/' {
                0int
            } else {
                1
            })
        },
{
    assert((seq!['/'] + rel)[0] == '/');
    if base.len() > 0 && !begins_with(rel, '/') {
        let whole = joined(base, rel);
        assert(whole.subrange(0, base.len() as int) =~= base);
        assert(whole.subrange(whole.len() - rel.len(), whole.len() as int) =~= rel);
    }
}

/// The last name of a path inside a directory is the last name there, and only what ends in a name
/// has one.
pub proof fn law_last_name(base: Seq<char>, name: Seq<char>)
    requires
        is_name(name),
    ensures
        last_name(joined(base, name)) == Some(name),
        last_name(seq!['/']) is None,
        last_name(seq!['.', '.']) is None,
        last_name(Seq::empty()) is None,
{
    law_single_components(name);
    assert(name.contains(name[0]));
    lemma_only_piece(name);
    law_joined_components(base, name);
    assert((components(base) + components(name)).last() == PartView::Normal(name));
}

/// Lying beneath is an order of paths by their components: every path lies at itself, what lies
/// beneath what lies beneath a path lies beneath it, and only spellings of one path lie beneath
/// each other.
pub proof fn law_beneath_is_an_order(a: Seq<char>, b: Seq<char>, c: Seq<char>)
    ensures
        lies_beneath(a, a),
        lies_beneath(a, b) && lies_beneath(b, c) ==> lies_beneath(a, c),
        lies_beneath(a, b) && lies_beneath(b, a) ==> components(a) == components(b),
        lies_beneath(a, b) <==> components(b).len() <= components(a).len() && forall|i: int|
            0 <= i < components(b).len() ==> components(a)[i] == #[trigger] components(b)[i],
{
    let x = components(a);
    let y = components(b);
    let z = components(c);
    assert(x.subrange(0, x.len() as int) =~= x);
    if y.is_prefix_of(x) {
        assert(y =~= x.subrange(0, y.len() as int));
        assert forall|i: int| 0 <= i < y.len() implies x[i] == #[trigger] y[i] by {
            assert(x.subrange(0, y.len() as int)[i] == x[i]);
        }
        if z.is_prefix_of(y) {
            assert(z =~= x.subrange(0, z.len() as int)) by {
                assert forall|i: int| 0 <= i < z.len() implies z[i] == x[i] by {
                    assert(y.subrange(0, z.len() as int)[i] == y[i]);
                }
            }
        }
        if x.is_prefix_of(y) {
            assert(x =~= y);
        }
    }
    if y.len() <= x.len() && forall|i: int| 0 <= i < y.len() ==> x[i] == #[trigger] y[i] {
        assert(y =~= x.subrange(0, y.len() as int));
    }
}

/// What lies in a directory under a name does not hold the directory.
pub proof fn law_directory_not_beneath(base: Seq<char>, name: Seq<char>)
    requires
        is_name(name),
    ensures
        lies_beneath(joined(base, name), base),
        !lies_beneath(base, joined(base, name)),
        components(joined(base, name)) == components(base).push(PartView::Normal(name)),
{
    law_single_components(name);
    assert(name.contains(name[0]));
    lemma_only_piece(name);
    law_joined_components(base, name);
    law_joined_lies_beneath(base, name);
    assert(components(joined(base, name)) =~= components(base).push(PartView::Normal(name)));
}

/// From the inside out, the path itself comes first, each directory holds the one before it, and
/// the last is held by none.
pub proof fn law_enclosing_from_inside_out(path: Seq<char>)
    ensures
        enclosing(path).len() > 0,
        enclosing(path)[0] == path,
        parent_of(enclosing(path).last()) is None,
        forall|i: int|
            0 <= i < enclosing(path).len() - 1 ==> parent_of(#[trigger] enclosing(path)[i]) == Some(
                enclosing(path)[i + 1],
            ),
    decreases path.len(),
{
    law_parent_components(path);
    if let Some(parent) = parent_of(path) {
        law_enclosing_from_inside_out(parent);
        let inner = enclosing(parent);
        let all = enclosing(path);
        assert(all =~= seq![path] + inner);
        assert(all.last() == inner.last());
        assert forall|i: int| 0 <= i < all.len() - 1 implies parent_of(#[trigger] all[i]) == Some(
            all[i + 1],
        ) by {
            if i > 0 {
                assert(all[i] == inner[i - 1]);
                assert(all[i + 1] == inner[i]);
            } else {
                assert(all[1] == inner[0]);
            }
        }
    }
}

/// Texts come in the order of the first characters in which they differ, and a text comes before
/// any longer one that begins with it.
pub proof fn law_text_order(common: Seq<char>, a: Seq<char>, b: Seq<char>, x: char, y: char)
    requires
        x < y,
    ensures
        text_before(common + seq![x] + a, common + seq![y] + b),
        !text_before(common + seq![y] + b, common + seq![x] + a),
        text_before(common, common + seq![x] + a),
        !text_before(common + seq![x] + a, common),
    decreases common.len(),
{
    let s = common + seq![x] + a;
    let t = common + seq![y] + b;
    if common.len() == 0 {
        assert(s[0] == x && t[0] == y);
    } else {
        let rest = common.drop_first();
        law_text_order(rest, a, b, x, y);
        assert(s.drop_first() =~= rest + seq![x] + a);
        assert(t.drop_first() =~= rest + seq![y] + b);
        assert(s[0] == common[0] && t[0] == common[0]);
    }
}

/// Paths come in the order of the first components in which they differ: the root before `.`, that
/// before `..`, that before names, and names in the order of their characters; a directory comes
/// before what it holds.
pub proof fn law_path_order(a: Seq<char>, b: Seq<char>, i: int)
    requires
        0 <= i <= components(a).len(),
        i < components(b).len(),
        components(a).take(i) == components(b).take(i),
    ensures
        i == components(a).len() ==> path_before(a, b) && !path_before(b, a),
        i < components(a).len() ==> {
            let x = components(a)[i];
            let y = components(b)[i];
            &&& (x is Root && !(y is Root)) ==> path_before(a, b) && !path_before(b, a)
            &&& (x is Current && (y is Parent || y is Normal)) ==> path_before(a, b)
                && !path_before(b, a)
            &&& (x is Parent && y is Normal) ==> path_before(a, b) && !path_before(b, a)
            &&& (x is Normal && y is Normal && text_before(x->Normal_0, y->Normal_0))
                ==> path_before(a, b) && !path_before(b, a)
        },
{
    law_path_order_total(a, b);
    lemma_parts_order(components(a), components(b), i);
}

/// Where the first components are the same, the others decide.
proof fn lemma_parts_order(a: Seq<PartView>, b: Seq<PartView>, i: int)
    requires
        0 <= i <= a.len(),
        i < b.len(),
        a.take(i) == b.take(i),
    ensures
        parts_before(a, b) == parts_before(a.skip(i), b.skip(i)),
        i == a.len() ==> parts_before(a, b),
        i < a.len() && part_before(a[i], b[i]) ==> parts_before(a, b),
    decreases i,
{
    if i == 0 {
        assert(a.skip(0) =~= a && b.skip(0) =~= b);
    } else {
        let x = a.drop_first();
        let y = b.drop_first();
        assert(a[0] == a.take(i)[0] && b[0] == b.take(i)[0]);
        assert(x.take(i - 1) =~= a.take(i).drop_first());
        assert(y.take(i - 1) =~= b.take(i).drop_first());
        lemma_parts_order(x, y, i - 1);
        assert(x.skip(i - 1) =~= a.skip(i));
        assert(y.skip(i - 1) =~= b.skip(i));
        assert(!part_before(a[0], b[0])) by {
            lemma_part_total(a[0], b[0]);
        }
        if i < a.len() {
            assert(x[i - 1] == a[i] && y[i - 1] == b[i]);
        }
    }
}

/// The parent of a path is the shortest beginning of it that names the directory: no shorter one
/// does.
pub proof fn law_parent_is_shortest(path: Seq<char>, k: int)
    requires
        has_parent(path),
        0 <= k < parent_of(path)->0.len(),
    ensures
        components(path.take(k)) != components(path).drop_last(),
{
    let n = lemma_parent_exists(path);
    let least = lemma_parent_length(path, n);
    let chosen = choose|j: int| parent_length(path, j);
    assert(parent_length(path, least));
    assert(parent_length(path, chosen));
}

} // verus!
