//! Paths as text with `/` between the names: their components, the rule
//! that excludes a path from a scan, the order that paths are listed in,
//! and how a name is put under a directory.

use vstd::prelude::*;
use vstd::string::*;
use crate::text::{
    bounds_within, chars_of, contains, contains_in, lemma_first_piece_starts, lemma_split_joined,
    parts, same_text, slice_of, split, split_in, string_texts, texts,
};

verus! {

/// Whether a piece between two separators counts as a name: the empty piece
/// and the single dot do not.
pub open spec fn is_kept(piece: Seq<char>) -> bool {
    piece.len() > 0 && piece != seq!['.']
}

/// The pieces that count as names, in their order.
pub open spec fn kept(pieces: Seq<Seq<char>>) -> Seq<Seq<char>>
    decreases pieces.len(),
{
    if pieces.len() == 0 {
        Seq::empty()
    } else if is_kept(pieces.last()) {
        kept(pieces.drop_last()).push(pieces.last())
    } else {
        kept(pieces.drop_last())
    }
}

/// What stands before the names of a path: the root `/` of an absolute
/// path, or the dot that a relative path begins with.
pub open spec fn leading(path: Seq<char>) -> Seq<Seq<char>> {
    if path.len() > 0 && path[0] == '/' {
        seq![seq!['/']]
    } else if split(path, '/')[0] == seq!['.'] {
        seq![seq!['.']]
    } else {
        Seq::empty()
    }
}

/// The components of a path: the root or the leading dot, then the names.
/// Repeated separators, a separator at the end and single dots after the
/// beginning leave no component.
pub open spec fn components(path: Seq<char>) -> Seq<Seq<char>> {
    leading(path) + kept(split(path, '/'))
}

/// Whether one of the `excluded` texts stands somewhere in the component.
pub open spec fn component_excluded(component: Seq<char>, excluded: Seq<Seq<char>>) -> bool {
    exists|j: int| 0 <= j < excluded.len() && contains(component, #[trigger] excluded[j])
}

/// Whether the component begins with a dot.
pub open spec fn is_hidden(component: Seq<char>) -> bool {
    component.len() > 0 && component[0] == '.'
}

/// Whether a component alone puts its path out of a scan.
pub open spec fn component_skipped(
    component: Seq<char>,
    excluded: Seq<Seq<char>>,
    exclude_hidden: bool,
) -> bool {
    component_excluded(component, excluded) || (exclude_hidden && is_hidden(component))
}

/// Whether a scan passes over the path: whether one of its components holds
/// an excluded text or, where hidden directories are excluded, begins with
/// a dot.
pub open spec fn path_excluded(
    path: Seq<char>,
    excluded: Seq<Seq<char>>,
    exclude_hidden: bool,
) -> bool {
    exists|i: int|
        0 <= i < components(path).len() && component_skipped(
            #[trigger] components(path)[i],
            excluded,
            exclude_hidden,
        )
}

/// Whether the last component of the path is `name`.
pub open spec fn is_named(path: Seq<char>, name: Seq<char>) -> bool {
    components(path).len() > 0 && components(path).last() == name
}

/// Whether `a` comes before `b` in the order of the dictionary, character
/// by character, a text before every text that it begins.
pub open spec fn text_before(a: Seq<char>, b: Seq<char>) -> bool
    decreases a.len(),
{
    if b.len() == 0 {
        false
    } else if a.len() == 0 {
        true
    } else if a[0] == b[0] {
        text_before(a.drop_first(), b.drop_first())
    } else {
        a[0] < b[0]
    }
}

/// The rank of a component: the root comes before the dot, the dot before
/// the double dot, and the double dot before every name.
pub open spec fn component_rank(component: Seq<char>) -> int {
    if component == seq!['/'] {
        0
    } else if component == seq!['.'] {
        1
    } else if component == seq!['.', '.'] {
        2
    } else {
        3
    }
}

/// Whether the component `a` comes before `b`: by rank, and among names
/// in the order of the dictionary.
pub open spec fn component_before(a: Seq<char>, b: Seq<char>) -> bool {
    component_rank(a) < component_rank(b) || (component_rank(a) == component_rank(b)
        && text_before(a, b))
}

/// Whether `a` comes before `b`, component by component, a list before
/// every list that it begins.
pub open spec fn list_before(a: Seq<Seq<char>>, b: Seq<Seq<char>>) -> bool
    decreases a.len(),
{
    if b.len() == 0 {
        false
    } else if a.len() == 0 {
        true
    } else if a[0] == b[0] {
        list_before(a.drop_first(), b.drop_first())
    } else {
        component_before(a[0], b[0])
    }
}

/// The order of paths: by their components.
pub open spec fn path_before(a: Seq<char>, b: Seq<char>) -> bool {
    list_before(components(a), components(b))
}

/// No text comes before itself.
pub proof fn lemma_text_irreflexive(a: Seq<char>)
    ensures
        !text_before(a, a),
    decreases a.len(),
{
    if a.len() > 0 {
        lemma_text_irreflexive(a.drop_first());
    }
}

/// Of two different texts one comes before the other.
pub proof fn lemma_text_total(a: Seq<char>, b: Seq<char>)
    ensures
        text_before(a, b) || a == b || text_before(b, a),
    decreases a.len(),
{
    if a.len() == 0 || b.len() == 0 {
        if a.len() == 0 && b.len() == 0 {
            assert(a =~= b);
        }
    } else if a[0] == b[0] {
        lemma_text_total(a.drop_first(), b.drop_first());
        if a.drop_first() == b.drop_first() {
            assert(a =~= seq![a[0]] + a.drop_first());
            assert(b =~= seq![b[0]] + b.drop_first());
        }
    } else {
    }
}

/// The order of texts is transitive.
pub proof fn lemma_text_transitive(a: Seq<char>, b: Seq<char>, c: Seq<char>)
    requires
        text_before(a, b),
        text_before(b, c),
    ensures
        text_before(a, c),
    decreases a.len(),
{
    if a.len() > 0 && a[0] == b[0] && b[0] == c[0] {
        lemma_text_transitive(a.drop_first(), b.drop_first(), c.drop_first());
    }
}

/// No list of components comes before itself.
pub proof fn lemma_list_irreflexive(a: Seq<Seq<char>>)
    ensures
        !list_before(a, a),
    decreases a.len(),
{
    if a.len() > 0 {
        lemma_list_irreflexive(a.drop_first());
    }
}

/// Of two different lists of components one comes before the other.
pub proof fn lemma_list_total(a: Seq<Seq<char>>, b: Seq<Seq<char>>)
    ensures
        list_before(a, b) || a == b || list_before(b, a),
    decreases a.len(),
{
    if a.len() == 0 || b.len() == 0 {
        if a.len() == 0 && b.len() == 0 {
            assert(a =~= b);
        }
    } else if a[0] == b[0] {
        lemma_list_total(a.drop_first(), b.drop_first());
        if a.drop_first() == b.drop_first() {
            assert(a =~= seq![a[0]] + a.drop_first());
            assert(b =~= seq![b[0]] + b.drop_first());
        }
    } else {
        lemma_text_total(a[0], b[0]);
    }
}

/// The order of components is strict and transitive.
pub proof fn lemma_component_order(a: Seq<char>, b: Seq<char>, c: Seq<char>)
    ensures
        !component_before(a, a),
        component_before(a, b) && component_before(b, c) ==> component_before(a, c),
{
    lemma_text_irreflexive(a);
    if component_before(a, b) && component_before(b, c) && component_rank(a) == component_rank(b)
        && component_rank(b) == component_rank(c) {
        lemma_text_transitive(a, b, c);
    }
}

/// The order of lists of components is transitive.
pub proof fn lemma_list_transitive(a: Seq<Seq<char>>, b: Seq<Seq<char>>, c: Seq<Seq<char>>)
    requires
        list_before(a, b),
        list_before(b, c),
    ensures
        list_before(a, c),
    decreases a.len(),
{
    if a.len() > 0 {
        if a[0] == b[0] && b[0] == c[0] {
            lemma_list_transitive(a.drop_first(), b.drop_first(), c.drop_first());
        } else if a[0] == b[0] {
        } else if b[0] == c[0] {
        } else {
            lemma_component_order(a[0], b[0], c[0]);
        }
    }
}

/// The order of paths is a strict order in which a path that does not come
/// before another comes after every path that the other comes after.
pub proof fn lemma_path_order(a: Seq<char>, b: Seq<char>, c: Seq<char>)
    ensures
        !path_before(a, a),
        path_before(a, b) ==> !path_before(b, a),
        path_before(a, b) && path_before(b, c) ==> path_before(a, c),
        path_before(a, c) ==> path_before(a, b) || path_before(b, c),
{
    let x = components(a);
    let y = components(b);
    let z = components(c);
    lemma_list_irreflexive(x);
    if list_before(x, y) && list_before(y, x) {
        lemma_list_transitive(x, y, x);
    }
    if list_before(x, y) && list_before(y, z) {
        lemma_list_transitive(x, y, z);
    }
    if list_before(x, z) {
        lemma_list_total(x, y);
        if list_before(y, x) {
            lemma_list_transitive(y, x, z);
        }
    }
}

/// Whether `a` comes before `b` in the order of the dictionary.
pub fn is_text_before(a: &Vec<char>, b: &Vec<char>) -> (r: bool)
    ensures
        r == text_before(a@, b@),
{
    let mut i: usize = 0;
    assert(a@.skip(0) =~= a@ && b@.skip(0) =~= b@);
    while i < a.len() && i < b.len() && a[i] == b[i]
        invariant
            i <= a.len(),
            i <= b.len(),
            text_before(a@, b@) == text_before(a@.skip(i as int), b@.skip(i as int)),
        decreases a.len() - i,
    {
        assert(a@.skip(i as int).drop_first() =~= a@.skip(i as int + 1));
        assert(b@.skip(i as int).drop_first() =~= b@.skip(i as int + 1));
        i = i + 1;
    }
    if i == b.len() {
        false
    } else if i == a.len() {
        true
    } else {
        a[i] < b[i]
    }
}

/// The rank of a component.
pub fn rank_of(component: &Vec<char>) -> (rank: u8)
    ensures
        rank == component_rank(component@),
{
    let n = component.len();
    if n == 1 && component[0] == '/' {
        assert(component@ =~= seq!['/']);
        0
    } else if n == 1 && component[0] == '.' {
        assert(component@ =~= seq!['.']);
        1
    } else if n == 2 && component[0] == '.' && component[1] == '.' {
        assert(component@ =~= seq!['.', '.']);
        2
    } else {
        proof {
            if component@ == seq!['/'] {
                assert(component@[0] == '/');
            }
            if component@ == seq!['.'] {
                assert(component@[0] == '.');
            }
            if component@ == seq!['.', '.'] {
                assert(component@[0] == '.' && component@[1] == '.');
            }
        }
        3
    }
}

/// Whether `a` comes before `b`, component by component.
pub fn is_list_before(a: &Vec<Vec<char>>, b: &Vec<Vec<char>>) -> (r: bool)
    ensures
        r == list_before(texts(a@), texts(b@)),
{
    let mut i: usize = 0;
    assert(texts(a@).skip(0) =~= texts(a@) && texts(b@).skip(0) =~= texts(b@));
    while i < a.len() && i < b.len() && same_text(&a[i], &b[i])
        invariant
            i <= a.len(),
            i <= b.len(),
            list_before(texts(a@), texts(b@)) == list_before(
                texts(a@).skip(i as int),
                texts(b@).skip(i as int),
            ),
        decreases a.len() - i,
    {
        assert(texts(a@).skip(i as int).drop_first() =~= texts(a@).skip(i as int + 1));
        assert(texts(b@).skip(i as int).drop_first() =~= texts(b@).skip(i as int + 1));
        i = i + 1;
    }
    if i == b.len() {
        false
    } else if i == a.len() {
        true
    } else {
        let x = rank_of(&a[i]);
        let y = rank_of(&b[i]);
        x < y || (x == y && is_text_before(&a[i], &b[i]))
    }
}

/// The bounds of the components of the path that `p` holds.
pub fn component_bounds(p: &Vec<char>) -> (r: Vec<(usize, usize)>)
    ensures
        bounds_within(r@, 0, p@.len() as int),
        parts(p@, r@) == components(p@),
{
    let pieces = split_in(p, 0, p.len(), '/');
    let mut out: Vec<(usize, usize)> = Vec::new();
    proof {
        assert(p@.subrange(0, p@.len() as int) =~= p@);
    }
    let ghost all = parts(p@, pieces@);
    let first = pieces[0];
    if p.len() > 0 && p[0] == '/' {
        out.push((0, 1));
        assert(p@.subrange(0, 1) =~= seq!['/']);
        assert(parts(p@, out@) =~= leading(p@));
    } else if first.1 - first.0 == 1 && p[first.0] == '.' {
        proof {
            assert(all[0] =~= seq!['.']);
            lemma_first_piece_starts(p@, '/');
            assert(all[0] == p@.subrange(first.0 as int, first.1 as int));
            assert(p@.subrange(0, 1) =~= seq!['.']);
        }
        out.push((0, 1));
        assert(parts(p@, out@) =~= leading(p@));
    } else {
        proof {
            if all[0] == seq!['.'] {
                assert(all[0].len() == 1);
                assert(all[0][0] == '.');
            }
            assert(parts(p@, out@) =~= leading(p@));
        }
    }
    let mut k: usize = 0;
    assert(all.take(0) =~= Seq::<Seq<char>>::empty());
    assert(parts(p@, out@) =~= leading(p@) + kept(all.take(0)));
    while k < pieces.len()
        invariant
            k <= pieces.len(),
            all == parts(p@, pieces@),
            all == split(p@, '/'),
            bounds_within(pieces@, 0, p@.len() as int),
            bounds_within(out@, 0, p@.len() as int),
            parts(p@, out@) == leading(p@) + kept(all.take(k as int)),
        decreases pieces.len() - k,
    {
        let (a, b) = pieces[k];
        let ghost before = parts(p@, out@);
        proof {
            assert(all.take(k as int + 1).drop_last() =~= all.take(k as int));
            assert(all.take(k as int + 1).last() == all[k as int]);
            assert(all[k as int] == p@.subrange(a as int, b as int));
        }
        if b > a && !(b - a == 1 && p[a] == '.') {
            proof {
                let name = p@.subrange(a as int, b as int);
                if name == seq!['.'] {
                    assert(name.len() == 1);
                    assert(name[0] == '.');
                }
                assert(is_kept(name));
            }
            out.push((a, b));
            assert(parts(p@, out@) =~= before.push(all[k as int]));
        } else {
            proof {
                if b > a {
                    assert(all[k as int] =~= seq!['.']);
                }
                assert(!is_kept(all[k as int]));
            }
        }
        k = k + 1;
    }
    assert(all.take(k as int) =~= all);
    out
}

/// The components of a path.
pub fn path_components(path: &str) -> (r: Vec<Vec<char>>)
    ensures
        texts(r@) == components(path@),
{
    let p = chars_of(path);
    let bounds = component_bounds(&p);
    let mut out: Vec<Vec<char>> = Vec::new();
    let mut k: usize = 0;
    assert(texts(out@) =~= components(path@).take(0));
    while k < bounds.len()
        invariant
            k <= bounds.len(),
            p@ == path@,
            bounds_within(bounds@, 0, p@.len() as int),
            parts(p@, bounds@) == components(path@),
            texts(out@) == components(path@).take(k as int),
        decreases bounds.len() - k,
    {
        let (a, b) = bounds[k];
        let ghost before = texts(out@);
        let name = slice_of(&p, a, b);
        assert(parts(p@, bounds@)[k as int] == name@);
        out.push(name);
        assert(texts(out@) =~= before.push(components(path@)[k as int]));
        k = k + 1;
        assert(texts(out@) =~= components(path@).take(k as int));
    }
    assert(components(path@).take(k as int) =~= components(path@));
    out
}

/// Whether `a` comes before `b` in the order of paths.
pub fn is_path_before(a: &str, b: &str) -> (r: bool)
    ensures
        r == path_before(a@, b@),
{
    let x = path_components(a);
    let y = path_components(b);
    is_list_before(&x, &y)
}

/// The texts of a list of strings, each in a buffer.
pub fn buffers_of(list: &Vec<String>) -> (r: Vec<Vec<char>>)
    ensures
        texts(r@) == string_texts(list@),
{
    let mut r: Vec<Vec<char>> = Vec::new();
    let mut i: usize = 0;
    assert(texts(r@) =~= string_texts(list@).take(0));
    while i < list.len()
        invariant
            i <= list.len(),
            texts(r@) == string_texts(list@).take(i as int),
        decreases list.len() - i,
    {
        let b = chars_of(list[i].as_str());
        let ghost before = texts(r@);
        r.push(b);
        assert(texts(r@) =~= before.push(list@[i as int]@));
        i = i + 1;
        assert(texts(r@) =~= string_texts(list@).take(i as int));
    }
    assert(string_texts(list@).take(i as int) =~= string_texts(list@));
    r
}

/// Whether one of the `excluded` texts stands somewhere in the component.
pub fn is_component_excluded(component: &Vec<char>, excluded: &Vec<Vec<char>>) -> (r: bool)
    ensures
        r == component_excluded(component@, texts(excluded@)),
{
    let mut j: usize = 0;
    assert(component@.subrange(0, component@.len() as int) =~= component@);
    while j < excluded.len()
        invariant
            j <= excluded.len(),
            component@.subrange(0, component@.len() as int) == component@,
            forall|i: int| 0 <= i < j ==> !contains(component@, #[trigger] texts(excluded@)[i]),
        decreases excluded.len() - j,
    {
        if contains_in(component, 0, component.len(), &excluded[j]) {
            assert(contains(component@, texts(excluded@)[j as int]));
            return true;
        }
        j = j + 1;
    }
    false
}

/// Whether a scan passes over the path.
pub fn is_path_excluded(path: &str, excluded_dirs: &Vec<String>, exclude_hidden: bool) -> (r:
    bool)
    ensures
        r == path_excluded(path@, string_texts(excluded_dirs@), exclude_hidden),
{
    let parts = path_components(path);
    let excluded = buffers_of(excluded_dirs);
    let mut i: usize = 0;
    while i < parts.len()
        invariant
            i <= parts.len(),
            texts(parts@) == components(path@),
            texts(excluded@) == string_texts(excluded_dirs@),
            forall|k: int|
                0 <= k < i ==> !component_skipped(
                    #[trigger] components(path@)[k],
                    string_texts(excluded_dirs@),
                    exclude_hidden,
                ),
        decreases parts.len() - i,
    {
        let c = &parts[i];
        assert(c@ == components(path@)[i as int]);
        if is_component_excluded(c, &excluded) {
            return true;
        }
        if exclude_hidden && c.len() > 0 && c[0] == '.' {
            return true;
        }
        i = i + 1;
    }
    false
}

/// Whether the last component of the path is `name`.
pub fn has_name(path: &str, name: &str) -> (r: bool)
    ensures
        r == is_named(path@, name@),
{
    let parts = path_components(path);
    if parts.len() == 0 {
        return false;
    }
    let wanted = chars_of(name);
    let last = &parts[parts.len() - 1];
    assert(last@ == components(path@).last());
    same_text(last, &wanted)
}

/// `name` under the directory `base`: joined by one separator, which is
/// left out where `base` is empty or ends with one. A `name` that begins at
/// the root stands for itself.
pub open spec fn joined(base: Seq<char>, name: Seq<char>) -> Seq<char> {
    if name.len() > 0 && name[0] == '/' {
        name
    } else if base.len() == 0 || base.last() == '/' {
        base + name
    } else {
        base + seq!['/'] + name
    }
}

/// Whether a component is a name, and not the root, the dot or the double
/// dot.
pub open spec fn is_plain_name(component: Seq<char>) -> bool {
    component != seq!['/'] && component != seq!['.'] && component != seq!['.', '.']
}

/// The name that a path ends in: its last component where that is a name,
/// and the empty text otherwise.
pub open spec fn base_name(path: Seq<char>) -> Seq<char> {
    if components(path).len() > 0 && is_plain_name(components(path).last()) {
        components(path).last()
    } else {
        Seq::empty()
    }
}

/// The names among two lists of pieces are those of the first list, then
/// those of the second.
pub proof fn lemma_kept_joined(a: Seq<Seq<char>>, b: Seq<Seq<char>>)
    ensures
        kept(a + b) == kept(a) + kept(b),
    decreases b.len(),
{
    if b.len() == 0 {
        assert(a + b =~= a);
        assert(kept(a) + kept(b) =~= kept(a));
    } else {
        lemma_kept_joined(a, b.drop_last());
        assert((a + b).drop_last() =~= a + b.drop_last());
        assert((a + b).last() == b.last());
        if is_kept(b.last()) {
            assert(kept(a) + kept(b.drop_last()).push(b.last()) =~= (kept(a) + kept(
                b.drop_last(),
            )).push(b.last()));
        }
    }
}

/// A single piece has itself for its names where it counts as a name,
/// and none where it does not.
pub proof fn lemma_kept_single(piece: Seq<char>)
    ensures
        kept(seq![piece]) == (if is_kept(piece) {
            seq![piece]
        } else {
            Seq::<Seq<char>>::empty()
        }),
{
    reveal_with_fuel(kept, 2);
    assert(seq![piece].drop_last() =~= Seq::<Seq<char>>::empty());
    assert(seq![piece].last() == piece);
    if is_kept(piece) {
        assert(Seq::<Seq<char>>::empty().push(piece) =~= seq![piece]);
    }
}

/// The components of an entry of a directory begin with the components of
/// the directory, for an entry whose name does not begin at the root.
pub proof fn lemma_components_below(parent: Seq<char>, name: Seq<char>)
    requires
        name.len() == 0 || name[0] != '/',
    ensures
        components(parent).len() <= components(joined(parent, name)).len(),
        forall|i: int|
            0 <= i < components(parent).len() ==> components(joined(parent, name))[i]
                == #[trigger] components(parent)[i],
{
    let child = joined(parent, name);
    let empty = Seq::<char>::empty();
    if parent.len() == 0 {
        assert(split(parent, '/') =~= seq![parent]);
        lemma_kept_single(parent);
        assert(components(parent) =~= Seq::<Seq<char>>::empty());
    } else if parent.last() == '/' {
        let stem = parent.drop_last();
        assert(parent =~= stem + seq!['/'] + empty);
        assert(child =~= stem + seq!['/'] + name);
        lemma_split_joined(stem, empty, '/');
        lemma_split_joined(stem, name, '/');
        lemma_first_piece_starts(stem, '/');
        assert(split(empty, '/') =~= seq![empty]);
        lemma_kept_joined(split(stem, '/'), seq![empty]);
        lemma_kept_joined(split(stem, '/'), split(name, '/'));
        lemma_kept_single(empty);
        assert(child[0] == parent[0]);
        assert(split(child, '/')[0] == split(parent, '/')[0]);
        assert(components(child) =~= components(parent) + kept(split(name, '/')));
    } else {
        assert(child =~= parent + seq!['/'] + name);
        lemma_split_joined(parent, name, '/');
        lemma_first_piece_starts(parent, '/');
        lemma_kept_joined(split(parent, '/'), split(name, '/'));
        assert(child[0] == parent[0]);
        assert(split(child, '/')[0] == split(parent, '/')[0]);
        assert(components(child) =~= components(parent) + kept(split(name, '/')));
    }
}

/// What lies under a path that a scan passes over is passed over with it:
/// the entries of an excluded directory, by whatever names, are excluded.
pub proof fn lemma_excluded_below(
    parent: Seq<char>,
    name: Seq<char>,
    excluded: Seq<Seq<char>>,
    exclude_hidden: bool,
)
    requires
        name.len() == 0 || name[0] != '/',
        path_excluded(parent, excluded, exclude_hidden),
    ensures
        path_excluded(joined(parent, name), excluded, exclude_hidden),
{
    lemma_components_below(parent, name);
    let i = choose|i: int|
        0 <= i < components(parent).len() && component_skipped(
            #[trigger] components(parent)[i],
            excluded,
            exclude_hidden,
        );
    assert(components(joined(parent, name))[i] == components(parent)[i]);
}

/// `name` under the directory `base`.
pub fn join_path(base: &str, name: &str) -> (r: String)
    ensures
        r@ == joined(base@, name@),
{
    let b = chars_of(base);
    let n = chars_of(name);
    proof {
        reveal_strlit("/");
    }
    if n.len() > 0 && n[0] == '/' {
        name.to_owned()
    } else if b.len() == 0 || b[b.len() - 1] == '/' {
        let mut r = base.to_owned();
        r.append(name);
        r
    } else {
        let mut r = base.to_owned();
        r.append("/");
        r.append(name);
        assert(r@ =~= base@ + seq!['/'] + name@);
        r
    }
}

/// Whether a buffer holds exactly the characters of `word`.
pub fn text_is(v: &Vec<char>, word: &str) -> (r: bool)
    ensures
        r == (v@ == word@),
{
    let w = chars_of(word);
    same_text(v, &w)
}

/// The name that a path ends in.
pub fn file_name_of(path: &str) -> (r: String)
    ensures
        r@ == base_name(path@),
{
    let p = chars_of(path);
    let bounds = component_bounds(&p);
    if bounds.len() == 0 {
        return String::new();
    }
    let (a, b) = bounds[bounds.len() - 1];
    let last = path.substring_char(a, b);
    proof {
        assert(parts(p@, bounds@)[bounds@.len() - 1] == p@.subrange(a as int, b as int));
        assert(last@ == components(path@).last());
        if last@ == seq!['/'] || last@ == seq!['.'] || last@ == seq!['.', '.'] {
            assert(last@.len() <= 2);
        }
    }
    let plain = !(b - a == 1 && (p[a] == '/' || p[a] == '.')) && !(b - a == 2 && p[a] == '.' && p[a
        + 1] == '.');
    proof {
        if !plain {
            if b - a == 1 {
                assert(last@ =~= seq![p@[a as int]]);
            } else {
                assert(last@ =~= seq!['.', '.']);
            }
        } else {
            if last@ == seq!['/'] {
                assert(last@[0] == '/');
            }
            if last@ == seq!['.'] {
                assert(last@[0] == '.');
            }
            if last@ == seq!['.', '.'] {
                assert(last@[0] == '.' && last@[1] == '.');
            }
        }
    }
    if plain {
        last.to_owned()
    } else {
        String::new()
    }
}

} // verus!
