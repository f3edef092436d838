//! The order in which the projects of a scan are listed.

use vstd::prelude::*;
use vstd::seq_lib::*;
use crate::cli::SortBy;
use crate::path::{
    components, is_list_before, is_path_before, lemma_path_order, path_before, path_components,
};
use crate::text::texts;
use crate::project::{ProjectView, RustProject};

verus! {

/// Whether `a` is listed before `b` whatever else is listed: by size the
/// larger total first; by path the earlier path; by last modification the
/// later date first, and a project with a date before one without.
pub open spec fn precedes(a: ProjectView, b: ProjectView, key: SortBy) -> bool {
    match key {
        SortBy::Size => a.total_cleanable() > b.total_cleanable(),
        SortBy::Path => path_before(a.path, b.path),
        SortBy::LastMod => match (a.last_modified, b.last_modified) {
            (Some(x), Some(y)) => y.is_before(x),
            (Some(_), None) => true,
            _ => false,
        },
    }
}

/// Whether no project of `s` stands after one that it precedes.
pub open spec fn is_sorted(s: Seq<RustProject>, key: SortBy) -> bool {
    forall|i: int, j: int| 0 <= i < j < s.len() ==> !precedes(s[j]@, s[i]@, key)
}

/// How many projects at the front of `sorted` precede `x`.
pub open spec fn place_of(sorted: Seq<RustProject>, x: RustProject, key: SortBy) -> int
    decreases sorted.len(),
{
    if sorted.len() > 0 && precedes(sorted[0]@, x@, key) {
        1 + place_of(sorted.drop_first(), x, key)
    } else {
        0
    }
}

/// `sorted` with `x` put in after the projects at its front that precede
/// `x`, and so before every project that ranks equal with it.
pub open spec fn placed(sorted: Seq<RustProject>, x: RustProject, key: SortBy) -> Seq<
    RustProject,
> {
    sorted.insert(place_of(sorted, x, key), x)
}

/// The projects of `s` in the order of the listing: sorted by `key`, and
/// those that rank equal in the order that they had.
pub open spec fn arranged(s: Seq<RustProject>, key: SortBy) -> Seq<RustProject>
    decreases s.len(),
{
    if s.len() == 0 {
        Seq::empty()
    } else {
        placed(arranged(s.drop_first(), key), s[0], key)
    }
}

/// Each key orders the projects strictly, and ranks them: a project that
/// precedes another precedes, or is preceded by, every third.
pub proof fn lemma_precedes_order(a: ProjectView, b: ProjectView, c: ProjectView, key: SortBy)
    ensures
        !precedes(a, a, key),
        precedes(a, b, key) ==> !precedes(b, a, key),
        precedes(a, b, key) && precedes(b, c, key) ==> precedes(a, c, key),
        precedes(a, c, key) ==> precedes(a, b, key) || precedes(b, c, key),
{
    if key == SortBy::Path {
        lemma_path_order(a.path, b.path, c.path);
        lemma_path_order(b.path, a.path, c.path);
    }
}

/// The place of `x` is within `sorted`, all before it precede `x`, and the
/// project at it does not.
pub proof fn lemma_place_of(sorted: Seq<RustProject>, x: RustProject, key: SortBy)
    ensures
        0 <= place_of(sorted, x, key) <= sorted.len(),
        forall|j: int| 0 <= j < place_of(sorted, x, key) ==> precedes(sorted[j]@, x@, key),
        place_of(sorted, x, key) < sorted.len() ==> !precedes(
            sorted[place_of(sorted, x, key)]@,
            x@,
            key,
        ),
    decreases sorted.len(),
{
    if sorted.len() > 0 && precedes(sorted[0]@, x@, key) {
        let rest = sorted.drop_first();
        lemma_place_of(rest, x, key);
        assert forall|j: int| 0 <= j < place_of(sorted, x, key) implies precedes(
            sorted[j]@,
            x@,
            key,
        ) by {
            if j > 0 {
                assert(sorted[j] == rest[j - 1]);
            }
        }
        let p = place_of(rest, x, key);
        if p < rest.len() {
            assert(sorted[p + 1] == rest[p]);
        }
    }
}

/// A position with only preceding projects before it and none at it is the
/// place of `x`.
pub proof fn lemma_place_is(sorted: Seq<RustProject>, x: RustProject, key: SortBy, p: int)
    requires
        0 <= p <= sorted.len(),
        forall|j: int| 0 <= j < p ==> precedes(sorted[j]@, x@, key),
        p < sorted.len() ==> !precedes(sorted[p]@, x@, key),
    ensures
        place_of(sorted, x, key) == p,
{
    lemma_place_of(sorted, x, key);
    let q = place_of(sorted, x, key);
    if q < p {
        assert(precedes(sorted[q]@, x@, key));
    } else if p < q {
        assert(precedes(sorted[p]@, x@, key));
    }
}

/// Putting a project in its place keeps a sorted list sorted.
pub proof fn lemma_placed_sorted(sorted: Seq<RustProject>, x: RustProject, key: SortBy)
    requires
        is_sorted(sorted, key),
    ensures
        is_sorted(placed(sorted, x, key), key),
{
    lemma_place_of(sorted, x, key);
    let p = place_of(sorted, x, key);
    let t = placed(sorted, x, key);
    sorted.insert_ensures(p, x);
    assert forall|i: int, j: int| 0 <= i < j < t.len() implies !precedes(t[j]@, t[i]@, key) by {
        if j == p {
            lemma_precedes_order(t[i]@, x@, x@, key);
        } else if i == p {
            assert(t[j] == sorted[j - 1]);
            if j - 1 > p {
                lemma_precedes_order(sorted[j - 1]@, sorted[p]@, x@, key);
            }
        } else if i < p && j > p {
            assert(t[j] == sorted[j - 1]);
        } else if i > p {
            assert(t[i] == sorted[i - 1]);
            assert(t[j] == sorted[j - 1]);
        } else {
        }
    }
}

/// The listing order is sorted: with the key `Size` no project stands
/// before one with a larger cleanable total; with `LastMod` no project
/// stands before one modified later, and none without a date before one
/// with a date; with `Path` none stands before one whose path comes first.
pub proof fn lemma_arranged_sorted(s: Seq<RustProject>, key: SortBy)
    ensures
        is_sorted(arranged(s, key), key),
    decreases s.len(),
{
    if s.len() > 0 {
        lemma_arranged_sorted(s.drop_first(), key);
        lemma_placed_sorted(arranged(s.drop_first(), key), s[0], key);
    }
}

/// The listing order holds the projects that it was given, each as often
/// as it was given.
pub proof fn lemma_arranged_permutation(s: Seq<RustProject>, key: SortBy)
    ensures
        arranged(s, key).to_multiset() == s.to_multiset(),
        arranged(s, key).len() == s.len(),
    decreases s.len(),
{
    broadcast use to_multiset_insert, to_multiset_build;

    if s.len() == 0 {
        assert(arranged(s, key) =~= s);
    } else {
        let rest = s.drop_first();
        lemma_arranged_permutation(rest, key);
        let a = arranged(rest, key);
        lemma_place_of(a, s[0], key);
        let p = place_of(a, s[0], key);
        a.insert_ensures(p, s[0]);
        to_multiset_insert(a, p, s[0]);
        assert(s =~= rest.insert(0, s[0]));
        to_multiset_insert(rest, 0, s[0]);
    }
}

/// With the key `Size`, every project of the listing has a cleanable total
/// at least as large as each project after it.
pub proof fn lemma_sorted_by_size(s: Seq<RustProject>, i: int, j: int)
    requires
        0 <= i < j < s.len(),
    ensures
        arranged(s, SortBy::Size)[i]@.total_cleanable() >= arranged(
            s,
            SortBy::Size,
        )[j]@.total_cleanable(),
{
    lemma_arranged_sorted(s, SortBy::Size);
    lemma_arranged_permutation(s, SortBy::Size);
    let a = arranged(s, SortBy::Size);
    assert(!precedes(a[j]@, a[i]@, SortBy::Size));
}

/// With the key `LastMod`, every project with a date stands before every
/// project without one, and of two projects with dates the one listed
/// first is not the earlier.
pub proof fn lemma_sorted_by_last_modified(s: Seq<RustProject>, i: int, j: int)
    requires
        0 <= i < j < s.len(),
    ensures
        arranged(s, SortBy::LastMod)[j].last_modified is Some ==> arranged(
            s,
            SortBy::LastMod,
        )[i].last_modified is Some,
        arranged(s, SortBy::LastMod)[j].last_modified is Some ==> !arranged(
            s,
            SortBy::LastMod,
        )[i].last_modified->0.is_before(arranged(s, SortBy::LastMod)[j].last_modified->0),
{
    lemma_arranged_sorted(s, SortBy::LastMod);
    lemma_arranged_permutation(s, SortBy::LastMod);
    let a = arranged(s, SortBy::LastMod);
    assert(!precedes(a[j]@, a[i]@, SortBy::LastMod));
}

/// Whether no two projects of `s` have the same path.
pub open spec fn distinct_paths(s: Seq<RustProject>) -> bool {
    forall|i: int, j: int| 0 <= i < j < s.len() ==> s[i].path@ != s[j].path@
}

/// The listing order keeps the paths of the projects distinct.
pub proof fn lemma_arranged_distinct(s: Seq<RustProject>, key: SortBy)
    requires
        distinct_paths(s),
    ensures
        distinct_paths(arranged(s, key)),
    decreases s.len(),
{
    broadcast use to_multiset_contains;

    if s.len() > 0 {
        let rest = s.drop_first();
        assert forall|i: int, j: int| 0 <= i < j < rest.len() implies rest[i].path@
            != rest[j].path@ by {
            assert(rest[i] == s[i + 1] && rest[j] == s[j + 1]);
        }
        lemma_arranged_distinct(rest, key);
        lemma_arranged_permutation(rest, key);
        let a = arranged(rest, key);
        let x = s[0];
        lemma_place_of(a, x, key);
        let p = place_of(a, x, key);
        let t = placed(a, x, key);
        a.insert_ensures(p, x);
        assert forall|k: int| 0 <= k < a.len() implies a[k].path@ != x.path@ by {
            assert(a.contains(a[k]));
            assert(a.to_multiset().contains(a[k]));
            assert(rest.to_multiset().contains(a[k]));
            assert(rest.contains(a[k]));
            let m = choose|m: int| 0 <= m < rest.len() && rest[m] == a[k];
            assert(s[m + 1] == a[k]);
        }
        assert forall|i: int, j: int| 0 <= i < j < t.len() implies t[i].path@ != t[j].path@ by {
            if i < p {
                assert(t[i] == a[i]);
            } else if i > p {
                assert(t[i] == a[i - 1]);
            }
            if j < p {
                assert(t[j] == a[j]);
            } else if j > p {
                assert(t[j] == a[j - 1]);
            }
        }
    }
}

/// Whether `a` is listed before `b` whatever else is listed.
pub fn comes_before(a: &RustProject, b: &RustProject, key: &SortBy) -> (r: bool)
    ensures
        r == precedes(a@, b@, *key),
{
    match key {
        SortBy::Size => {
            let x: u128 = a.target_size as u128 + a.cargo_cache_size as u128;
            let y: u128 = b.target_size as u128 + b.cargo_cache_size as u128;
            x > y
        },
        SortBy::Path => is_path_before(a.path.as_str(), b.path.as_str()),
        SortBy::LastMod => match (&a.last_modified, &b.last_modified) {
            (Some(x), Some(y)) => y.before(x),
            (Some(_), None) => true,
            _ => false,
        },
    }
}

/// The components of the paths of a list of projects, held beside it so
/// that ordering by path need not take the paths apart again and again.
spec fn keyed(keys: Seq<Vec<Vec<char>>>, projects: Seq<RustProject>) -> bool {
    &&& keys.len() == projects.len()
    &&& forall|i: int|
        0 <= i < keys.len() ==> texts((#[trigger] keys[i])@) == components(projects[i].path@)
}

/// Whether `a` is listed before `b`, with the components of their paths at
/// hand where the order is that of the paths.
fn comes_before_keyed(
    a: &RustProject,
    a_key: &Vec<Vec<char>>,
    b: &RustProject,
    b_key: &Vec<Vec<char>>,
    key: &SortBy,
) -> (r: bool)
    requires
        *key == SortBy::Path ==> texts(a_key@) == components(a.path@) && texts(b_key@)
            == components(b.path@),
    ensures
        r == precedes(a@, b@, *key),
{
    match key {
        SortBy::Path => is_list_before(a_key, b_key),
        _ => comes_before(a, b, key),
    }
}

/// Puts the projects in the order of the listing.
///
/// The order is that of `arranged`: sorted by the key, the projects that
/// rank equal in the order that they came in.
pub fn sort_projects(projects: &mut Vec<RustProject>, sort_by: &SortBy, _use_gb: bool)
    ensures
        final(projects)@ == arranged(old(projects)@, *sort_by),
        is_sorted(final(projects)@, *sort_by),
        final(projects)@.to_multiset() == old(projects)@.to_multiset(),
        final(projects)@.len() == old(projects)@.len(),
{
    let by_path = match sort_by {
        SortBy::Path => true,
        _ => false,
    };
    let mut input: Vec<RustProject> = Vec::new();
    std::mem::swap(projects, &mut input);
    let mut keys: Vec<Vec<Vec<char>>> = Vec::new();
    let ghost all = input@;
    assert(all.skip(all.len() as int) =~= Seq::<RustProject>::empty());
    assert(all.take(all.len() as int) =~= all);
    while input.len() > 0
        invariant
            by_path == (*sort_by == SortBy::Path),
            input@.len() <= all.len(),
            input@ == all.take(input@.len() as int),
            projects@ == arranged(all.skip(input@.len() as int), *sort_by),
            keys@.len() == projects@.len(),
            by_path ==> keyed(keys@, projects@),
        decreases input.len(),
    {
        let ghost n = input@.len() as int;
        let x = input.pop().unwrap();
        let x_key = if by_path {
            path_components(x.path.as_str())
        } else {
            Vec::new()
        };
        let mut p: usize = 0;
        proof {
            lemma_arranged_permutation(all.skip(n), *sort_by);
        }
        while p < projects.len() && comes_before_keyed(&projects[p], &keys[p], &x, &x_key, sort_by)
            invariant
                p <= projects.len(),
                keys@.len() == projects@.len(),
                by_path == (*sort_by == SortBy::Path),
                by_path ==> keyed(keys@, projects@),
                by_path ==> texts(x_key@) == components(x.path@),
                forall|j: int| 0 <= j < p ==> precedes(projects@[j]@, x@, *sort_by),
            decreases projects.len() - p,
        {
            p = p + 1;
        }
        proof {
            lemma_place_is(projects@, x, *sort_by, p as int);
            assert(all.skip(n - 1).drop_first() =~= all.skip(n));
            assert(all.skip(n - 1)[0] == x);
            assert(input@ =~= all.take(n - 1));
        }
        let ghost old_keys = keys@;
        let ghost old_projects = projects@;
        projects.insert(p, x);
        keys.insert(p, x_key);
        proof {
            if by_path {
                assert forall|i: int| 0 <= i < keys@.len() implies texts((#[trigger] keys@[i])@)
                    == components(projects@[i].path@) by {
                    if i < p {
                        assert(keys@[i] == old_keys[i] && projects@[i] == old_projects[i]);
                    } else if i > p {
                        assert(keys@[i] == old_keys[i - 1] && projects@[i] == old_projects[i - 1]);
                    }
                }
            }
        }
    }
    proof {
        assert(all.skip(0) =~= all);
        lemma_arranged_sorted(all, *sort_by);
        lemma_arranged_permutation(all, *sort_by);
    }
}

} // verus!
