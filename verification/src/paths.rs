//! Sets of paths, held as vectors of strings.

use vstd::prelude::*;

verus! {

/// The set of paths that a vector holds.
pub open spec fn path_set(paths: Seq<String>) -> Set<Seq<char>> {
    Set::new(|p: Seq<char>| exists|i: int| 0 <= i < paths.len() && #[trigger] paths[i]@ == p)
}

/// No path occurs twice.
pub open spec fn distinct_paths(paths: Seq<String>) -> bool {
    forall|i: int, j: int| 0 <= i < paths.len() && 0 <= j < paths.len() && i != j ==> paths[i]@ != paths[j]@
}

/// Whether `path` is one of `paths`.
pub fn contains_path(paths: &Vec<String>, path: &String) -> (r: bool)
    ensures
        r == path_set(paths@).contains(path@),
{
    let mut i: usize = 0;
    while i < paths.len()
        invariant
            i <= paths.len(),
            forall|j: int| 0 <= j < i ==> paths@[j]@ != path@,
        decreases paths.len() - i,
    {
        if paths[i] == *path {
            assert(paths@[i as int]@ == path@);
            return true;
        }
        i = i + 1;
    }
    false
}

/// Adds `path` unless it is already there.
pub fn insert_path(paths: &mut Vec<String>, path: String)
    ensures
        path_set(final(paths)@) == path_set(old(paths)@).insert(path@),
        distinct_paths(old(paths)@) ==> distinct_paths(final(paths)@),
{
    if !contains_path(paths, &path) {
        let ghost before = paths@;
        let ghost p = path@;
        paths.push(path);
        assert(path_set(paths@) =~= path_set(before).insert(p)) by {
            assert(paths@[before.len() as int]@ == p);
            assert forall|q: Seq<char>| path_set(before).contains(q) implies path_set(paths@).contains(q) by {
                let i = choose|i: int| 0 <= i < before.len() && #[trigger] before[i]@ == q;
                assert(paths@[i]@ == q);
            }
        }
    } else {
        assert(path_set(paths@) =~= path_set(paths@).insert(path@));
    }
}

/// Adds every path of `more` that is not there yet.
pub fn extend_paths(paths: &mut Vec<String>, more: &Vec<String>)
    ensures
        path_set(final(paths)@) == path_set(old(paths)@).union(path_set(more@)),
        distinct_paths(old(paths)@) ==> distinct_paths(final(paths)@),
{
    let ghost start = paths@;
    let mut i: usize = 0;
    while i < more.len()
        invariant
            i <= more.len(),
            path_set(paths@) == path_set(start).union(path_set(more@.take(i as int))),
            distinct_paths(start) ==> distinct_paths(paths@),
        decreases more.len() - i,
    {
        insert_path(paths, more[i].clone());
        assert(path_set(more@.take(i + 1)) =~= path_set(more@.take(i as int)).insert(more@[i as int]@)) by {
            assert(more@.take(i + 1)[i as int] == more@[i as int]);
            assert forall|q: Seq<char>| path_set(more@.take(i + 1)).contains(q) implies
                path_set(more@.take(i as int)).insert(more@[i as int]@).contains(q) by {
                let k = choose|k: int| 0 <= k < i + 1 && #[trigger] more@.take(i + 1)[k]@ == q;
                if k < i {
                    assert(more@.take(i as int)[k]@ == q);
                }
            }
            assert forall|q: Seq<char>| path_set(more@.take(i as int)).contains(q) implies
                path_set(more@.take(i + 1)).contains(q) by {
                let k = choose|k: int| 0 <= k < i && #[trigger] more@.take(i as int)[k]@ == q;
                assert(more@.take(i + 1)[k]@ == q);
            }
        }
        assert(path_set(start).union(path_set(more@.take(i + 1))) =~= path_set(start).union(path_set(more@.take(i as int))).insert(more@[i as int]@));
        i = i + 1;
    }
    assert(more@.take(more.len() as int) =~= more@);
}

} // verus!
