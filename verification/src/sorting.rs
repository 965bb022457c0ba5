//! The order of enumeration: paths sorted lexicographically.

use crate::text::{lemma_path_order_total, path_order, precedes, spec_precedes, texts};
use vstd::prelude::*;
use vstd::relations::sorted_by;
use vstd::seq_lib::{lemma_sorted_unique, to_multiset_build, to_multiset_insert};

verus! {

/// `paths` in ascending lexicographic order.
pub open spec fn spec_sort_paths(paths: Seq<Seq<char>>) -> Seq<Seq<char>> {
    paths.sort_by(path_order())
}

/// The sorted form of a list of paths is the one arrangement of the same
/// paths, each as often as it occurs, in which no path comes before an
/// earlier one.
pub proof fn lemma_sort_paths_characterized(paths: Seq<Seq<char>>, sorted: Seq<Seq<char>>)
    ensures
        spec_sort_paths(paths).to_multiset() == paths.to_multiset(),
        sorted_by(spec_sort_paths(paths), path_order()),
        sorted_by(sorted, path_order()) && sorted.to_multiset() == paths.to_multiset() ==> sorted
            == spec_sort_paths(paths),
{
    lemma_path_order_total();
    paths.lemma_sort_by_ensures(path_order());
    if sorted_by(sorted, path_order()) && sorted.to_multiset() == paths.to_multiset() {
        lemma_sorted_unique(sorted, spec_sort_paths(paths), path_order());
    }
}

/// A sorted list stays sorted when a path is put in behind those that come
/// before it and ahead of the first that does not.
proof fn lemma_insert_keeps_sorted(sorted: Seq<Seq<char>>, at: int, path: Seq<char>)
    requires
        0 <= at <= sorted.len(),
        sorted_by(sorted, path_order()),
        forall|k: int| 0 <= k < at ==> spec_precedes(#[trigger] sorted[k], path),
        at < sorted.len() ==> !spec_precedes(sorted[at], path),
    ensures
        sorted_by(sorted.insert(at, path), path_order()),
{
    lemma_path_order_total();
    let order = path_order();
    let after = sorted.insert(at, path);
    assert forall|i: int, j: int| 0 <= i < j < after.len() implies #[trigger] order(
        after[i],
        after[j],
    ) by {
        if j < at {
            assert(order(sorted[i], sorted[j]));
        } else if j == at {
            assert(spec_precedes(sorted[i], path));
        } else if i < at {
            assert(order(sorted[i], sorted[j - 1]));
        } else if i == at {
            assert(order(sorted[at], path) || order(path, sorted[at]));
            if j - 1 > at {
                assert(order(sorted[at], sorted[j - 1]));
                assert(order(path, sorted[at]) && order(sorted[at], sorted[j - 1]) ==> order(
                    path,
                    sorted[j - 1],
                ));
            }
        } else {
            assert(order(sorted[i - 1], sorted[j - 1]));
        }
    }
}

/// Sorts `paths` into ascending lexicographic order.
pub fn sort_paths(paths: Vec<String>) -> (sorted: Vec<String>)
    ensures
        texts(sorted@) == spec_sort_paths(texts(paths@)),
{
    let mut sorted: Vec<String> = Vec::new();
    let mut paths = paths;
    let ghost all = texts(paths@);
    let mut i: usize = 0;
    assert(texts(sorted@) =~= Seq::<Seq<char>>::empty());
    assert(all.take(0) =~= Seq::<Seq<char>>::empty());
    while i < paths.len()
        invariant
            i <= paths.len(),
            texts(paths@) == all,
            sorted_by(texts(sorted@), path_order()),
            texts(sorted@).to_multiset() == all.take(i as int).to_multiset(),
        decreases paths.len() - i,
    {
        let path = paths[i].clone();
        let mut at: usize = 0;
        while at < sorted.len() && precedes(sorted[at].as_str(), path.as_str())
            invariant
                at <= sorted.len(),
                forall|k: int| 0 <= k < at ==> spec_precedes(#[trigger] texts(sorted@)[k], path@),
            decreases sorted.len() - at,
        {
            at = at + 1;
        }
        proof {
            let before = texts(sorted@);
            lemma_insert_keeps_sorted(before, at as int, path@);
            to_multiset_insert(before, at as int, path@);
            to_multiset_build(all.take(i as int), path@);
            assert(all.take(i + 1) =~= all.take(i as int).push(path@));
            assert(texts(sorted@.insert(at as int, path)) =~= before.insert(at as int, path@));
        }
        sorted.insert(at, path);
        i = i + 1;
    }
    proof {
        assert(all.take(i as int) =~= all);
        lemma_sort_paths_characterized(all, texts(sorted@));
    }
    sorted
}

} // verus!
