//! Candidate selection during a directory walk.
//!
//! The walk itself — reading the directory tree — happens outside the
//! library; it hands over one [`WalkEntry`] per filesystem entry it yields,
//! carrying the entry's path bytes, its depth below the target directory,
//! and whether it is a regular file. The library decides, for each entry,
//! whether it is a conversion candidate: a regular file, within the depth
//! the recursion flag allows, whose extension lower-cases to `ts`. Every
//! other entry is skipped.

use vstd::prelude::*;

use crate::path_model::{is_ts_file, is_ts_path};

verus! {

/// One entry yielded by the directory walk: its path, its depth below the
/// target directory (a direct child has depth 1), and whether it is a
/// regular file.
pub struct WalkEntry {
    pub path: Vec<u8>,
    pub depth: usize,
    pub is_file: bool,
}

/// Whether an entry at this depth is within the walk's scope: the target
/// directory itself (depth 0) is never scanned, and without the recursion
/// flag only direct children are.
pub open spec fn in_scope(depth: int, recursive: bool) -> bool {
    1 <= depth && (recursive || depth <= 1)
}

/// A conversion candidate: a regular file, within scope, whose extension
/// lower-cases to `ts`.
pub open spec fn is_candidate(e: WalkEntry, recursive: bool) -> bool {
    e.is_file && in_scope(e.depth as int, recursive) && is_ts_path(e.path@)
}

/// Classifies one yielded entry: `true` means it goes to the converter,
/// `false` means it is reported as skipped.
pub fn classify_entry(e: &WalkEntry, recursive: bool) -> (r: bool)
    ensures
        r == is_candidate(*e, recursive),
{
    e.is_file && 1 <= e.depth && (recursive || e.depth <= 1) && is_ts_file(&e.path)
}

/// The deepest level the walk may visit: unbounded with the recursion flag,
/// the direct children only without it.
pub fn max_depth_for(recursive: bool) -> (r: usize)
    ensures
        recursive ==> r == usize::MAX,
        !recursive ==> r == 1,
{
    if recursive {
        usize::MAX
    } else {
        1
    }
}

/// The candidates among the walked entries, in walk order.
pub open spec fn candidates_of(entries: Seq<WalkEntry>, recursive: bool) -> Seq<WalkEntry>
    decreases entries.len(),
{
    if entries.len() == 0 {
        Seq::empty()
    } else {
        let rest = candidates_of(entries.drop_last(), recursive);
        if is_candidate(entries.last(), recursive) {
            rest.push(entries.last())
        } else {
            rest
        }
    }
}

/// The paths of the candidates among the walked entries, in walk order.
pub open spec fn candidate_paths(entries: Seq<WalkEntry>, recursive: bool) -> Seq<Seq<u8>> {
    candidates_of(entries, recursive).map_values(|e: WalkEntry| e.path@)
}

/// Selects the candidates' paths from a walk's entries, in walk order.
pub fn select_candidates(entries: &Vec<WalkEntry>, recursive: bool) -> (r: Vec<Vec<u8>>)
    ensures
        r@.map_values(|v: Vec<u8>| v@) == candidate_paths(entries@, recursive),
{
    let ghost whole = entries@;
    let mut out: Vec<Vec<u8>> = Vec::new();
    let mut i: usize = 0;
    while i < entries.len()
        invariant
            i <= whole.len(),
            whole == entries@,
            out@.map_values(|v: Vec<u8>| v@)
                == candidate_paths(whole.take(i as int), recursive),
        decreases whole.len() - i,
    {
        let e = &entries[i];
        let ghost prior = out@;
        proof {
            assert(whole.take(i as int + 1).drop_last() =~= whole.take(i as int));
            assert(whole.take(i as int + 1).last() == whole[i as int]);
        }
        if classify_entry(e, recursive) {
            let path = crate::path_model::copy_bytes(&e.path);
            out.push(path);
            proof {
                assert(out@.map_values(|v: Vec<u8>| v@)
                    =~= prior.map_values(|v: Vec<u8>| v@).push(whole[i as int].path@));
                assert(candidates_of(whole.take(i as int + 1), recursive)
                    == candidates_of(whole.take(i as int), recursive).push(whole[i as int]));
                assert(candidate_paths(whole.take(i as int + 1), recursive)
                    =~= candidate_paths(whole.take(i as int), recursive).push(
                    whole[i as int].path@));
            }
        } else {
            proof {
                assert(candidates_of(whole.take(i as int + 1), recursive)
                    == candidates_of(whole.take(i as int), recursive));
            }
        }
        i = i + 1;
    }
    proof {
        assert(whole.take(whole.len() as int) =~= whole);
    }
    out
}

/// A walk that yields no candidate leads to no conversion work at all.
pub proof fn lemma_no_candidates_no_work(entries: Seq<WalkEntry>, recursive: bool)
    requires
        forall|i: int| 0 <= i < entries.len() ==> !is_candidate(#[trigger] entries[i], recursive),
    ensures
        candidates_of(entries, recursive) == Seq::<WalkEntry>::empty(),
    decreases entries.len(),
{
    if entries.len() > 0 {
        assert(forall|i: int|
            0 <= i < entries.len() - 1 ==> entries.drop_last()[i] == entries[i]);
        lemma_no_candidates_no_work(entries.drop_last(), recursive);
        assert(entries.last() == entries[entries.len() - 1]);
    }
}

/// Selection is sound: everything selected is a candidate drawn from the
/// walked entries. In particular a directory, or a file whose extension
/// does not lower-case to `ts`, is never handed to the converter.
pub proof fn lemma_candidates_sound(entries: Seq<WalkEntry>, recursive: bool)
    ensures
        forall|i: int|
            0 <= i < candidates_of(entries, recursive).len()
                ==> is_candidate(#[trigger] candidates_of(entries, recursive)[i], recursive)
                && entries.contains(candidates_of(entries, recursive)[i]),
    decreases entries.len(),
{
    if entries.len() > 0 {
        let rest = entries.drop_last();
        lemma_candidates_sound(rest, recursive);
        assert forall|x: WalkEntry| rest.contains(x) implies entries.contains(x) by {
            let j = choose|j: int| 0 <= j < rest.len() && rest[j] == x;
            assert(entries[j] == x);
        }
        let selected = candidates_of(entries, recursive);
        let from_rest = candidates_of(rest, recursive);
        assert forall|i: int| 0 <= i < selected.len() implies is_candidate(
            selected[i],
            recursive,
        ) && entries.contains(selected[i]) by {
            if is_candidate(entries.last(), recursive) {
                assert(selected == from_rest.push(entries.last()));
                if i < from_rest.len() {
                    assert(selected[i] == from_rest[i]);
                } else {
                    assert(selected[i] == entries.last());
                    assert(entries[entries.len() - 1] == entries.last());
                }
            } else {
                assert(selected == from_rest);
                assert(selected[i] == from_rest[i]);
            }
        }
    }
}

/// Selection is complete: every candidate among the walked entries is
/// selected.
pub proof fn lemma_candidates_complete(entries: Seq<WalkEntry>, recursive: bool)
    ensures
        forall|i: int|
            0 <= i < entries.len() && is_candidate(#[trigger] entries[i], recursive)
                ==> candidates_of(entries, recursive).contains(entries[i]),
    decreases entries.len(),
{
    if entries.len() > 0 {
        let rest = entries.drop_last();
        lemma_candidates_complete(rest, recursive);
        let selected = candidates_of(entries, recursive);
        let from_rest = candidates_of(rest, recursive);
        assert forall|i: int|
            0 <= i < entries.len() && is_candidate(entries[i], recursive) implies selected
            .contains(entries[i]) by {
            if i < entries.len() - 1 {
                assert(rest[i] == entries[i]);
                assert(from_rest.contains(entries[i]));
                let j = choose|j: int| 0 <= j < from_rest.len() && from_rest[j] == entries[i];
                if is_candidate(entries.last(), recursive) {
                    assert(selected == from_rest.push(entries.last()));
                    assert(selected[j] == entries[i]);
                } else {
                    assert(selected == from_rest);
                }
            } else {
                assert(entries.last() == entries[i]);
                assert(selected == from_rest.push(entries.last()));
                assert(selected[selected.len() - 1] == entries[i]);
            }
        }
    }
}

/// The recursion flag alone decides how deep selection reaches: with it
/// absent, every selected entry is a direct child of the target directory;
/// with it present, a matching file is selected whatever its depth.
pub proof fn lemma_recursion_depth(entries: Seq<WalkEntry>)
    ensures
        forall|i: int|
            0 <= i < candidates_of(entries, false).len()
                ==> (#[trigger] candidates_of(entries, false)[i]).depth == 1,
        forall|i: int|
            0 <= i < entries.len() && (#[trigger] entries[i]).is_file && entries[i].depth >= 1
                && is_ts_path(entries[i].path@)
                ==> candidates_of(entries, true).contains(entries[i]),
{
    lemma_candidates_sound(entries, false);
    lemma_candidates_complete(entries, true);
}

} // verus!
