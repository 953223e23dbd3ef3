use std::collections::{BTreeSet, HashMap};
use vstd::prelude::*;

verus! {

/// Collects the frame-index pairs cricket allows to collide into an ordered set: every pair
/// cricket reported, each once.
pub fn allowed_link_pairs(raw: &[(usize, usize)]) -> (pairs: BTreeSet<(usize, usize)>)
    ensures
        pairs@ == raw@.to_set(),
{
    let mut pairs: BTreeSet<(usize, usize)> = BTreeSet::new();
    let n = raw.len();
    for i in 0..n
        invariant
            n == raw@.len(),
            pairs@ == raw@.take(i as int).to_set(),
    {
        let pair = raw[i];
        pairs.insert(pair);
        proof {
            let before = raw@.take(i as int);
            let after = raw@.take(i + 1);
            assert(after =~= before.push(pair));
            assert(after.to_set() =~= before.to_set().insert(pair)) by {
                assert forall|p: (usize, usize)| after.contains(p) <==> before.contains(p) || p
                    == pair by {
                    if after.contains(p) {
                        let k = choose|k: int| 0 <= k < after.len() && after[k] == p;
                        if k < before.len() {
                            assert(before[k] == p);
                        }
                    }
                    if before.contains(p) {
                        let k = choose|k: int| 0 <= k < before.len() && before[k] == p;
                        assert(after[k] == p);
                    }
                    if p == pair {
                        assert(after[i as int] == p);
                    }
                }
            }
        }
    }
    assert(raw@.take(n as int) =~= raw@);
    pairs
}

/// When cricket reports every pair normalized (smaller frame index first), every pair of the
/// collected set is normalized too.
pub proof fn lemma_allowed_link_pairs_stay_normalized(raw: Seq<(usize, usize)>)
    requires
        forall|i: int| 0 <= i < raw.len() ==> (#[trigger] raw[i]).0 <= raw[i].1,
    ensures
        forall|p: (usize, usize)| #[trigger] raw.to_set().contains(p) ==> p.0 <= p.1,
{
    assert forall|p: (usize, usize)| #[trigger] raw.to_set().contains(p) implies p.0 <= p.1 by {
        let k = choose|k: int| 0 <= k < raw.len() && raw[k] == p;
        assert(raw[k].0 <= raw[k].1);
    }
}

/// The map from frame index to entry that inserting the entries in order builds: a frame index
/// reported more than once keeps its last entry.
pub open spec fn frame_map<T>(raw: Seq<(usize, T)>) -> Map<usize, T>
    decreases raw.len(),
{
    if raw.len() == 0 {
        Map::empty()
    } else {
        frame_map(raw.drop_last()).insert(raw.last().0, raw.last().1)
    }
}

/// Keys per-link entries by their frame index, as cricket's bounding spheres are; a frame index
/// reported more than once keeps its last entry.
pub fn bounding_spheres<T>(raw: Vec<(usize, T)>) -> (by_frame: HashMap<usize, T>)
    ensures
        by_frame@ == frame_map(raw@),
{
    let ghost entries = raw@;
    let mut by_frame: HashMap<usize, T> = HashMap::new();
    for entry in it: raw
        invariant
            it.seq() == entries,
            by_frame@ == frame_map(entries.take(it.index() as int)),
    {
        let ghost i = it.index();
        let (frame, value) = entry;
        by_frame.insert(frame, value);
        proof {
            assert(entries.take(i + 1).drop_last() =~= entries.take(i as int));
        }
    }
    assert(entries.take(entries.len() as int) =~= entries);
    by_frame
}

/// The frame indices of the map are exactly the frame indices cricket reported, and each maps
/// to the last entry reported for it.
pub proof fn lemma_bounding_spheres_keep_last<T>(raw: Seq<(usize, T)>)
    ensures
        forall|k: usize|
            #[trigger] frame_map(raw).dom().contains(k) <==> exists|i: int|
                0 <= i < raw.len() && (#[trigger] raw[i]).0 == k,
        forall|i: int|
            0 <= i < raw.len() && (forall|j: int| i < j < raw.len() ==> (#[trigger] raw[j]).0 != raw[i].0)
                ==> frame_map(raw)[(#[trigger] raw[i]).0] == raw[i].1,
    decreases raw.len(),
{
    if raw.len() > 0 {
        let init = raw.drop_last();
        lemma_bounding_spheres_keep_last(init);
        let last = raw[raw.len() - 1];
        assert(frame_map(raw) == frame_map(init).insert(last.0, last.1));
        assert forall|k: usize| #[trigger] frame_map(raw).dom().contains(k) <==> exists|i: int|
            0 <= i < raw.len() && (#[trigger] raw[i]).0 == k by {
            if k == last.0 {
                assert(raw[raw.len() - 1].0 == k);
            }
            if frame_map(raw).dom().contains(k) && k != last.0 {
                assert(frame_map(init).dom().contains(k));
                let i = choose|i: int| 0 <= i < init.len() && (#[trigger] init[i]).0 == k;
                assert(raw[i] == init[i]);
            }
            if exists|i: int| 0 <= i < raw.len() && (#[trigger] raw[i]).0 == k {
                let i = choose|i: int| 0 <= i < raw.len() && (#[trigger] raw[i]).0 == k;
                if i < init.len() {
                    assert(init[i] == raw[i]);
                    assert(frame_map(init).dom().contains(k));
                }
            }
        }
        assert forall|i: int|
            0 <= i < raw.len() && (forall|j: int| i < j < raw.len() ==> (#[trigger] raw[j]).0
                != raw[i].0) implies frame_map(raw)[(#[trigger] raw[i]).0] == raw[i].1 by {
            if i < init.len() {
                assert(init[i] == raw[i]);
                assert forall|j: int| i < j < init.len() implies (#[trigger] init[j]).0
                    != init[i].0 by {
                    assert(init[j] == raw[j]);
                }
                assert(raw[raw.len() - 1].0 != raw[i].0);
            }
        }
    }
}

} // verus!
