use vstd::prelude::*;

verus! {

/// One entry of cricket's per-link sphere table as it crosses the FFI boundary: the link's index
/// and the geometry indices of the spheres attached to that link.
#[derive(Debug)]
pub struct LinkSpheres {
    pub link_index: usize,
    pub sphere_indices: Vec<usize>,
}

/// The link index of every entry, in the order cricket reported them.
pub open spec fn link_keys(raw: Seq<LinkSpheres>) -> Seq<usize> {
    raw.map_values(|e: LinkSpheres| e.link_index)
}

/// Entry `a` comes before entry `b` once the entries are ordered by key, entries with equal keys
/// keeping the order they came in.
pub open spec fn precedes(keys: Seq<usize>, a: int, b: int) -> bool {
    keys[a] < keys[b] || (keys[a] == keys[b] && a < b)
}

/// How many of the first `m` entries come before entry `j`.
pub open spec fn count_preceding(keys: Seq<usize>, j: int, m: int) -> nat
    decreases m,
{
    if m <= 0 {
        0
    } else {
        count_preceding(keys, j, m - 1) + if precedes(keys, m - 1, j) {
            1nat
        } else {
            0nat
        }
    }
}

/// The position entry `j` takes when the entries are stably sorted by key: the number of
/// entries that come before it.
pub open spec fn stable_rank(keys: Seq<usize>, j: int) -> nat {
    count_preceding(keys, j, keys.len() as int)
}

/// No more than `m` of the first `m` entries come before `j`, and `j` itself never does.
proof fn lemma_count_preceding_bound(keys: Seq<usize>, j: int, m: int)
    requires
        0 <= j < keys.len(),
        0 <= m <= keys.len(),
    ensures
        count_preceding(keys, j, m) <= m,
        j < m ==> count_preceding(keys, j, m) + 1 <= m,
    decreases m,
{
    if m > 0 {
        lemma_count_preceding_bound(keys, j, m - 1);
    }
}

/// When `a` comes before `b`, everything before `a` is also before `b`, and so is `a` itself.
proof fn lemma_count_preceding_grows(keys: Seq<usize>, a: int, b: int, m: int)
    requires
        0 <= a < keys.len(),
        0 <= b < keys.len(),
        0 <= m <= keys.len(),
        precedes(keys, a, b),
    ensures
        count_preceding(keys, b, m) >= count_preceding(keys, a, m) + if a < m {
            1int
        } else {
            0int
        },
    decreases m,
{
    if m > 0 {
        lemma_count_preceding_grows(keys, a, b, m - 1);
    }
}

/// Every entry's stable rank is a position of the output.
pub proof fn lemma_stable_rank_in_range(keys: Seq<usize>, j: int)
    requires
        0 <= j < keys.len(),
    ensures
        stable_rank(keys, j) < keys.len(),
{
    lemma_count_preceding_bound(keys, j, keys.len() as int);
}

/// Distinct entries get distinct stable ranks, so the entries fill the output one to a position.
pub proof fn lemma_stable_rank_injective(keys: Seq<usize>, a: int, b: int)
    requires
        0 <= a < keys.len(),
        0 <= b < keys.len(),
        a != b,
    ensures
        stable_rank(keys, a) != stable_rank(keys, b),
{
    if precedes(keys, a, b) {
        lemma_count_preceding_grows(keys, a, b, keys.len() as int);
    } else {
        lemma_count_preceding_grows(keys, b, a, keys.len() as int);
    }
}

/// The output is ordered by link index, and entries with equal link indices keep the order
/// they came in: an entry that comes before another lands at an earlier position.
pub proof fn lemma_per_link_spheres_sorted(raw: Seq<LinkSpheres>, a: int, b: int)
    requires
        0 <= a < raw.len(),
        0 <= b < raw.len(),
        precedes(link_keys(raw), a, b),
    ensures
        stable_rank(link_keys(raw), a) < stable_rank(link_keys(raw), b),
{
    lemma_count_preceding_grows(link_keys(raw), a, b, raw.len() as int);
}

/// The link indices number the links `0..n`, each exactly once, as they do when they come from
/// one vector of per-link entries.
pub open spec fn numbers_links(keys: Seq<usize>) -> bool {
    &&& forall|k: int| 0 <= k < keys.len() ==> #[trigger] keys[k] < keys.len()
    &&& forall|v: int| 0 <= v < keys.len() ==> #[trigger] is_key(keys, v)
    &&& forall|a: int, b: int|
        0 <= a < keys.len() && 0 <= b < keys.len() && a != b ==> keys[a] != keys[b]
}

/// Some entry has key `v`.
pub open spec fn is_key(keys: Seq<usize>, v: int) -> bool {
    exists|k: int| 0 <= k < keys.len() && keys[k] == v
}

/// How many of the first `m` keys are below `v`.
spec fn count_below(keys: Seq<usize>, v: int, m: int) -> nat
    decreases m,
{
    if m <= 0 {
        0
    } else {
        count_below(keys, v, m - 1) + if keys[m - 1] < v {
            1nat
        } else {
            0nat
        }
    }
}

/// How many of the first `m` keys equal `v`.
spec fn count_equal(keys: Seq<usize>, v: int, m: int) -> nat
    decreases m,
{
    if m <= 0 {
        0
    } else {
        count_equal(keys, v, m - 1) + if keys[m - 1] == v {
            1nat
        } else {
            0nat
        }
    }
}

proof fn lemma_distinct_rank_counts_smaller_keys(keys: Seq<usize>, j: int, m: int)
    requires
        0 <= j < keys.len(),
        0 <= m <= keys.len(),
        forall|a: int, b: int|
            0 <= a < keys.len() && 0 <= b < keys.len() && a != b ==> keys[a] != keys[b],
    ensures
        count_preceding(keys, j, m) == count_below(keys, keys[j] as int, m),
    decreases m,
{
    if m > 0 {
        lemma_distinct_rank_counts_smaller_keys(keys, j, m - 1);
    }
}

proof fn lemma_count_below_step(keys: Seq<usize>, v: int, m: int)
    requires
        0 <= m <= keys.len(),
    ensures
        count_below(keys, v + 1, m) == count_below(keys, v, m) + count_equal(keys, v, m),
    decreases m,
{
    if m > 0 {
        lemma_count_below_step(keys, v, m - 1);
    }
}

proof fn lemma_count_equal_unique(keys: Seq<usize>, v: int, w: int, m: int)
    requires
        0 <= w < keys.len(),
        0 <= m <= keys.len(),
        keys[w] == v,
        forall|a: int, b: int|
            0 <= a < keys.len() && 0 <= b < keys.len() && a != b ==> keys[a] != keys[b],
    ensures
        count_equal(keys, v, m) == if w < m {
            1nat
        } else {
            0nat
        },
    decreases m,
{
    if m > 0 {
        lemma_count_equal_unique(keys, v, w, m - 1);
    }
}

proof fn lemma_count_below_numbered(keys: Seq<usize>, v: int)
    requires
        numbers_links(keys),
        0 <= v <= keys.len(),
    ensures
        count_below(keys, v, keys.len() as int) == v,
    decreases v,
{
    let n = keys.len() as int;
    if v > 0 {
        lemma_count_below_numbered(keys, v - 1);
        lemma_count_below_step(keys, v - 1, n);
        assert(is_key(keys, v - 1));
        let w = choose|k: int| 0 <= k < n && keys[k] == v - 1;
        lemma_count_equal_unique(keys, v - 1, w, n);
    } else {
        lemma_count_below_zero(keys, n);
    }
}

proof fn lemma_count_below_zero(keys: Seq<usize>, m: int)
    requires
        0 <= m <= keys.len(),
    ensures
        count_below(keys, 0, m) == 0,
    decreases m,
{
    if m > 0 {
        lemma_count_below_zero(keys, m - 1);
    }
}

/// When the link indices number the links `0..n` each exactly once, every entry lands at the
/// position of its own link index: `per_link_spheres(raw)[link_index]` is that link's list.
pub proof fn lemma_per_link_spheres_indexed_by_link(raw: Seq<LinkSpheres>)
    requires
        numbers_links(link_keys(raw)),
    ensures
        forall|j: int|
            0 <= j < raw.len() ==> #[trigger] stable_rank(link_keys(raw), j) == raw[j].link_index,
{
    let keys = link_keys(raw);
    assert forall|j: int| 0 <= j < raw.len() implies #[trigger] stable_rank(keys, j)
        == raw[j].link_index by {
        lemma_distinct_rank_counts_smaller_keys(keys, j, keys.len() as int);
        assert(keys[j] == raw[j].link_index);
        assert(keys[j] < keys.len());
        lemma_count_below_numbered(keys, keys[j] as int);
    }
}

/// The stable rank of entry `j`, counted over all entries.
fn stable_rank_of(keys: &Vec<usize>, j: usize) -> (r: usize)
    requires
        j < keys.len(),
    ensures
        r == stable_rank(keys@, j as int),
{
    let n = keys.len();
    let key = keys[j];
    let mut count: usize = 0;
    for k in 0..n
        invariant
            n == keys.len(),
            j < n,
            key == keys@[j as int],
            count == count_preceding(keys@, j as int, k as int),
            count <= k,
    {
        if keys[k] < key || (keys[k] == key && k < j) {
            count = count + 1;
        }
    }
    count
}

/// Orders cricket's per-link sphere table by link index, keeping entries with equal link
/// indices in the order they came in, and keeps each entry's sphere indices: the entry that
/// ranks `i`-th ends up at position `i`.
pub fn per_link_spheres(raw: Vec<LinkSpheres>) -> (out: Vec<Vec<usize>>)
    ensures
        out.len() == raw.len(),
        forall|j: int|
            0 <= j < raw.len() ==> (#[trigger] out@[stable_rank(link_keys(raw@), j) as int])@
                == raw@[j].sphere_indices@,
{
    let n = raw.len();
    let ghost entries = raw@;
    let ghost keys_spec = link_keys(entries);

    let mut keys: Vec<usize> = Vec::new();
    for i in 0..n
        invariant
            n == raw.len(),
            raw@ == entries,
            keys.len() == i,
            forall|k: int| 0 <= k < i ==> keys@[k] == entries[k].link_index,
    {
        keys.push(raw[i].link_index);
    }
    assert(keys@ =~= keys_spec);

    let mut out: Vec<Vec<usize>> = Vec::new();
    for i in 0..n
        invariant
            out.len() == i,
    {
        out.push(Vec::new());
    }

    let mut j: usize = 0;
    for entry in it: raw
        invariant
            j == it.index(),
            n == entries.len(),
            it.seq() == entries,
            keys@ == keys_spec,
            keys_spec.len() == n,
            out.len() == n,
            forall|jj: int|
                0 <= jj < it.index() ==> (#[trigger] out@[stable_rank(keys_spec, jj) as int])@
                    == entries[jj].sphere_indices@,
    {
        assert(entry == entries[j as int]);
        let r = stable_rank_of(&keys, j);
        proof {
            lemma_stable_rank_in_range(keys_spec, j as int);
        }
        let ghost before = out@;
        out.set(r, entry.sphere_indices);
        proof {
            assert forall|jj: int| 0 <= jj <= j implies (#[trigger] out@[stable_rank(
                keys_spec,
                jj,
            ) as int])@ == entries[jj].sphere_indices@ by {
                if jj < j {
                    lemma_stable_rank_injective(keys_spec, jj, j as int);
                    lemma_stable_rank_in_range(keys_spec, jj);
                    assert(out@[stable_rank(keys_spec, jj) as int] == before[stable_rank(
                        keys_spec,
                        jj,
                    ) as int]);
                }
            }
        }
        j = j + 1;
    }
    out
}

} // verus!
