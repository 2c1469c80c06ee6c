//! Integer core of vertex de-duplication.
//!
//! Each vertex gets a 64-bit key (its quantised position, computed by the
//! caller).  Vertices are sorted by key.  Along each run of equal keys, a
//! vertex joins the first merged vertex of the run whose founding vertex it
//! lies close to (a geometric test the caller makes), and founds a merged
//! vertex of its own when it is close to none of them; vertices at one
//! place therefore always collapse into one merged vertex.  The index
//! buffer is then rewritten through the resulting map, and triangles that
//! collapsed (two equal corners) are dropped.
use vstd::prelude::*;
use rayon::slice::ParallelSliceMut;

verus! {

/// Entries are in non-decreasing key order.
pub open spec fn sorted_by_key(v: Seq<(u64, u32)>) -> bool {
    forall|i: int, j: int| 0 <= i <= j < v.len() ==> (#[trigger] v[i]).0 <= (#[trigger] v[j]).0
}

/// `keyed` lists every vertex `0..hashes.len()` exactly once, each with its
/// own key.
pub open spec fn lists_each_vertex_once(hashes: Seq<u64>, keyed: Seq<(u64, u32)>) -> bool {
    &&& keyed.len() == hashes.len()
    &&& forall|j: int|
        0 <= j < keyed.len() ==> (#[trigger] keyed[j]).1 < hashes.len() && keyed[j].0
            == hashes[keyed[j].1 as int]
    &&& forall|j1: int, j2: int|
        0 <= j1 < keyed.len() && 0 <= j2 < keyed.len() && (#[trigger] keyed[j1]).1 == (
        #[trigger] keyed[j2]).1 ==> j1 == j2
    &&& forall|v: int| 0 <= v < hashes.len() ==> #[trigger] is_listed(keyed, v)
}

/// Vertex `v` appears somewhere in `keyed`.
pub open spec fn is_listed(keyed: Seq<(u64, u32)>, v: int) -> bool {
    exists|j: int| 0 <= j < keyed.len() && #[trigger] keyed[j].1 == v
}

/// First position of the run of equal keys that position `j` belongs to.
pub open spec fn run_start(keyed: Seq<(u64, u32)>, j: int) -> int
    decreases j,
{
    if j <= 0 || keyed[j - 1].0 != keyed[j].0 {
        j
    } else {
        run_start(keyed, j - 1)
    }
}

/// `j` lies close to position `i` of its run, for `start[j] <= i < j`:
/// row `j` of `near` holds one flag per earlier position of the run.
pub open spec fn near_at(start: Seq<usize>, near: Seq<Vec<bool>>, j: int, i: int) -> bool {
    near[j]@[i - start[j]]
}

/// Position `j` is close to an earlier position of its run that `o` marks
/// as founding a merged vertex.
pub open spec fn joins_some(start: Seq<usize>, near: Seq<Vec<bool>>, o: Seq<bool>, j: int) -> bool {
    exists|i: int| start[j] <= i < j && #[trigger] o[i] && near_at(start, near, j, i)
}

/// For each of the first `n` positions, whether it founds a merged vertex:
/// it does unless it is close to an earlier founding position of its run.
pub open spec fn founders(start: Seq<usize>, near: Seq<Vec<bool>>, n: int) -> Seq<bool>
    decreases n,
{
    if n <= 0 {
        Seq::empty()
    } else {
        let o = founders(start, near, n - 1);
        o.push(!joins_some(start, near, o, n - 1))
    }
}

/// Position `j` founds a merged vertex.
pub open spec fn opens_slot(start: Seq<usize>, near: Seq<Vec<bool>>, j: int) -> bool {
    !joins_some(start, near, founders(start, near, j), j)
}

/// The first position in `[i, j)` that `o` marks as founding and that `j`
/// is close to; `j` itself when there is none.
pub open spec fn first_near_founder(
    start: Seq<usize>,
    near: Seq<Vec<bool>>,
    o: Seq<bool>,
    j: int,
    i: int,
) -> int
    decreases j - i,
{
    if i >= j {
        j
    } else if o[i] && near_at(start, near, j, i) {
        i
    } else {
        first_near_founder(start, near, o, j, i + 1)
    }
}

/// The founding position of the merged vertex that `j` ends up in: `j`
/// itself when it founds one, else the first founding position of its run
/// that it is close to.
pub open spec fn join_target(start: Seq<usize>, near: Seq<Vec<bool>>, j: int) -> int {
    first_near_founder(start, near, founders(start, near, j), j, start[j] as int)
}

/// Merged vertices founded before position `j`.
pub open spec fn slots_before(start: Seq<usize>, near: Seq<Vec<bool>>, j: int) -> int
    decreases j,
{
    if j <= 0 {
        0
    } else {
        slots_before(start, near, j - 1) + (if opens_slot(start, near, j - 1) {
            1int
        } else {
            0
        })
    }
}

/// Merged vertex that position `j` ends up in.
pub open spec fn slot_of(start: Seq<usize>, near: Seq<Vec<bool>>, j: int) -> int {
    slots_before(start, near, join_target(start, near, j))
}

/// Sorts by the key alone, in parallel.  rayon's `par_sort_unstable_by_key`
/// reorders the slice in place into non-decreasing key order and may put
/// entries with equal keys in any order; the contract says that the result
/// is a rearrangement of the input in key order, and nothing of how equal
/// keys are ordered.
#[verifier::external_body]
fn sort_by_key(keyed: &mut Vec<(u64, u32)>)
    ensures
        final(keyed)@.to_multiset() == old(keyed)@.to_multiset(),
        sorted_by_key(final(keyed)@),
{
    keyed.par_sort_unstable_by_key(|e| e.0);
}

pub proof fn lemma_run_start(keyed: Seq<(u64, u32)>, j: int)
    requires
        0 <= j < keyed.len(),
    ensures
        0 <= run_start(keyed, j) <= j,
        keyed[run_start(keyed, j)].0 == keyed[j].0,
        run_start(keyed, run_start(keyed, j)) == run_start(keyed, j),
    decreases j,
{
    if j > 0 && keyed[j - 1].0 == keyed[j].0 {
        lemma_run_start(keyed, j - 1);
    }
}

pub proof fn lemma_slots_before(start: Seq<usize>, near: Seq<Vec<bool>>, a: int, b: int)
    requires
        0 <= a <= b,
    ensures
        slots_before(start, near, a) <= slots_before(start, near, b),
        slots_before(start, near, b) - slots_before(start, near, a) <= b - a,
    decreases b - a,
{
    if a < b {
        lemma_slots_before(start, near, a, b - 1);
    }
}

/// Every position of a run has the key of the run's last position.
pub proof fn lemma_run_same_key(keyed: Seq<(u64, u32)>, j: int, i: int)
    requires
        0 <= j < keyed.len(),
        run_start(keyed, j) <= i <= j,
    ensures
        keyed[i].0 == keyed[j].0,
    decreases j,
{
    if i < j {
        assert(j > 0 && keyed[j - 1].0 == keyed[j].0);
        lemma_run_same_key(keyed, j - 1, i);
    }
}

/// The founder flags list, for each earlier position, whether it founds a
/// merged vertex.
pub proof fn lemma_founders(start: Seq<usize>, near: Seq<Vec<bool>>, n: int)
    requires
        0 <= n,
    ensures
        founders(start, near, n).len() == n,
        forall|t: int| 0 <= t < n ==> #[trigger] founders(start, near, n)[t] == opens_slot(start, near, t),
    decreases n,
{
    if n > 0 {
        lemma_founders(start, near, n - 1);
        let o = founders(start, near, n - 1);
        assert(founders(start, near, n) == o.push(!joins_some(start, near, o, n - 1)));
        assert forall|t: int| 0 <= t < n implies #[trigger] founders(start, near, n)[t] == opens_slot(
            start,
            near,
            t,
        ) by {
            if t < n - 1 {
                assert(founders(start, near, n)[t] == o[t]);
            }
        }
    }
}

/// What the scan for a founding position finds.
pub proof fn lemma_first_near_founder(
    start: Seq<usize>,
    near: Seq<Vec<bool>>,
    o: Seq<bool>,
    j: int,
    i: int,
)
    requires
        i <= j,
    ensures
        ({
            let r = first_near_founder(start, near, o, j, i);
            &&& i <= r <= j
            &&& r < j ==> o[r] && near_at(start, near, j, r)
            &&& forall|x: int| i <= x < r ==> !(#[trigger] o[x] && near_at(start, near, j, x))
        }),
    decreases j - i,
{
    if i < j && !(o[i] && near_at(start, near, j, i)) {
        lemma_first_near_founder(start, near, o, j, i + 1);
    }
}

/// The founding position that `j` joins lies in its run and, unless it is
/// `j` itself, founds a merged vertex and is close to `j`.
pub proof fn lemma_join_target(start: Seq<usize>, near: Seq<Vec<bool>>, j: int)
    requires
        0 <= start[j] <= j,
    ensures
        ({
            let t = join_target(start, near, j);
            &&& start[j] <= t <= j
            &&& (t == j) == opens_slot(start, near, j)
            &&& opens_slot(start, near, t)
            &&& t < j ==> near_at(start, near, j, t)
        }),
{
    let o = founders(start, near, j);
    lemma_founders(start, near, j);
    lemma_first_near_founder(start, near, o, j, start[j] as int);
    let t = join_target(start, near, j);
    if joins_some(start, near, o, j) {
        let i = choose|i: int| start[j] <= i < j && #[trigger] o[i] && near_at(start, near, j, i);
        assert(t <= i);
    }
    if t < j {
        assert(o[t]);
        assert(joins_some(start, near, o, j));
    }
}

/// Two positions of one run that are close to each other, and close to the
/// same earlier positions of the run (as two vertices at the same place
/// are), end up in the same merged vertex.
pub proof fn lemma_co_located_share_slot(start: Seq<usize>, near: Seq<Vec<bool>>, j1: int, j2: int)
    requires
        0 <= start[j1] <= j1 < j2,
        start[j2] == start[j1],
        near_at(start, near, j2, j1),
        forall|i: int|
            start[j1] <= i < j1 ==> near_at(start, near, j1, i) == near_at(start, near, j2, i),
    ensures
        slot_of(start, near, j1) == slot_of(start, near, j2),
        join_target(start, near, j1) == join_target(start, near, j2),
{
    let s0 = start[j1] as int;
    let o1 = founders(start, near, j1);
    let o2 = founders(start, near, j2);
    lemma_founders(start, near, j1);
    lemma_founders(start, near, j2);
    lemma_join_target(start, near, j1);
    lemma_join_target(start, near, j2);
    lemma_first_near_founder(start, near, o1, j1, s0);
    lemma_first_near_founder(start, near, o2, j2, s0);
    let t1 = join_target(start, near, j1);
    let t2 = join_target(start, near, j2);
    // Before j1 both scans see the same founders and the same closeness.
    assert forall|x: int| s0 <= x < j1 implies (o1[x] && near_at(start, near, j1, x)) == (
    #[trigger] o2[x] && near_at(start, near, j2, x)) by {
        assert(o1[x] == opens_slot(start, near, x));
        assert(o2[x] == opens_slot(start, near, x));
    }
    if t1 < j1 {
        assert(o1[t1]);
        assert(o2[t1] && near_at(start, near, j2, t1));
        assert(t2 <= t1);
        if t2 < t1 {
            assert(!(o1[t2] && near_at(start, near, j1, t2)));
        }
    } else {
        assert(o2[j1]);
        assert(o2[j1] && near_at(start, near, j2, j1));
        assert(t2 <= j1);
        if t2 < j1 {
            assert(!(o1[t2] && near_at(start, near, j1, t2)));
        }
    }
}

/// Every vertex paired with its key, sorted by key.  Vertices with equal
/// keys come in an order that the contract leaves open.
pub fn sorted_vertex_keys(hashes: &Vec<u64>) -> (keyed: Vec<(u64, u32)>)
    requires
        hashes@.len() <= u32::MAX,
    ensures
        lists_each_vertex_once(hashes@, keyed@),
        sorted_by_key(keyed@),
{
    let n = hashes.len();
    let mut keyed: Vec<(u64, u32)> = Vec::new();
    let mut i: usize = 0;
    while i < n
        invariant
            n == hashes@.len(),
            n <= u32::MAX,
            i <= n,
            keyed@.len() == i,
            forall|t: int| 0 <= t < i ==> #[trigger] keyed@[t] == (hashes@[t], t as u32),
        decreases n - i,
    {
        keyed.push((hashes[i], i as u32));
        i += 1;
    }
    let ghost k0 = keyed@;
    proof {
        assert(k0.no_duplicates()) by {
            assert forall|a: int, b: int| 0 <= a < k0.len() && 0 <= b < k0.len() && a != b implies k0[a]
                != k0[b] by {
                assert(k0[a].1 == a as u32 && k0[b].1 == b as u32);
            }
        }
        k0.lemma_multiset_has_no_duplicates();
    }
    sort_by_key(&mut keyed);
    proof {
        let k1 = keyed@;
        broadcast use vstd::seq_lib::group_to_multiset_ensures;
        assert(k1.len() == k0.len()) by {
            assert(k1.to_multiset().len() == k0.to_multiset().len());
        }
        k1.lemma_multiset_has_no_duplicates_conv();
        assert forall|j: int| 0 <= j < k1.len() implies (#[trigger] k1[j]).1 < hashes@.len()
            && k1[j].0 == hashes@[k1[j].1 as int] by {
            assert(k1.to_multiset().count(k1[j]) > 0);
            assert(k0.contains(k1[j]));
            let t = choose|t: int| 0 <= t < k0.len() && k0[t] == k1[j];
            assert(k0[t] == (hashes@[t], t as u32));
        }
        assert forall|j1: int, j2: int|
            0 <= j1 < k1.len() && 0 <= j2 < k1.len() && (#[trigger] k1[j1]).1 == (
            #[trigger] k1[j2]).1 implies j1 == j2 by {
            assert(k1[j1].0 == hashes@[k1[j1].1 as int]);
            assert(k1[j2].0 == hashes@[k1[j2].1 as int]);
            assert(k1[j1] == k1[j2]);
        }
        assert forall|v: int| 0 <= v < hashes@.len() implies #[trigger] is_listed(k1, v) by {
            assert(k0[v] == (hashes@[v], v as u32));
            assert(k0.to_multiset().count(k0[v]) > 0);
            assert(k1.contains(k0[v]));
            let j = choose|j: int| 0 <= j < k1.len() && k1[j] == k0[v];
            assert(k1[j].1 == v);
        }
    }
    keyed
}

/// For every position of a key-sorted list, the first position of its run
/// of equal keys.
pub fn group_starts(keyed: &Vec<(u64, u32)>) -> (start: Vec<usize>)
    ensures
        start@.len() == keyed@.len(),
        forall|j: int| 0 <= j < keyed@.len() ==> #[trigger] start@[j] as int == run_start(keyed@, j),
{
    let n = keyed.len();
    let mut start: Vec<usize> = Vec::new();
    let mut j: usize = 0;
    while j < n
        invariant
            n == keyed@.len(),
            j <= n,
            start@.len() == j,
            forall|t: int| 0 <= t < j ==> #[trigger] start@[t] as int == run_start(keyed@, t),
        decreases n - j,
    {
        if j == 0 || keyed[j - 1].0 != keyed[j].0 {
            start.push(j);
        } else {
            proof {
                lemma_run_start(keyed@, j - 1);
            }
            let s = start[j - 1];
            start.push(s);
        }
        j += 1;
    }
    start
}

proof fn lemma_slot_target(
    keyed: Seq<(u64, u32)>,
    start: Seq<usize>,
    near: Seq<Vec<bool>>,
    remap: Seq<u32>,
    kept: Seq<u32>,
    t: int,
)
    requires
        start.len() == keyed.len(),
        0 <= t < keyed.len(),
        forall|j: int| 0 <= j < keyed.len() ==> #[trigger] start[j] as int == run_start(keyed, j),
        kept.len() == slots_before(start, near, keyed.len() as int),
        remap[keyed[t].1 as int] as int == slot_of(start, near, t),
        forall|j: int|
            0 <= j < keyed.len() && #[trigger] opens_slot(start, near, j) ==> kept[slots_before(
                start,
                near,
                j,
            )] == keyed[j].1,
    ensures
        ({
            let m = remap[keyed[t].1 as int] as int;
            let jt = join_target(start, near, t);
            &&& m < kept.len()
            &&& kept[m] == keyed[jt].1
            &&& (jt == t || (start[t] <= jt < t && near_at(start, near, t, jt) && keyed[jt].0
                == keyed[t].0))
        }),
{
    lemma_run_start(keyed, t);
    lemma_join_target(start, near, t);
    let jt = join_target(start, near, t);
    assert(slots_before(start, near, jt + 1) == slots_before(start, near, jt) + 1);
    lemma_slots_before(start, near, jt + 1, keyed.len() as int);
    if jt < t {
        lemma_run_same_key(keyed, t, jt);
    }
}

/// Assign every vertex its merged vertex.  Along the key-sorted list, a
/// position joins the merged vertex of the first earlier position of its
/// run that founded one and that it is close to (`near`), and founds a
/// merged vertex of its own when there is none.  Row `j` of `near` holds,
/// for each earlier position of `j`'s run in order, whether `j` is close
/// to it.
///
/// Returns `remap` (merged vertex of each input vertex) and `kept` (the
/// input vertex whose position each merged vertex takes: the one that
/// founded it).
#[verifier::spinoff_prover]
#[verifier::rlimit(40)]
pub fn assign_slots(keyed: &Vec<(u64, u32)>, start: &Vec<usize>, near: &Vec<Vec<bool>>) -> (r: (
    Vec<u32>,
    Vec<u32>,
))
    requires
        keyed@.len() <= u32::MAX,
        start@.len() == keyed@.len(),
        near@.len() == keyed@.len(),
        forall|j: int| 0 <= j < keyed@.len() ==> #[trigger] start@[j] as int == run_start(keyed@, j),
        forall|j: int|
            0 <= j < keyed@.len() ==> (#[trigger] near@[j])@.len() == j - start@[j],
        forall|j: int| 0 <= j < keyed@.len() ==> (#[trigger] keyed@[j]).1 < keyed@.len(),
        forall|j1: int, j2: int|
            0 <= j1 < keyed@.len() && 0 <= j2 < keyed@.len() && (#[trigger] keyed@[j1]).1 == (
            #[trigger] keyed@[j2]).1 ==> j1 == j2,
    ensures
        r.0@.len() == keyed@.len(),
        r.1@.len() == slots_before(start@, near@, keyed@.len() as int),
        forall|j: int|
            0 <= j < keyed@.len() ==> #[trigger] r.0@[keyed@[j].1 as int] as int == slot_of(
                start@,
                near@,
                j,
            ),
        forall|j: int|
            0 <= j < keyed@.len() && #[trigger] opens_slot(start@, near@, j) ==> r.1@[slots_before(
                start@,
                near@,
                j,
            )] == keyed@[j].1,
        forall|j: int|
            0 <= j < keyed@.len() ==> {
                let m = r.0@[(#[trigger] keyed@[j]).1 as int] as int;
                let t = join_target(start@, near@, j);
                &&& m < r.1@.len()
                &&& r.1@[m] == keyed@[t].1
                &&& (t == j || (start@[j] <= t < j && near_at(start@, near@, j, t) && keyed@[t].0
                    == keyed@[j].0))
            },
{
    let n = keyed.len();
    let mut remap: Vec<u32> = Vec::new();
    let mut z: usize = 0;
    while z < n
        invariant
            z <= n,
            remap@.len() == z,
        decreases n - z,
    {
        remap.push(0);
        z += 1;
    }
    let mut kept: Vec<u32> = Vec::new();
    let mut founded: Vec<bool> = Vec::new();
    let mut j: usize = 0;
    while j < n
        invariant
            n == keyed@.len(),
            n <= u32::MAX,
            start@.len() == n,
            near@.len() == n,
            forall|t: int| 0 <= t < n ==> #[trigger] start@[t] as int == run_start(keyed@, t),
            forall|t: int| 0 <= t < n ==> (#[trigger] near@[t])@.len() == t - start@[t],
            forall|t: int| 0 <= t < n ==> (#[trigger] keyed@[t]).1 < n,
            forall|j1: int, j2: int|
                0 <= j1 < n && 0 <= j2 < n && (#[trigger] keyed@[j1]).1 == (#[trigger] keyed@[j2]).1
                    ==> j1 == j2,
            j <= n,
            remap@.len() == n,
            founded@ == founders(start@, near@, j as int),
            kept@.len() == slots_before(start@, near@, j as int),
            forall|t: int|
                0 <= t < j ==> #[trigger] remap@[keyed@[t].1 as int] as int == slot_of(
                    start@,
                    near@,
                    t,
                ),
            forall|t: int|
                0 <= t < j && #[trigger] opens_slot(start@, near@, t) ==> kept@[slots_before(
                    start@,
                    near@,
                    t,
                )] == keyed@[t].1,
        decreases n - j,
    {
        proof {
            lemma_run_start(keyed@, j as int);
            lemma_slots_before(start@, near@, 0, j as int);
            lemma_founders(start@, near@, j as int);
        }
        let s = start[j];
        let orig = keyed[j].1;
        let row = &near[j];
        // Scan the run for the first founding position close to `j`.
        let mut i: usize = s;
        while i < j && !(founded[i] && row[i - s])
            invariant
                s <= i <= j,
                j < n,
                start@.len() == n,
                near@.len() == n,
                s as int == start@[j as int],
                founded@.len() == j,
                row@ == near@[j as int]@,
                row@.len() == j - s,
                first_near_founder(start@, near@, founded@, j as int, s as int) == first_near_founder(
                    start@,
                    near@,
                    founded@,
                    j as int,
                    i as int,
                ),
            decreases j - i,
        {
            i += 1;
        }
        let ghost remap0 = remap@;
        let ghost kept0 = kept@;
        proof {
            assert(i as int == join_target(start@, near@, j as int));
            lemma_join_target(start@, near@, j as int);
        }
        if i == j {
            let slot = kept.len() as u32;
            kept.push(orig);
            remap.set(orig as usize, slot);
            founded.push(true);
            proof {
                assert(kept@ == kept0.push(orig));
            }
        } else {
            proof {
                assert(opens_slot(start@, near@, i as int));
                lemma_run_start(keyed@, i as int);
                lemma_join_target(start@, near@, i as int);
                assert(remap@[keyed@[i as int].1 as int] as int == slot_of(start@, near@, i as int));
            }
            let slot = remap[keyed[i].1 as usize];
            remap.set(orig as usize, slot);
            founded.push(false);
            proof {
                assert(kept@ == kept0);
            }
        }
        proof {
            let ghost opened = opens_slot(start@, near@, j as int);
            assert(founders(start@, near@, j + 1) == founders(start@, near@, j as int).push(
                opened,
            ));
            assert forall|t: int| 0 <= t < j + 1 implies #[trigger] remap@[keyed@[t].1 as int] as int
                == slot_of(start@, near@, t) by {
                if t < j {
                    assert(keyed@[t].1 != orig);
                    assert(remap@[keyed@[t].1 as int] == remap0[keyed@[t].1 as int]);
                }
            }
            assert forall|t: int| 0 <= t < j + 1 && #[trigger] opens_slot(start@, near@, t) implies kept@[slots_before(
                start@,
                near@,
                t,
            )] == keyed@[t].1 by {
                if t < j {
                    assert(slots_before(start@, near@, t + 1) == slots_before(start@, near@, t) + 1);
                    lemma_slots_before(start@, near@, t + 1, j as int);
                    let x = slots_before(start@, near@, t);
                    lemma_slots_before(start@, near@, 0, t);
                    assert(0 <= x < kept0.len());
                    if opened {
                        assert(kept@ == kept0.push(orig));
                        assert(kept@[x] == kept0[x]);
                    } else {
                        assert(kept@ == kept0);
                    }
                } else {
                    assert(opened);
                    assert(kept@ == kept0.push(orig));
                    assert(kept@[kept0.len() as int] == orig);
                }
            }
        }
        j += 1;
    }
    proof {
        assert forall|t: int| 0 <= t < n implies {
            let m = remap@[(#[trigger] keyed@[t]).1 as int] as int;
            let jt = join_target(start@, near@, t);
            &&& m < kept@.len()
            &&& kept@[m] == keyed@[jt].1
            &&& (jt == t || (start@[t] <= jt < t && near_at(start@, near@, t, jt) && keyed@[jt].0
                == keyed@[t].0))
        } by {
            lemma_slot_target(keyed@, start@, near@, remap@, kept@, t);
        }
    }
    (remap, kept)
}

/// Rewrite every index through `remap`.
pub fn remap_indices(indices: &mut Vec<u32>, remap: &Vec<u32>)
    requires
        forall|k: int| 0 <= k < old(indices)@.len() ==> (#[trigger] old(indices)@[k] as int) < remap@.len(),
    ensures
        final(indices)@.len() == old(indices)@.len(),
        forall|k: int|
            0 <= k < old(indices)@.len() ==> #[trigger] final(indices)@[k] == remap@[old(
                indices,
            )@[k] as int],
{
    let ghost s = indices@;
    let n = indices.len();
    let mut k: usize = 0;
    while k < n
        invariant
            n == s.len(),
            indices@.len() == n,
            k <= n,
            forall|t: int| 0 <= t < n ==> (#[trigger] s[t] as int) < remap@.len(),
            forall|t: int| 0 <= t < k ==> #[trigger] indices@[t] == remap@[s[t] as int],
            forall|t: int| k <= t < n ==> #[trigger] indices@[t] == s[t],
        decreases n - k,
    {
        let v = remap[indices[k] as usize];
        indices.set(k, v);
        k += 1;
    }
}

/// The first `t` complete triangles of `idx` whose three corners are all
/// marked in `keep`, in order.
pub open spec fn triangles_on(idx: Seq<u32>, keep: Seq<bool>, t: int) -> Seq<u32>
    decreases t,
{
    if t <= 0 {
        Seq::empty()
    } else {
        let a = idx[3 * (t - 1)];
        let b = idx[3 * (t - 1) + 1];
        let c = idx[3 * (t - 1) + 2];
        triangles_on(idx, keep, t - 1) + (if keep[a as int] && keep[b as int] && keep[c as int] {
            seq![a, b, c]
        } else {
            Seq::empty()
        })
    }
}

/// The complete triangles whose corners are all marked in `keep` (used to
/// drop triangles that touch an unusable vertex).
pub fn keep_triangles_on(indices: &Vec<u32>, keep: &Vec<bool>) -> (r: Vec<u32>)
    requires
        forall|k: int| 0 <= k < indices@.len() ==> (#[trigger] indices@[k] as int) < keep@.len(),
    ensures
        r@ == triangles_on(indices@, keep@, indices@.len() as int / 3),
{
    let len = indices.len();
    let nt: usize = len / 3;
    let mut r: Vec<u32> = Vec::new();
    let mut t: usize = 0;
    while t < nt
        invariant
            len == indices@.len(),
            nt as int == len as int / 3,
            t <= nt,
            forall|k: int| 0 <= k < indices@.len() ==> (#[trigger] indices@[k] as int) < keep@.len(),
            r@ == triangles_on(indices@, keep@, t as int),
        decreases nt - t,
    {
        let a = indices[3 * t];
        let b = indices[3 * t + 1];
        let c = indices[3 * t + 2];
        if keep[a as usize] && keep[b as usize] && keep[c as usize] {
            r.push(a);
            r.push(b);
            r.push(c);
        }
        proof {
            assert(r@ =~= triangles_on(indices@, keep@, t + 1));
        }
        t += 1;
    }
    r
}

/// Triangle `t` has three distinct corners.
pub open spec fn proper_triangle(idx: Seq<u32>, t: int) -> bool {
    idx[3 * t] != idx[3 * t + 1] && idx[3 * t + 1] != idx[3 * t + 2] && idx[3 * t] != idx[3 * t
        + 2]
}

/// The first `t` complete triangles of `idx` that have three distinct
/// corners, in order.
pub open spec fn proper_triangles(idx: Seq<u32>, t: int) -> Seq<u32>
    decreases t,
{
    if t <= 0 {
        Seq::empty()
    } else {
        proper_triangles(idx, t - 1) + (if proper_triangle(idx, t - 1) {
            seq![idx[3 * (t - 1)], idx[3 * (t - 1) + 1], idx[3 * (t - 1) + 2]]
        } else {
            Seq::empty()
        })
    }
}

proof fn lemma_proper_triangles_len(idx: Seq<u32>, t: int)
    requires
        0 <= t,
    ensures
        proper_triangles(idx, t).len() <= 3 * t,
        proper_triangles(idx, t).len() % 3 == 0,
    decreases t,
{
    if t > 0 {
        lemma_proper_triangles_len(idx, t - 1);
    }
}

/// Triangle `u` of a corner list has three pairwise distinct corners.
pub open spec fn corners_distinct(r: Seq<u32>, u: int) -> bool {
    r[3 * u] != r[3 * u + 1] && r[3 * u + 1] != r[3 * u + 2] && r[3 * u] != r[3 * u + 2]
}

/// Triangle `u` of `r` is triangle `s` of `idx`, corner for corner.
pub open spec fn same_triangle(r: Seq<u32>, u: int, idx: Seq<u32>, s: int) -> bool {
    r[3 * u] == idx[3 * s] && r[3 * u + 1] == idx[3 * s + 1] && r[3 * u + 2] == idx[3 * s + 2]
}

proof fn lemma_proper_triangles_step(idx: Seq<u32>, t: int)
    requires
        1 <= t,
    ensures
        ({
            let p = proper_triangles(idx, t - 1);
            let r = proper_triangles(idx, t);
            &&& p.len() % 3 == 0
            &&& forall|u: int| 0 <= u < p.len() / 3 ==> #[trigger] same_triangle(r, u, p, u)
            &&& r.len() / 3 == p.len() / 3 + (if corners_distinct(idx, t - 1) { 1int } else { 0 })
            &&& corners_distinct(idx, t - 1) ==> same_triangle(r, p.len() as int / 3, idx, t - 1)
        }),
{
    lemma_proper_triangles_len(idx, t - 1);
    let p = proper_triangles(idx, t - 1);
    let r = proper_triangles(idx, t);
    assert forall|u: int| 0 <= u < p.len() / 3 implies #[trigger] same_triangle(r, u, p, u) by {
        assert(r[3 * u] == p[3 * u]);
        assert(r[3 * u + 1] == p[3 * u + 1]);
        assert(r[3 * u + 2] == p[3 * u + 2]);
    }
    if corners_distinct(idx, t - 1) {
        let m: int = p.len() as int / 3;
        assert(r[3 * m] == idx[3 * (t - 1)]);
        assert(r[3 * m + 1] == idx[3 * (t - 1) + 1]);
        assert(r[3 * m + 2] == idx[3 * (t - 1) + 2]);
    }
}

/// Every triangle that dropping collapsed triangles leaves has three
/// pairwise distinct corners.
pub proof fn lemma_proper_triangles_distinct(idx: Seq<u32>, t: int)
    requires
        0 <= t,
    ensures
        proper_triangles(idx, t).len() % 3 == 0,
        forall|u: int|
            0 <= u < proper_triangles(idx, t).len() / 3 ==> #[trigger] corners_distinct(
                proper_triangles(idx, t),
                u,
            ),
    decreases t,
{
    lemma_proper_triangles_len(idx, t);
    if t > 0 {
        lemma_proper_triangles_distinct(idx, t - 1);
        lemma_proper_triangles_step(idx, t);
        let p = proper_triangles(idx, t - 1);
        let r = proper_triangles(idx, t);
        assert forall|u: int| 0 <= u < r.len() / 3 implies #[trigger] corners_distinct(r, u) by {
            if u < p.len() / 3 {
                assert(same_triangle(r, u, p, u));
                assert(corners_distinct(p, u));
            }
        }
    }
}

/// The input triangle that triangle `u` of `proper_triangles(idx, t)`
/// comes from.
pub open spec fn kept_from(idx: Seq<u32>, t: int, u: int) -> int
    decreases t,
{
    if t <= 0 {
        0
    } else if corners_distinct(idx, t - 1) && u == proper_triangles(idx, t - 1).len() as int / 3 {
        t - 1
    } else {
        kept_from(idx, t - 1, u)
    }
}

/// Every triangle that dropping collapsed triangles leaves is a triangle of
/// the input, taken in input order, and every input triangle among the
/// first `t` with three pairwise distinct corners is left.
pub proof fn lemma_proper_triangles_kept(idx: Seq<u32>, t: int)
    requires
        0 <= t,
    ensures
        forall|u: int|
            0 <= u < proper_triangles(idx, t).len() / 3 ==> 0 <= #[trigger] kept_from(idx, t, u) < t
                && same_triangle(proper_triangles(idx, t), u, idx, kept_from(idx, t, u)),
        forall|u1: int, u2: int|
            0 <= u1 < u2 < proper_triangles(idx, t).len() / 3 ==> #[trigger] kept_from(idx, t, u1)
                < #[trigger] kept_from(idx, t, u2),
        forall|s: int|
            0 <= s < t && #[trigger] corners_distinct(idx, s) ==> exists|u: int|
                0 <= u < proper_triangles(idx, t).len() / 3 && #[trigger] kept_from(idx, t, u) == s,
    decreases t,
{
    if t > 0 {
        lemma_proper_triangles_kept(idx, t - 1);
        lemma_proper_triangles_step(idx, t);
        let p = proper_triangles(idx, t - 1);
        let m: int = p.len() as int / 3;
        assert forall|u: int| 0 <= u < proper_triangles(idx, t).len() / 3 implies 0 <= #[trigger] kept_from(
            idx,
            t,
            u,
        ) < t && same_triangle(proper_triangles(idx, t), u, idx, kept_from(idx, t, u)) by {
            if u < m {
                assert(kept_from(idx, t, u) == kept_from(idx, t - 1, u));
                assert(same_triangle(proper_triangles(idx, t), u, p, u));
            } else {
                assert(corners_distinct(idx, t - 1));
            }
        }
        assert forall|u1: int, u2: int|
            0 <= u1 < u2 < proper_triangles(idx, t).len() / 3 implies #[trigger] kept_from(idx, t, u1)
            < #[trigger] kept_from(idx, t, u2) by {
            assert(kept_from(idx, t, u1) == kept_from(idx, t - 1, u1));
            if u2 < m {
                assert(kept_from(idx, t, u2) == kept_from(idx, t - 1, u2));
            } else {
                assert(kept_from(idx, t - 1, u1) < t - 1);
            }
        }
        assert forall|s: int| 0 <= s < t && #[trigger] corners_distinct(idx, s) implies exists|u: int|
            0 <= u < proper_triangles(idx, t).len() / 3 && #[trigger] kept_from(idx, t, u) == s by {
            if s < t - 1 {
                let u0 = choose|u: int| 0 <= u < m && #[trigger] kept_from(idx, t - 1, u) == s;
                assert(kept_from(idx, t, u0) == s);
            } else {
                assert(kept_from(idx, t, m) == s);
            }
        }
    }
}

/// Keep only the triangles with three distinct corners (a partial
/// triangle at the end is dropped too).
pub fn drop_degenerate_triangles(indices: &mut Vec<u32>)
    ensures
        final(indices)@ == proper_triangles(old(indices)@, old(indices)@.len() as int / 3),
{
    let ghost s = indices@;
    let len = indices.len();
    let nt: usize = len / 3;
    let mut write: usize = 0;
    let mut t: usize = 0;
    while t < nt
        invariant
            nt as int == s.len() / 3,
            len == s.len(),
            indices@.len() == s.len(),
            t <= nt,
            write as int == proper_triangles(s, t as int).len(),
            write <= 3 * t,
            indices@.subrange(0, write as int) == proper_triangles(s, t as int),
            forall|k: int| 3 * t <= k < s.len() ==> #[trigger] indices@[k] == s[k],
        decreases nt - t,
    {
        proof {
            lemma_proper_triangles_len(s, t as int);
        }
        let base = 3 * t;
        let a = indices[base];
        let b = indices[base + 1];
        let c = indices[base + 2];
        if a != b && b != c && a != c {
            let ghost before = indices@;
            indices.set(write, a);
            indices.set(write + 1, b);
            indices.set(write + 2, c);
            proof {
                assert(indices@.subrange(0, write + 3) =~= before.subrange(0, write as int) + seq![
                    a,
                    b,
                    c,
                ]);
            }
            write += 3;
        }
        t += 1;
    }
    indices.truncate(write);
}

} // verus!
