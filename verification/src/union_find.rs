//! Disjoint-set forest over `0..n` with a parity bit per element.
//!
//! Each element carries the parity of its relation to the representative of
//! its set; joining two sets takes the parity that the new link must carry.
//! Links always point from a larger index to a smaller one, so every chain
//! of parents strictly decreases and the representative of a set is its
//! smallest element reached by the links.  Lookups compress paths.
use vstd::prelude::*;

verus! {

/// Representative reached from `x` by following parent links.
pub open spec fn root_of(parent: Seq<usize>, x: int) -> int
    decreases x,
{
    if 0 <= x < parent.len() && (parent[x] as int) < x {
        root_of(parent, parent[x] as int)
    } else {
        x
    }
}

/// Parity accumulated along the links from `x` to its representative.
pub open spec fn parity_of(parent: Seq<usize>, parity: Seq<bool>, x: int) -> bool
    decreases x,
{
    if 0 <= x < parent.len() && (parent[x] as int) < x {
        parity[x] != parity_of(parent, parity, parent[x] as int)
    } else {
        false
    }
}

/// Links never point upwards.
pub open spec fn links_descend(parent: Seq<usize>) -> bool {
    forall|x: int| 0 <= x < parent.len() ==> #[trigger] parent[x] as int <= x
}

pub proof fn lemma_root_facts(parent: Seq<usize>, parity: Seq<bool>, x: int)
    requires
        links_descend(parent),
        0 <= x < parent.len(),
    ensures
        0 <= root_of(parent, x) <= x,
        parent[root_of(parent, x)] as int == root_of(parent, x),
        root_of(parent, root_of(parent, x)) == root_of(parent, x),
        !parity_of(parent, parity, root_of(parent, x)),
    decreases x,
{
    if (parent[x] as int) < x {
        lemma_root_facts(parent, parity, parent[x] as int);
    }
}

/// Re-pointing `c` directly at its own representative, with the parity it
/// already has to that representative, changes no representative and no
/// parity.
pub proof fn lemma_shortcut_preserves(
    parent: Seq<usize>,
    parity: Seq<bool>,
    c: int,
    y: int,
)
    requires
        links_descend(parent),
        parity.len() == parent.len(),
        0 <= c < parent.len(),
        0 <= y < parent.len(),
    ensures
        ({
            let r = root_of(parent, c);
            let p = parity_of(parent, parity, c);
            let parent2 = parent.update(c, r as usize);
            let parity2 = parity.update(c, p);
            &&& root_of(parent2, y) == root_of(parent, y)
            &&& parity_of(parent2, parity2, y) == parity_of(parent, parity, y)
        }),
    decreases y,
{
    let r = root_of(parent, c);
    let p = parity_of(parent, parity, c);
    let parent2 = parent.update(c, r as usize);
    let parity2 = parity.update(c, p);
    lemma_root_facts(parent, parity, c);
    lemma_root_facts(parent, parity, y);
    if y == c {
        if r < c {
            lemma_root_facts(parent, parity, r);
            assert(parent2[r] == parent[r]);
            assert(root_of(parent2, r) == r);
            assert(parity_of(parent2, parity2, r) == false);
        }
    } else if (parent[y] as int) < y {
        lemma_shortcut_preserves(parent, parity, c, parent[y] as int);
    }
}

/// Linking representative `big` under representative `small` with parity
/// `link` moves exactly the members of `big`'s set under `small`, flipping
/// their parity by `link`.
pub proof fn lemma_link_effect(
    parent: Seq<usize>,
    parity: Seq<bool>,
    big: int,
    small: int,
    link: bool,
    y: int,
)
    requires
        links_descend(parent),
        parity.len() == parent.len(),
        0 <= small < big < parent.len(),
        parent[big] as int == big,
        parent[small] as int == small,
        0 <= y < parent.len(),
    ensures
        ({
            let parent2 = parent.update(big, small as usize);
            let parity2 = parity.update(big, link);
            &&& root_of(parent2, y) == (if root_of(parent, y) == big {
                small
            } else {
                root_of(parent, y)
            })
            &&& parity_of(parent2, parity2, y) == (if root_of(parent, y) == big {
                parity_of(parent, parity, y) != link
            } else {
                parity_of(parent, parity, y)
            })
        }),
    decreases y,
{
    let parent2 = parent.update(big, small as usize);
    let parity2 = parity.update(big, link);
    if y == big {
        assert(root_of(parent2, small) == small);
        assert(parity_of(parent2, parity2, small) == false);
    } else if (parent[y] as int) < y {
        lemma_link_effect(parent, parity, big, small, link, parent[y] as int);
    }
}

/// Representative of an element whose old representative was `ry`, after
/// the sets represented by `ra` and `rb` are joined under the smaller one.
pub open spec fn joined_root(ra: int, rb: int, ry: int) -> int {
    let big = if ra < rb { rb } else { ra };
    let small = if ra < rb { ra } else { rb };
    if ry == big {
        small
    } else {
        ry
    }
}

/// Parity of an element after the same join: members of the absorbed set
/// flip by the link parity `lp`.
pub open spec fn joined_par(ra: int, rb: int, ry: int, py: bool, lp: bool) -> bool {
    let big = if ra < rb { rb } else { ra };
    if ry == big {
        py != lp
    } else {
        py
    }
}

/// A disjoint-set forest with parities.
pub struct UnionFind {
    parent: Vec<usize>,
    parity: Vec<bool>,
}

impl UnionFind {
    /// Well-formedness: one parent and one parity per element, links descend.
    pub closed spec fn wf(&self) -> bool {
        &&& self.parent@.len() == self.parity@.len()
        &&& links_descend(self.parent@)
    }

    /// Number of elements.
    pub closed spec fn size(&self) -> int {
        self.parent@.len() as int
    }

    /// Representative of `x`'s set.
    pub closed spec fn root(&self, x: int) -> int {
        root_of(self.parent@, x)
    }

    /// Parity of `x` relative to its representative.
    pub closed spec fn par(&self, x: int) -> bool {
        parity_of(self.parent@, self.parity@, x)
    }

    /// Facts about representatives: a representative is its own
    /// representative, has parity `false`, and is no larger than the element.
    pub proof fn lemma_root(&self, x: int)
        requires
            self.wf(),
            0 <= x < self.size(),
        ensures
            0 <= self.root(x) <= x,
            self.root(self.root(x)) == self.root(x),
            !self.par(self.root(x)),
    {
        lemma_root_facts(self.parent@, self.parity@, x);
    }

    fn set_link(&mut self, big: usize, small: usize, lp: bool)
        requires
            big < old(self).parent@.len(),
            big < old(self).parity@.len(),
        ensures
            final(self).parent@ == old(self).parent@.update(big as int, small),
            final(self).parity@ == old(self).parity@.update(big as int, lp),
    {
        self.parent.set(big, small);
        self.parity.set(big, lp);
    }

    /// `n` singleton sets, each with parity `false`.
    pub fn new(n: usize) -> (uf: Self)
        ensures
            uf.wf(),
            uf.size() == n,
            forall|x: int| 0 <= x < n ==> #[trigger] uf.root(x) == x && !uf.par(x),
    {
        let mut parent: Vec<usize> = Vec::with_capacity(n);
        let mut parity: Vec<bool> = Vec::with_capacity(n);
        let mut i: usize = 0;
        while i < n
            invariant
                i <= n,
                parent@.len() == i,
                parity@.len() == i,
                forall|x: int| 0 <= x < i ==> parent@[x] == x,
            decreases n - i,
        {
            parent.push(i);
            parity.push(false);
            i += 1;
        }
        let uf = UnionFind { parent, parity };
        assert forall|x: int| 0 <= x < n implies #[trigger] uf.root(x) == x && !uf.par(x) by {
            assert(uf.parent@[x] == x);
        }
        uf
    }

    /// Representative of `x` and the parity of `x` relative to it.  The sets
    /// and parities are unchanged (paths are compressed).
    pub fn find(&mut self, x: usize) -> (r: (usize, bool))
        requires
            old(self).wf(),
            x < old(self).size(),
        ensures
            final(self).wf(),
            final(self).size() == old(self).size(),
            forall|y: int|
                0 <= y < old(self).size() ==> #[trigger] final(self).root(y) == old(self).root(y)
                    && final(self).par(y) == old(self).par(y),
            r.0 as int == old(self).root(x as int),
            r.1 == old(self).par(x as int),
    {
        let ghost p0 = self.parent@;
        let ghost q0 = self.parity@;
        let mut r: usize = x;
        let mut tp: bool = false;
        while self.parent[r] != r
            invariant
                self.parent@ == p0,
                self.parity@ == q0,
                p0.len() == q0.len(),
                links_descend(p0),
                r <= x < p0.len(),
                root_of(p0, r as int) == root_of(p0, x as int),
                parity_of(p0, q0, x as int) == (tp != parity_of(p0, q0, r as int)),
            decreases r,
        {
            tp = tp != self.parity[r];
            r = self.parent[r];
        }
        proof {
            lemma_root_facts(p0, q0, x as int);
        }
        let mut cur: usize = x;
        let mut acc: bool = false;
        while self.parent[cur] != r
            invariant
                self.parent@.len() == p0.len(),
                self.parity@.len() == p0.len(),
                links_descend(self.parent@),
                cur <= x < p0.len(),
                r as int == root_of(p0, x as int),
                self.parent@[r as int] == r,
                forall|y: int|
                    0 <= y < p0.len() ==> #[trigger] root_of(self.parent@, y) == root_of(p0, y),
                forall|y: int|
                    0 <= y < p0.len() ==> #[trigger] parity_of(self.parent@, self.parity@, y)
                        == parity_of(p0, q0, y),
                root_of(p0, cur as int) == r,
                parity_of(p0, q0, cur as int) == (tp != acc),
                tp == parity_of(p0, q0, x as int),
            decreases cur,
        {
            let ghost pc = self.parent@;
            let ghost qc = self.parity@;
            let next = self.parent[cur];
            let next_acc = acc != self.parity[cur];
            proof {
                lemma_root_facts(pc, qc, cur as int);
                assert(root_of(pc, cur as int) == r);
                assert((next as int) < cur as int);
                assert(parity_of(pc, qc, cur as int) == (qc[cur as int] != parity_of(
                    pc,
                    qc,
                    next as int,
                )));
            }
            self.parity.set(cur, tp != acc);
            self.parent.set(cur, r);
            proof {
                assert(self.parent@ == pc.update(cur as int, r));
                assert(self.parity@ == qc.update(cur as int, tp != acc));
                assert forall|z: int| 0 <= z < self.parent@.len() implies #[trigger] self.parent@[z]
                    as int <= z by {
                    if z == cur {
                        lemma_root_facts(pc, qc, cur as int);
                    }
                }
                assert forall|y: int| 0 <= y < p0.len() implies #[trigger] root_of(
                    self.parent@,
                    y,
                ) == root_of(p0, y) by {
                    lemma_shortcut_preserves(pc, qc, cur as int, y);
                    assert(root_of(pc, y) == root_of(p0, y));
                }
                assert forall|y: int| 0 <= y < p0.len() implies #[trigger] parity_of(
                    self.parent@,
                    self.parity@,
                    y,
                ) == parity_of(p0, q0, y) by {
                    lemma_shortcut_preserves(pc, qc, cur as int, y);
                    assert(parity_of(pc, qc, y) == parity_of(p0, q0, y));
                }
                assert(root_of(pc, next as int) == root_of(p0, next as int));
                assert(root_of(pc, cur as int) == root_of(pc, next as int));
                assert(parity_of(pc, qc, next as int) == parity_of(p0, q0, next as int));
            }
            acc = next_acc;
            cur = next;
        }
        proof {
            lemma_root_facts(self.parent@, self.parity@, cur as int);
        }
        (r, tp)
    }

    /// Join the sets of `a` and `b`, giving `b` the parity `link` relative to
    /// `a`.  Returns `false` (changing nothing) when they are already in one
    /// set.  The new representative is the smaller of the two old ones.
    #[verifier::spinoff_prover]
    pub fn union(&mut self, a: usize, b: usize, link: bool) -> (merged: bool)
        requires
            old(self).wf(),
            a < old(self).size(),
            b < old(self).size(),
        ensures
            final(self).wf(),
            final(self).size() == old(self).size(),
            merged == (old(self).root(a as int) != old(self).root(b as int)),
            !merged ==> forall|y: int|
                0 <= y < old(self).size() ==> #[trigger] final(self).root(y) == old(self).root(y)
                    && final(self).par(y) == old(self).par(y),
            merged ==> forall|y: int|
                0 <= y < old(self).size() ==> #[trigger] final(self).root(y) == joined_root(
                    old(self).root(a as int),
                    old(self).root(b as int),
                    old(self).root(y),
                ),
            merged ==> forall|y: int|
                0 <= y < old(self).size() ==> #[trigger] final(self).par(y) == joined_par(
                    old(self).root(a as int),
                    old(self).root(b as int),
                    old(self).root(y),
                    old(self).par(y),
                    (old(self).par(a as int) != old(self).par(b as int)) != link,
                ),
    {
        let ghost s0 = *self;
        assert(s0 == *old(self));
        let (ra, pa) = self.find(a);
        let ghost s1 = *self;
        assert(s1.root(b as int) == s0.root(b as int) && s1.par(b as int) == s0.par(b as int));
        let (rb, pb) = self.find(b);
        assert(ra as int == s0.root(a as int) && pa == s0.par(a as int));
        assert(rb as int == s0.root(b as int) && pb == s0.par(b as int));
        assert forall|y: int| 0 <= y < s0.size() implies #[trigger] self.root(y) == s0.root(y)
            && self.par(y) == s0.par(y) by {
            assert(s1.root(y) == s0.root(y) && s1.par(y) == s0.par(y));
            assert(self.root(y) == s1.root(y) && self.par(y) == s1.par(y));
        }
        assert(self.root(a as int) == ra as int);
        assert(self.par(a as int) == pa);
        assert(self.root(b as int) == rb as int);
        if ra == rb {
            assert forall|y: int| 0 <= y < old(self).size() implies #[trigger] self.root(y)
                == old(self).root(y) && self.par(y) == old(self).par(y) by {
                assert(self.root(y) == s0.root(y) && self.par(y) == s0.par(y));
            }
            return false;
        }
        let lp = (pa != pb) != link;
        let (big, small) = if ra < rb {
            (rb, ra)
        } else {
            (ra, rb)
        };
        let ghost p1 = self.parent@;
        let ghost q1 = self.parity@;
        assert forall|y: int| 0 <= y < s0.size() implies root_of(p1, y) == #[trigger] s0.root(y)
            && parity_of(p1, q1, y) == s0.par(y) by {
            assert(self.root(y) == s0.root(y));
        }
        proof {
            lemma_root_facts(p1, q1, a as int);
            lemma_root_facts(p1, q1, b as int);
            assert forall|y: int| 0 <= y < p1.len() implies {
                &&& #[trigger] root_of(p1.update(big as int, small), y) == (if root_of(p1, y)
                    == big {
                    small as int
                } else {
                    root_of(p1, y)
                })
                &&& parity_of(p1.update(big as int, small), q1.update(big as int, lp), y) == (
                if root_of(p1, y) == big {
                    parity_of(p1, q1, y) != lp
                } else {
                    parity_of(p1, q1, y)
                })
            } by {
                lemma_link_effect(p1, q1, big as int, small as int, lp, y);
            }
        }
        self.set_link(big, small, lp);
        assert(self.parent@ == p1.update(big as int, small));
        assert(self.parity@ == q1.update(big as int, lp));
        assert forall|y: int| 0 <= y < s0.size() implies #[trigger] self.root(y) == (if s0.root(y)
            == big as int {
            small as int
        } else {
            s0.root(y)
        }) && self.par(y) == (if s0.root(y) == big as int {
            s0.par(y) != lp
        } else {
            s0.par(y)
        }) by {
            lemma_link_effect(p1, q1, big as int, small as int, lp, y);
            assert(root_of(p1, y) == s0.root(y));
            assert(parity_of(p1, q1, y) == s0.par(y));
        }
        assert(s0.root(a as int) < s0.root(b as int) ==> big as int == s0.root(b as int));
        proof {
            assert forall|z: int| 0 <= z < self.parent@.len() implies #[trigger] self.parent@[z]
                as int <= z by {
                if z == big {
                } else {
                    assert(self.parent@[z] == p1[z]);
                }
            }
        }
        assert(old(self).root(a as int) == ra as int);
        assert(old(self).root(b as int) == rb as int);
        assert(old(self).par(a as int) == pa);
        assert(old(self).par(b as int) == pb);
        assert forall|y: int| 0 <= y < old(self).size() implies #[trigger] self.root(y)
            == joined_root(old(self).root(a as int), old(self).root(b as int), old(self).root(y))
            by {
            assert(s0.root(y) == old(self).root(y));
            assert(self.root(y) == (if s0.root(y) == big as int {
                small as int
            } else {
                s0.root(y)
            }));
        }
        assert forall|y: int| 0 <= y < old(self).size() implies #[trigger] self.par(y)
            == joined_par(
            old(self).root(a as int),
            old(self).root(b as int),
            old(self).root(y),
            old(self).par(y),
            (old(self).par(a as int) != old(self).par(b as int)) != link,
        ) by {
            assert(s0.root(y) == old(self).root(y));
            assert(s0.par(y) == old(self).par(y));
            assert(self.root(y) == (if s0.root(y) == big as int {
                small as int
            } else {
                s0.root(y)
            }));
            assert(self.par(y) == (if s0.root(y) == big as int {
                s0.par(y) != lp
            } else {
                s0.par(y)
            }));
        }
        true
    }
}

} // verus!
