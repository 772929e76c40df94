//! Disjoint-set forest (union by rank, path compression) over `0..n`.
use vstd::prelude::*;
use vstd::arithmetic::power2::{pow2, lemma_pow2_unfold, lemma_pow2_strictly_increases, lemma2_to64, lemma_pow2_pos};

verus! {

/// How many entries of `s` equal `v`.
pub open spec fn count(s: Seq<int>, v: int) -> nat
    decreases s.len(),
{
    if s.len() == 0 {
        0
    } else {
        count(s.drop_last(), v) + if s.last() == v { 1nat } else { 0nat }
    }
}

/// `s` with every entry equal to `from` replaced by `to`.
pub open spec fn relabel(s: Seq<int>, from: int, to: int) -> Seq<int> {
    Seq::new(s.len(), |i: int| if s[i] == from { to } else { s[i] })
}

/// After merging the classes of `a` and `b` in the partition `s`, `x` and
/// `y` are in one class.
pub open spec fn joined(s: Seq<int>, a: int, b: int, x: int, y: int) -> bool {
    ||| s[x] == s[y]
    ||| s[x] == s[a] && s[y] == s[b]
    ||| s[x] == s[b] && s[y] == s[a]
}

/// The representatives of a fresh forest: every element is its own class.
pub open spec fn singletons(n: nat) -> Seq<int> {
    Seq::new(n, |i: int| i)
}

proof fn lemma_count_le_len(s: Seq<int>, v: int)
    ensures
        count(s, v) <= s.len(),
    decreases s.len(),
{
    if s.len() > 0 {
        lemma_count_le_len(s.drop_last(), v);
    }
}

proof fn lemma_count_two(s: Seq<int>, a: int, b: int)
    requires
        a != b,
    ensures
        count(s, a) + count(s, b) <= s.len(),
    decreases s.len(),
{
    if s.len() > 0 {
        lemma_count_two(s.drop_last(), a, b);
    }
}

proof fn lemma_count_pos(s: Seq<int>, i: int)
    requires
        0 <= i < s.len(),
    ensures
        count(s, s[i]) >= 1,
    decreases s.len(),
{
    if i < s.len() - 1 {
        lemma_count_pos(s.drop_last(), i);
    }
}

proof fn lemma_count_relabel(s: Seq<int>, from: int, to: int, c: int)
    requires
        from != to,
    ensures
        count(relabel(s, from, to), to) == count(s, to) + count(s, from),
        c != from && c != to ==> count(relabel(s, from, to), c) == count(s, c),
    decreases s.len(),
{
    if s.len() > 0 {
        assert(relabel(s, from, to).drop_last() =~= relabel(s.drop_last(), from, to));
        lemma_count_relabel(s.drop_last(), from, to, c);
    }
}

/// The well-formedness of a forest given as parent links, ranks and the
/// representative (root) of every element.
pub open spec fn forest_wf(parent: Seq<usize>, rank: Seq<u8>, roots: Seq<int>) -> bool {
    let n = parent.len();
    &&& rank.len() == n
    &&& roots.len() == n
    &&& forall|i: int| 0 <= i < n ==> #[trigger] parent[i] < n
    &&& forall|i: int| 0 <= i < n ==> 0 <= #[trigger] roots[i] < n
    &&& forall|i: int| 0 <= i < n ==> parent[#[trigger] roots[i]] == roots[i]
    &&& forall|i: int| 0 <= i < n ==> roots[#[trigger] parent[i] as int] == roots[i]
    &&& forall|i: int| 0 <= i < n && #[trigger] parent[i] != i ==> rank[parent[i] as int] > rank[i]
    &&& forall|i: int| 0 <= i < n && #[trigger] roots[i] != i ==> rank[roots[i]] > rank[i]
    &&& forall|i: int| 0 <= i < n && #[trigger] parent[i] == i ==> roots[i] == i
    &&& forall|i: int| 0 <= i < n && #[trigger] parent[i] == i ==> count(roots, i) >= pow2(rank[i] as nat)
}

/// Linking the root `child` below the root `to` keeps the forest well formed,
/// when the rank of `to` afterwards is above that of `child`, and at least
/// `log2` of the merged class size.
proof fn lemma_link(
    parent: Seq<usize>,
    rank: Seq<u8>,
    roots: Seq<int>,
    child: int,
    to: int,
    new_rank: Seq<u8>,
)
    requires
        forest_wf(parent, rank, roots),
        0 <= child < parent.len(),
        0 <= to < parent.len(),
        child != to,
        parent[child] == child,
        parent[to] == to,
        new_rank.len() == rank.len(),
        forall|i: int| 0 <= i < rank.len() && i != to ==> new_rank[i] == rank[i],
        new_rank[to] >= rank[to],
        new_rank[to] > rank[child],
        pow2(new_rank[to] as nat) <= pow2(rank[to] as nat) + pow2(rank[child] as nat),
    ensures
        forest_wf(parent.update(child, to as usize), new_rank, relabel(roots, child, to)),
{
    let p2 = parent.update(child, to as usize);
    let r2 = relabel(roots, child, to);
    let n = parent.len();
    assert(roots[child] == child);
    assert(roots[to] == to);
    assert forall|i: int| 0 <= i < n && #[trigger] p2[i] == i implies count(r2, i) >= pow2(
        new_rank[i] as nat,
    ) by {
        lemma_count_relabel(roots, child, to, i);
    }
    assert forall|i: int| 0 <= i < n implies r2[#[trigger] p2[i] as int] == r2[i] by {
        if i != child {
            assert(roots[parent[i] as int] == roots[i]);
        }
    }
    assert forall|i: int| 0 <= i < n && #[trigger] r2[i] != i implies new_rank[r2[i]] > new_rank[i] by {
        if roots[i] == child {
            if i != child {
                assert(rank[roots[i]] > rank[i]);
            }
        } else {
            if roots[i] != i {
                assert(rank[roots[i]] > rank[i]);
            }
        }
    }
    assert forall|i: int| 0 <= i < n && #[trigger] p2[i] != i implies new_rank[p2[i] as int] > new_rank[i] by {
        if i != child {
            assert(rank[parent[i] as int] > rank[i]);
        }
    }
    assert forall|i: int| 0 <= i < n implies p2[#[trigger] r2[i]] == r2[i] by {
        assert(parent[roots[i]] == roots[i]);
    }
}

/// A disjoint-set forest over the elements `0..n`, merging by rank and
/// compressing paths on lookup.
pub struct Dsu {
    parent: Vec<usize>,
    rank: Vec<u8>,
    roots: Ghost<Seq<int>>,
}

impl View for Dsu {
    type V = Seq<int>;

    /// The representative of each element's class.
    closed spec fn view(&self) -> Seq<int> {
        self.roots@
    }
}

impl Dsu {
    /// The forest is well formed.
    pub closed spec fn wf(&self) -> bool {
        forest_wf(self.parent@, self.rank@, self.roots@)
    }

    /// The rank of every element (meaningful for representatives).
    pub closed spec fn ranks(&self) -> Seq<int> {
        Seq::new(self.rank@.len(), |i: int| self.rank@[i] as int)
    }

    /// The parent link of every element.
    pub closed spec fn parents(&self) -> Seq<int> {
        Seq::new(self.parent@.len(), |i: int| self.parent@[i] as int)
    }

    /// Elements `x` and `y` are in one class.
    pub open spec fn same(&self, x: int, y: int) -> bool {
        self@[x] == self@[y]
    }

    /// Every representative is an element, and represents itself.
    pub proof fn lemma_roots_in_range(&self)
        requires
            self.wf(),
        ensures
            forall|i: int| 0 <= i < self@.len() ==> 0 <= #[trigger] self@[i] < self@.len(),
            forall|i: int| 0 <= i < self@.len() ==> self@[#[trigger] self@[i]] == self@[i],
    {
        assert forall|i: int| 0 <= i < self@.len() implies self@[#[trigger] self@[i]] == self@[i] by {
            let r = self.roots@[i];
            assert(self.parent@[r] == r);
            assert(self.roots@[self.parent@[r] as int] == self.roots@[r]);
        }
    }

    /// A forest of `n` singleton classes, all of rank 0.
    pub fn new(n: usize) -> (d: Dsu)
        ensures
            d.wf(),
            d@ == singletons(n as nat),
            d.ranks() == Seq::new(n as nat, |i: int| 0int),
    {
        let mut parent: Vec<usize> = Vec::new();
        let mut rank: Vec<u8> = Vec::new();
        for i in 0..n
            invariant
                parent@ == Seq::new(i as nat, |j: int| j as usize),
                rank@ == Seq::new(i as nat, |j: int| 0u8),
        {
            parent.push(i);
            rank.push(0);
        }
        let ghost roots = singletons(n as nat);
        proof {
            assert forall|i: int| 0 <= i < n && #[trigger] parent@[i] == i implies count(roots, i) >= pow2(
                rank@[i] as nat,
            ) by {
                lemma_count_pos(roots, i);
                lemma2_to64();
            }
        }
        let d = Dsu { parent, rank, roots: Ghost(roots) };
        assert(d.ranks() =~= Seq::new(n as nat, |i: int| 0int));
        d
    }

    /// The representative of the class of `x`; shortens the path from `x`.
    pub fn find(&mut self, x: usize) -> (r: usize)
        requires
            old(self).wf(),
            x < old(self)@.len(),
        ensures
            final(self).wf(),
            final(self)@ == old(self)@,
            final(self).ranks() == old(self).ranks(),
            r == old(self)@[x as int],
            r < old(self)@.len(),
            final(self).parents().len() == old(self).parents().len(),
            final(self).parents()[x as int] == r,
            final(self).parents()[r as int] == r,
            forall|i: int|
                0 <= i < old(self)@.len() ==> #[trigger] final(self).parents()[i] == old(self).parents()[i]
                    || final(self).parents()[i] == old(self)@[i],
        decreases 256 - old(self).ranks()[x as int],
    {
        proof {
            assert(self.parent@[x as int] < self.parent@.len());
        }
        let ghost start = *self;
        if self.parent[x] != x {
            let p = self.parent[x];
            proof {
                assert(self.rank@[p as int] > self.rank@[x as int]);
            }
            let r = self.find(p);
            let ghost mid = *self;
            proof {
                assert(self.roots@[p as int] == self.roots@[x as int]);
                assert(self.roots@[x as int] != x);
            }
            let ghost before = self.parent@;
            self.parent.set(x, r);
            proof {
                let n = before.len();
                let p2 = self.parent@;
                let roots = self.roots@;
                let rank = self.rank@;
                assert(forall|i: int| 0 <= i < n && i != x ==> p2[i] == before[i]);
                assert forall|i: int| 0 <= i < n implies roots[#[trigger] p2[i] as int] == roots[i] by {
                    if i != x {
                        assert(roots[before[i] as int] == roots[i]);
                    }
                }
                assert forall|i: int| 0 <= i < n && #[trigger] p2[i] != i implies rank[p2[i] as int]
                    > rank[i] by {
                    if i != x {
                        assert(rank[before[i] as int] > rank[i]);
                    }
                }
                assert forall|i: int| 0 <= i < n && #[trigger] p2[i] == i implies roots[i] == i by {
                    if i != x {
                        assert(before[i] == i);
                    }
                }
                assert forall|i: int| 0 <= i < n && #[trigger] p2[i] == i implies count(roots, i) >= pow2(
                    rank[i] as nat,
                ) by {
                    if i != x {
                        assert(before[i] == i);
                    }
                }
                assert forall|i: int| 0 <= i < n implies p2[#[trigger] roots[i]] == roots[i] by {
                    assert(before[roots[i]] == roots[i]);
                }
                assert forall|i: int| 0 <= i < n implies #[trigger] p2[i] < n by {
                    if i != x {
                        assert(before[i] < n);
                    }
                }
                assert forall|i: int| 0 <= i < n implies #[trigger] self.parents()[i]
                    == start.parents()[i] || self.parents()[i] == start@[i] by {
                    if i != x {
                        assert(self.parents()[i] == mid.parents()[i]);
                    }
                }
            }
        } else {
            proof {
                assert(self.roots@[x as int] == x);
            }
        }
        self.parent[x]
    }

    /// Merges the classes of `a` and `b`: the representative of lower rank is
    /// linked below the other; on equal ranks `b`'s goes below `a`'s, whose
    /// rank grows by one.
    pub fn union(&mut self, a: usize, b: usize)
        requires
            old(self).wf(),
            a < old(self)@.len(),
            b < old(self)@.len(),
        ensures
            final(self).wf(),
            final(self)@.len() == old(self)@.len(),
            ({
                let ra = old(self)@[a as int];
                let rb = old(self)@[b as int];
                let rk = old(self).ranks();
                &&& ra == rb ==> final(self)@ == old(self)@ && final(self).ranks() == rk
                &&& ra != rb && rk[ra] < rk[rb] ==> final(self)@ == relabel(old(self)@, ra, rb)
                    && final(self).ranks() == rk
                &&& ra != rb && rk[rb] < rk[ra] ==> final(self)@ == relabel(old(self)@, rb, ra)
                    && final(self).ranks() == rk
                &&& ra != rb && rk[ra] == rk[rb] ==> final(self)@ == relabel(old(self)@, rb, ra)
                    && final(self).ranks() == rk.update(ra, rk[ra] + 1)
            }),
            forall|x: int, y: int|
                0 <= x < old(self)@.len() && 0 <= y < old(self)@.len() ==> (final(self)@[x]
                    == final(self)@[y] <==> #[trigger] joined(old(self)@, a as int, b as int, x, y)),
    {
        let ghost o = *self;
        let ra = self.find(a);
        let rb = self.find(b);
        if ra == rb {
            return ;
        }
        proof {
            assert(self.parent@[ra as int] == ra);
            assert(self.parent@[rb as int] == rb);
        }
        let ghost old_rank = self.rank@;
        if self.rank[ra] < self.rank[rb] {
            proof {
                lemma_pow2_pos(old_rank[ra as int] as nat);
                lemma_link(self.parent@, self.rank@, self.roots@, ra as int, rb as int, self.rank@);
            }
            self.parent.set(ra, rb);
            self.roots = Ghost(relabel(self.roots@, ra as int, rb as int));
        } else if self.rank[rb] < self.rank[ra] {
            proof {
                lemma_pow2_pos(old_rank[rb as int] as nat);
                lemma_link(self.parent@, self.rank@, self.roots@, rb as int, ra as int, self.rank@);
            }
            self.parent.set(rb, ra);
            self.roots = Ghost(relabel(self.roots@, rb as int, ra as int));
        } else {
            let r = self.rank[ra];
            let n = self.parent.len();
            proof {
                assert(n == self.roots@.len());
                let roots = self.roots@;
                lemma_count_two(roots, ra as int, rb as int);
                assert(count(roots, ra as int) >= pow2(r as nat));
                assert(count(roots, rb as int) >= pow2(r as nat));
                lemma_pow2_unfold((r + 1) as nat);
                assert(pow2((r + 1) as nat) <= roots.len());
                if r >= 63 {
                    lemma2_to64();
                    if r > 63 {
                        lemma_pow2_strictly_increases(64, (r + 1) as nat);
                    }
                    assert(false);
                }
            }
            let ghost new_rank = self.rank@.update(ra as int, (r + 1) as u8);
            proof {
                lemma_link(self.parent@, self.rank@, self.roots@, rb as int, ra as int, new_rank);
            }
            self.parent.set(rb, ra);
            self.rank.set(ra, r + 1);
            self.roots = Ghost(relabel(self.roots@, rb as int, ra as int));
            assert(self.ranks() =~= o.ranks().update(ra as int, o.ranks()[ra as int] + 1));
        }
    }
}

} // verus!
