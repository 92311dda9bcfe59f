//! Disjoint-set (union-find) structure over a fixed universe `0..n`, with
//! union by rank.  `find` walks parent pointers under a step budget of
//! `n`, which makes it total without an acyclicity argument: `n` steps
//! always suffice to reach the root of a forest built by `union`, whose
//! by-rank attachment also keeps the chains short.  The structure is used
//! transiently while grouping constraint variables into components.

use vstd::prelude::*;

verus! {

/// Mathematical model of a [`Dsu`]: parent pointers and ranks.
#[verifier::ext_equal]
pub struct DsuModel {
    pub parent: Seq<usize>,
    pub rank: Seq<u8>,
}

pub open spec fn dsu_wf(d: DsuModel, n: int) -> bool {
    &&& d.parent.len() == n
    &&& d.rank.len() == n
    &&& forall|i: int| 0 <= i < n ==> d.parent[i] < n
}

/// The representative reached from `v` by following parent pointers for at
/// most `fuel` steps.
pub open spec fn find_at(d: DsuModel, v: usize, fuel: int) -> usize
    decreases fuel,
{
    if fuel <= 0 {
        v
    } else if d.parent[v as int] == v {
        v
    } else {
        find_at(d, d.parent[v as int], fuel - 1)
    }
}

pub proof fn lemma_find_at_bound(d: DsuModel, n: int, v: usize, fuel: int)
    requires
        dsu_wf(d, n),
        v < n,
    ensures
        find_at(d, v, fuel) < n,
    decreases fuel,
{
    if fuel <= 0 {
    } else if d.parent[v as int] == v {
    } else {
        lemma_find_at_bound(d, n, d.parent[v as int], fuel - 1);
    }
}

/// The fresh structure: every element is its own root with rank zero.
pub open spec fn dsu_init(n: int) -> DsuModel {
    DsuModel {
        parent: Seq::new(n as nat, |i: int| i as usize),
        rank: Seq::new(n as nat, |i: int| 0u8),
    }
}

/// The state after merging the classes of `a` and `b`: the lower-ranked
/// root is attached beneath the higher-ranked one; on a tie the left root
/// wins and its rank grows by one.
pub open spec fn union_spec(d: DsuModel, a: usize, b: usize) -> DsuModel {
    let n = d.parent.len() as int;
    let ra = find_at(d, a, n);
    let rb = find_at(d, b, n);
    if ra == rb {
        d
    } else if d.rank[ra as int] < d.rank[rb as int] {
        DsuModel { parent: d.parent.update(ra as int, rb), rank: d.rank }
    } else if d.rank[ra as int] == d.rank[rb as int] {
        DsuModel {
            parent: d.parent.update(rb as int, ra),
            rank: if d.rank[ra as int] < 255 {
                d.rank.update(ra as int, (d.rank[ra as int] + 1) as u8)
            } else {
                d.rank
            },
        }
    } else {
        DsuModel { parent: d.parent.update(rb as int, ra), rank: d.rank }
    }
}

pub proof fn lemma_union_spec_wf(d: DsuModel, n: int, a: usize, b: usize)
    requires
        dsu_wf(d, n),
        a < n,
        b < n,
    ensures
        dsu_wf(union_spec(d, a, b), n),
{
    lemma_find_at_bound(d, n, a, n);
    lemma_find_at_bound(d, n, b, n);
}

/// Union-find over `0..n` with union by rank.
pub struct Dsu {
    parent: Vec<usize>,
    rank: Vec<u8>,
}

impl View for Dsu {
    type V = DsuModel;

    closed spec fn view(&self) -> DsuModel {
        DsuModel { parent: self.parent@, rank: self.rank@ }
    }
}

impl Dsu {
    pub open spec fn wf(self) -> bool {
        dsu_wf(self@, self@.parent.len() as int)
    }

    pub open spec fn universe(self) -> int {
        self@.parent.len() as int
    }

    pub fn new(size: usize) -> (d: Dsu)
        ensures
            d@ == dsu_init(size as int),
            d.wf(),
            d.universe() == size,
    {
        let mut parent: Vec<usize> = Vec::new();
        let mut rank: Vec<u8> = Vec::new();
        let mut i: usize = 0;
        while i < size
            invariant
                i <= size,
                parent@.len() == i,
                rank@.len() == i,
                forall|k: int| 0 <= k < i ==> parent@[k] == k,
                forall|k: int| 0 <= k < i ==> rank@[k] == 0u8,
            decreases size - i,
        {
            parent.push(i);
            rank.push(0);
            i = i + 1;
        }
        let d = Dsu { parent, rank };
        proof {
            assert(d@.parent =~= dsu_init(size as int).parent);
            assert(d@.rank =~= dsu_init(size as int).rank);
        }
        d
    }

    /// The representative of `value`'s class under the current parents.
    pub fn find(&self, value: usize) -> (r: usize)
        requires
            self.wf(),
            value < self.universe(),
        ensures
            r == find_at(self@, value, self.universe()),
            r < self.universe(),
    {
        let n = self.parent.len();
        let mut cur = value;
        let mut fuel = n;
        while fuel > 0 && self.parent[cur] != cur
            invariant
                self.wf(),
                n == self.universe(),
                cur < n,
                fuel <= n,
                find_at(self@, value, n as int) == find_at(self@, cur, fuel as int),
            decreases fuel,
        {
            cur = self.parent[cur];
            fuel = fuel - 1;
        }
        cur
    }

    /// Merges the classes of `left` and `right` by rank.
    pub fn union(&mut self, left: usize, right: usize)
        requires
            old(self).wf(),
            left < old(self).universe(),
            right < old(self).universe(),
        ensures
            final(self)@ == union_spec(old(self)@, left, right),
            final(self).wf(),
            final(self).universe() == old(self).universe(),
    {
        proof {
            lemma_union_spec_wf(self@, self.universe(), left, right);
        }
        let mut left_root = self.find(left);
        let mut right_root = self.find(right);

        if left_root == right_root {
            return;
        }

        if self.rank[left_root] < self.rank[right_root] {
            let t = left_root;
            left_root = right_root;
            right_root = t;
        }

        self.parent.set(right_root, left_root);
        if self.rank[left_root] == self.rank[right_root] {
            let r0 = self.rank[left_root];
            if r0 < 255 {
                self.rank.set(left_root, r0 + 1);
            }
        }
    }
}

} // verus!
