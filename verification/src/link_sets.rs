//! Sets of links that traffic can pass between: a union-find structure.

use std::collections::HashMap;

use vstd::prelude::*;

use crate::ids::LinkId;

verus! {

broadcast use vstd::std_specs::hash::group_hash_axioms;

/// Whether traffic can pass from `a` to `b` over the given joints, in any direction.
pub open spec fn linked(joints: Seq<(LinkId, LinkId)>, a: LinkId, b: LinkId) -> bool
    decreases joints.len(),
{
    if joints.len() == 0 {
        a == b
    } else {
        let rest = joints.drop_last();
        let (x, y) = joints.last();
        ||| linked(rest, a, b)
        ||| linked(rest, a, x) && linked(rest, y, b)
        ||| linked(rest, a, y) && linked(rest, x, b)
    }
}

/// Parents and roots agree: a key has its parent's root, and a root is its own parent and root.
spec fn agrees(parent: Map<u64, u64>, root: Map<u64, u64>) -> bool {
    &&& forall|k: u64|
        #![trigger parent[k]]
        parent.contains_key(k) ==> parent.contains_key(parent[k]) && root[parent[k]] == root[k] && (
        parent[k] == k ==> root[k] == k)
    &&& forall|k: u64|
        #![trigger root[k]]
        parent.contains_key(k) ==> parent.contains_key(root[k]) && root[root[k]] == root[k]
            && parent[root[k]] == root[k]
}

/// Ranks rise from a key to its parent and to its root, up to the bound.
spec fn rises(
    parent: Map<u64, u64>,
    root: Map<u64, u64>,
    rank: Map<u64, nat>,
    bound: nat,
) -> bool {
    &&& forall|k: u64|
        #![trigger parent[k]]
        parent.contains_key(k) && parent[k] != k ==> rank[k] < rank[parent[k]]
    &&& forall|k: u64|
        #![trigger root[k]]
        parent.contains_key(k) && root[k] != k ==> rank[k] < rank[root[k]]
    &&& forall|k: u64| #![trigger rank[k]] parent.contains_key(k) ==> rank[k] <= bound
}

/// A set of links per tree: every key points to its parent, and a root to itself.
pub struct LinkSets {
    parent: HashMap<u64, u64>,
    /// Each key's root.
    root: Ghost<Map<u64, u64>>,
    /// A number that goes up along every path to a root.
    rank: Ghost<Map<u64, nat>>,
    /// The highest rank.
    bound: Ghost<nat>,
}

impl LinkSets {
    /// Parents, roots and ranks agree.
    pub closed spec fn inv(self) -> bool {
        &&& self.root@.dom() == self.parent@.dom()
        &&& agrees(self.parent@, self.root@)
        &&& rises(self.parent@, self.root@, self.rank@, self.bound@)
    }

    /// The root of the set that holds `k`; a key not seen yet is alone in its set.
    pub closed spec fn root_of(self, k: u64) -> u64 {
        if self.root@.contains_key(k) {
            self.root@[k]
        } else {
            k
        }
    }

    /// Whether two links are in the same set exactly when the joints link them.
    pub open spec fn represents(self, joints: Seq<(LinkId, LinkId)>) -> bool {
        forall|a: LinkId, b: LinkId| #[trigger]
            linked(joints, a, b) <==> self.root_of(a.spec_raw()) == self.root_of(b.spec_raw())
    }

    /// No joints: every link is alone.
    pub fn new() -> (r: Self)
        ensures
            r.inv(),
            r.represents(Seq::empty()),
    {
        let r = LinkSets {
            parent: HashMap::new(),
            root: Ghost(Map::empty()),
            rank: Ghost(Map::empty()),
            bound: Ghost(0),
        };
        proof {
            assert(r.root@.dom() =~= r.parent@.dom());
            assert forall|a: LinkId, b: LinkId| #[trigger]
                linked(Seq::empty(), a, b) <==> r.root_of(a.spec_raw()) == r.root_of(
                    b.spec_raw(),
                ) by {
                if a.spec_raw() == b.spec_raw() {
                    crate::ids::law_link_raw_round_trip(a, b);
                }
            }
        }
        r
    }

    /// The key's parent, or the key itself if it is not there yet.
    fn parent_or_self(&self, k: u64) -> (r: u64)
        ensures
            r == (if self.parent@.contains_key(k) {
                self.parent@[k]
            } else {
                k
            }),
    {
        match self.parent.get(&k) {
            Some(p) => *p,
            None => k,
        }
    }

    /// The root of the set that holds `link`, with path compression. Iterative, so deep chains
    /// cannot overflow the stack.
    fn find_set(&mut self, link: u64) -> (r: u64)
        requires
            old(self).inv(),
        ensures
            final(self).inv(),
            r == old(self).root_of(link),
            forall|k: u64| #[trigger] final(self).root_of(k) == old(self).root_of(k),
            final(self).parent@.contains_key(r),
            final(self).root@.contains_key(link),
            old(self).parent@.dom().subset_of(final(self).parent@.dom()),
    {
        let mut root: u64 = link;
        let ghost start = *self;
        let mut above: u64 = self.parent_or_self(root);
        while above != root
            invariant
                self.inv(),
                *self == start,
                start == *old(self),
                self.parent@.contains_key(link) || above == link && root == link,
                self.parent@.contains_key(link) ==> self.parent@.contains_key(root)
                    && self.parent@[root] == above && self.root@[root] == self.root@[link],
            decreases self.bound@ - self.rank@[root],
        {
            assert(self.parent@.contains_key(root));
            root = above;
            above = self.parent_or_self(root);
        }
        if !self.parent.contains_key(&root) {
            self.parent.insert(root, root);
            proof {
                self.root@ = self.root@.insert(root, root);
                self.rank@ = self.rank@.insert(root, 0);
                assert(self.root@.dom() =~= self.parent@.dom());
            }
        }
        let ghost entered = *self;
        let mut cur: u64 = link;
        while cur != root
            invariant
                self.inv(),
                self.root@ == entered.root@,
                self.rank@ == entered.rank@,
                self.bound@ == entered.bound@,
                self.parent@.contains_key(cur),
                self.parent@.contains_key(root),
                self.root@[cur] == root,
                self.root@[root] == root,
                entered.parent@.dom() == self.parent@.dom(),
            decreases self.bound@ - self.rank@[cur],
        {
            let next = self.parent_or_self(cur);
            self.parent.insert(cur, root);
            assert(self.root@.dom() =~= self.parent@.dom());
            cur = next;
        }
        root
    }

    /// Whether the two links are in the same set.
    pub fn same_set(&mut self, a: LinkId, b: LinkId) -> (r: bool)
        requires
            old(self).inv(),
        ensures
            final(self).inv(),
            forall|joints: Seq<(LinkId, LinkId)>|
                old(self).represents(joints) ==> #[trigger] final(self).represents(joints) && r
                    == linked(joints, a, b),
    {
        let x = self.find_set(a.to_raw());
        let y = self.find_set(b.to_raw());
        proof {
            assert forall|joints: Seq<(LinkId, LinkId)>| old(self).represents(
                joints,
            ) implies #[trigger] self.represents(joints) && (x == y) == linked(joints, a, b) by {
                assert(linked(joints, a, b) <==> old(self).root_of(a.spec_raw()) == old(
                    self,
                ).root_of(b.spec_raw()));
            }
        }
        x == y
    }

    /// Joins the sets of the two links.
    pub fn join(&mut self, a: LinkId, b: LinkId)
        requires
            old(self).inv(),
        ensures
            final(self).inv(),
            forall|joints: Seq<(LinkId, LinkId)>| #[trigger]
                old(self).represents(joints) ==> final(self).represents(joints.push((a, b))),
    {
        let x = self.find_set(a.to_raw());
        let ghost between = *self;
        let y = self.find_set(b.to_raw());
        let ghost before = *self;
        proof {
            assert(between.parent@.dom().contains(x));
            assert(before.parent@.contains_key(x));
            assert(before.root_of(x) == between.root_of(x));
            assert(before.root_of(y) == between.root_of(y));
        }
        self.parent.insert(x, y);
        proof {
            if x != y {
                self.root@ = joined_roots(before.root@, x, y);
                self.rank@ = joined_ranks(before.root@, before.rank@, x, y);
                self.bound@ = before.bound@ + before.bound@ + 1;
                assert(self.root@.dom() =~= self.parent@.dom());
                lemma_joined_trees(before.parent@, before.root@, before.rank@, before.bound@, x, y);
            } else {
                assert(before.parent@[x] == x) by {
                    assert(before.root@[x] == x);
                }
                assert(self.parent@ =~= before.parent@);
            }
            assert forall|joints: Seq<(LinkId, LinkId)>| #[trigger]
                old(self).represents(joints) implies self.represents(joints.push((a, b))) by {
                assert(before.represents(joints)) by {
                    assert forall|p: LinkId, q: LinkId| #[trigger]
                        linked(joints, p, q) <==> before.root_of(p.spec_raw()) == before.root_of(
                            q.spec_raw(),
                        ) by {
                        assert(before.root_of(p.spec_raw()) == old(self).root_of(p.spec_raw()));
                        assert(before.root_of(q.spec_raw()) == old(self).root_of(q.spec_raw()));
                    }
                }
                lemma_joined_represents(before, *self, joints, a, b);
            }
        }
    }
}

/// The roots after the tree of `x` was hung under `y`.
spec fn joined_roots(root: Map<u64, u64>, x: u64, y: u64) -> Map<u64, u64> {
    Map::new(
        |k: u64| root.contains_key(k),
        |k: u64|
            if root[k] == x {
                y
            } else {
                root[k]
            },
    )
}

/// Ranks after the tree of `x` was hung under `y`: the tree of `y` moves up to make room.
spec fn joined_ranks(
    root: Map<u64, u64>,
    rank: Map<u64, nat>,
    x: u64,
    y: u64,
) -> Map<u64, nat> {
    Map::new(
        |k: u64| root.contains_key(k),
        |k: u64|
            if root[k] == y {
                rank[k] + rank[x] + 1
            } else {
                rank[k]
            },
    )
}

/// Hanging one tree under the root of another keeps parents, roots and ranks in agreement.
proof fn lemma_joined_trees(
    parent: Map<u64, u64>,
    root: Map<u64, u64>,
    rank: Map<u64, nat>,
    bound: nat,
    x: u64,
    y: u64,
)
    requires
        root.dom() == parent.dom(),
        agrees(parent, root),
        rises(parent, root, rank, bound),
        parent.contains_key(x),
        parent.contains_key(y),
        root[x] == x,
        root[y] == y,
        x != y,
    ensures
        agrees(parent.insert(x, y), joined_roots(root, x, y)),
        rises(
            parent.insert(x, y),
            joined_roots(root, x, y),
            joined_ranks(root, rank, x, y),
            bound + bound + 1,
        ),
{
    let p2 = parent.insert(x, y);
    let r2 = joined_roots(root, x, y);
    let k2 = joined_ranks(root, rank, x, y);
    assert(rank[x] <= bound);
    assert forall|k: u64| #![trigger p2[k]] p2.contains_key(k) implies p2.contains_key(p2[k])
        && r2[p2[k]] == r2[k] && (p2[k] == k ==> r2[k] == k) && (p2[k] != k ==> k2[k] < k2[p2[k]]) by {
        assert(parent[k] == parent[k]);
        assert(root[k] == root[k]);
    }
    assert forall|k: u64| #![trigger r2[k]] p2.contains_key(k) implies p2.contains_key(r2[k])
        && r2[r2[k]] == r2[k] && p2[r2[k]] == r2[k] && (r2[k] != k ==> k2[k] < k2[r2[k]]) by {
        assert(parent[k] == parent[k]);
        assert(root[k] == root[k]);
    }
    assert forall|k: u64| #![trigger k2[k]] p2.contains_key(k) implies k2[k] <= bound + bound + 1 by {
        assert(rank[k] <= bound);
    }
}

/// Joining two sets is adding a joint.
proof fn lemma_joined_represents(
    before: LinkSets,
    after: LinkSets,
    joints: Seq<(LinkId, LinkId)>,
    a: LinkId,
    b: LinkId,
)
    requires
        before.represents(joints),
        forall|k: u64| #[trigger]
            after.root_of(k) == (if before.root_of(k) == before.root_of(a.spec_raw()) {
                before.root_of(b.spec_raw())
            } else {
                before.root_of(k)
            }),
    ensures
        after.represents(joints.push((a, b))),
{
    let more = joints.push((a, b));
    assert(more.drop_last() =~= joints);
    assert(more.last() == (a, b));
    assert forall|p: LinkId, q: LinkId| #[trigger] linked(more, p, q) <==> after.root_of(
        p.spec_raw(),
    ) == after.root_of(q.spec_raw()) by {
        let rp = before.root_of(p.spec_raw());
        let rq = before.root_of(q.spec_raw());
        let ra = before.root_of(a.spec_raw());
        let rb = before.root_of(b.spec_raw());
        assert(linked(joints, p, q) <==> rp == rq);
        assert(linked(joints, p, a) <==> rp == ra);
        assert(linked(joints, p, b) <==> rp == rb);
        assert(linked(joints, a, q) <==> ra == rq);
        assert(linked(joints, b, q) <==> rb == rq);
        assert(after.root_of(p.spec_raw()) == (if rp == ra {
            rb
        } else {
            rp
        }));
        assert(after.root_of(q.spec_raw()) == (if rq == ra {
            rb
        } else {
            rq
        }));
    }
}

} // verus!
