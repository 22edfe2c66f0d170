//! What the canvas shows of one level of the hierarchy: the children of a node, the links they
//! use, and the spokes between them.

use vstd::prelude::*;
use vstd::string::*;

use crate::forms::holds_link;
use crate::snapshot::Snapshot;

verus! {

/// Something that can be drawn, hovered and selected.
#[derive(Debug, Clone, Copy, PartialEq, Eq, Structural, Hash)]
pub enum Item {
    /// A node, by handle.
    Node(u64),
    /// A link, by handle.
    Link(u64),
}

/// What a [`Scene`] holds.
#[verifier::ext_equal]
pub struct SceneView {
    pub items: Seq<Item>,
    pub outer_links: Seq<u64>,
    pub edges: Seq<(u64, u64)>,
}

/// The links as items.
pub open spec fn link_items(links: Seq<u64>) -> Seq<Item> {
    links.map_values(|l: u64| Item::Link(l))
}

impl SceneView {
    /// Nothing at all.
    pub open spec fn empty() -> SceneView {
        SceneView { items: Seq::empty(), outer_links: Seq::empty(), edges: Seq::empty() }
    }

    /// With a spoke from `child` to `link`, which is shown too, once, unless it is one of the
    /// level's own links.
    pub open spec fn with_spoke(self, own: Seq<u64>, child: u64, link: u64) -> SceneView {
        let edges = self.edges.push((child, link));
        if !own.contains(link) && !self.outer_links.contains(link) {
            SceneView {
                items: self.items.push(Item::Link(link)),
                outer_links: self.outer_links.push(link),
                edges,
            }
        } else {
            SceneView { edges, ..self }
        }
    }

    /// With spokes from `child` to each of `links`.
    pub open spec fn with_spokes(self, own: Seq<u64>, child: u64, links: Seq<u64>) -> SceneView
        decreases links.len(),
    {
        if links.len() == 0 {
            self
        } else {
            self.with_spokes(own, child, links.drop_last()).with_spoke(own, child, links.last())
        }
    }

    /// With `child` and its spokes.
    pub open spec fn with_child(
        self,
        snap: crate::snapshot::SnapView,
        own: Seq<u64>,
        child: u64,
    ) -> SceneView {
        let shown = SceneView { items: self.items.push(Item::Node(child)), ..self };
        match snap.node(child) {
            Some(c) => shown.with_spokes(own, child, c.subscriptions@),
            None => shown,
        }
    }

    /// With all of `children` and their spokes.
    pub open spec fn with_children(
        self,
        snap: crate::snapshot::SnapView,
        own: Seq<u64>,
        children: Seq<u64>,
    ) -> SceneView
        decreases children.len(),
    {
        if children.len() == 0 {
            self
        } else {
            self.with_children(snap, own, children.drop_last()).with_child(
                snap,
                own,
                children.last(),
            )
        }
    }

    /// What looking inside `scope` shows.
    pub open spec fn of(snap: crate::snapshot::SnapView, scope: u64) -> SceneView {
        match snap.node(scope) {
            Some(node) => (SceneView {
                items: link_items(node.internal_links@),
                ..SceneView::empty()
            }).with_children(snap, node.internal_links@, node.children@),
            None => SceneView::empty(),
        }
    }

    /// Whether a spoke joins the two.
    pub open spec fn joins(self, item: Item, other: Item) -> bool {
        exists|i: int|
            0 <= i < self.edges.len() && #[trigger] spoke_joins(self.edges[i], item, other)
    }

    /// Whether everything a spoke ends at is shown, and no outer link is listed twice or is one
    /// of the level's own.
    pub open spec fn consistent(self, own: Seq<u64>) -> bool {
        &&& forall|i: int|
            0 <= i < self.edges.len() ==> self.items.contains(
                Item::Node((#[trigger] self.edges[i]).0),
            ) && self.items.contains(Item::Link(self.edges[i].1))
        &&& self.outer_links.no_duplicates()
        &&& forall|l: u64| #[trigger] self.outer_links.contains(l) ==> !own.contains(l)
            && self.items.contains(Item::Link(l))
        &&& forall|l: u64| own.contains(l) ==> #[trigger] self.items.contains(Item::Link(l))
    }
}

/// Whether a spoke has these two ends.
pub open spec fn spoke_joins(edge: (u64, u64), item: Item, other: Item) -> bool {
    let (node, link) = (Item::Node(edge.0), Item::Link(edge.1));
    (item == node && other == link) || (item == link && other == node)
}

/// The items and spokes visible in one level.
#[derive(Debug)]
pub struct Scene {
    /// Everything drawn, in drawing order.
    pub items: Vec<Item>,
    /// Links shown because a child uses them, although the level does not own them.
    pub outer_links: Vec<u64>,
    /// A spoke from each child to each link it is attached to.
    pub edges: Vec<(u64, u64)>,
}

impl View for Scene {
    type V = SceneView;

    open spec fn view(&self) -> SceneView {
        SceneView { items: self.items@, outer_links: self.outer_links@, edges: self.edges@ }
    }
}

impl Scene {
    /// Nothing at all.
    fn empty() -> (r: Self)
        ensures
            r@ == SceneView::empty(),
    {
        let r = Scene { items: Vec::new(), outer_links: Vec::new(), edges: Vec::new() };
        assert(r@ =~= SceneView::empty());
        r
    }

    /// Adds a child and its spokes.
    fn add_child(&mut self, snap: &Snapshot, own: &Vec<u64>, child: u64)
        ensures
            final(self)@ == old(self)@.with_child(snap@, own@, child),
    {
        self.items.push(Item::Node(child));
        let ghost shown = self@;
        assert(shown =~= SceneView { items: old(self)@.items.push(Item::Node(child)), ..old(self)@ });
        if let Some(node) = snap.node(child) {
            let links = &node.subscriptions;
            let mut i: usize = 0;
            assert(links@.take(0) =~= Seq::<u64>::empty());
            while i < links.len()
                invariant
                    i <= links.len(),
                    self@ == shown.with_spokes(own@, child, links@.take(i as int)),
                decreases links.len() - i,
            {
                let link: u64 = links[i];
                let ghost before = self@;
                self.edges.push((child, link));
                if !holds_link(own, link) && !holds_link(&self.outer_links, link) {
                    self.outer_links.push(link);
                    self.items.push(Item::Link(link));
                }
                i += 1;
                proof {
                    assert(self@ =~= before.with_spoke(own@, child, link));
                    assert(links@.take(i as int).drop_last() =~= links@.take(i - 1));
                    assert(links@.take(i as int).last() == link);
                }
            }
            assert(links@.take(i as int) =~= links@);
        }
    }

    /// What looking inside `scope` shows.
    pub fn new(snap: &Snapshot, scope: u64) -> (r: Self)
        ensures
            r@ == SceneView::of(snap@, scope),
    {
        let mut scene = Scene::empty();
        let node = match snap.node(scope) {
            Some(node) => node,
            None => {
                return scene;
            },
        };
        let own = &node.internal_links;
        let mut i: usize = 0;
        while i < own.len()
            invariant
                i <= own.len(),
                scene@ == (SceneView {
                    items: link_items(own@.take(i as int)),
                    ..SceneView::empty()
                }),
            decreases own.len() - i,
        {
            scene.items.push(Item::Link(own[i]));
            i += 1;
            assert(scene@.items =~= link_items(own@.take(i as int)));
        }
        assert(own@.take(i as int) =~= own@);
        let ghost start = scene@;
        let children = &node.children;
        let mut k: usize = 0;
        assert(children@.take(0) =~= Seq::<u64>::empty());
        while k < children.len()
            invariant
                k <= children.len(),
                scene@ == start.with_children(snap@, own@, children@.take(k as int)),
            decreases children.len() - k,
        {
            scene.add_child(snap, own, children[k]);
            k += 1;
            proof {
                assert(children@.take(k as int).drop_last() =~= children@.take(k - 1));
                assert(children@.take(k as int).last() == children@[k - 1]);
            }
        }
        assert(children@.take(k as int) =~= children@);
        scene
    }

    /// Whether a spoke joins the two.
    pub fn has_edge(&self, item: Item, other: Item) -> (r: bool)
        ensures
            r == self@.joins(item, other),
    {
        let mut i: usize = 0;
        while i < self.edges.len()
            invariant
                i <= self.edges.len(),
                forall|j: int|
                    0 <= j < i ==> !(#[trigger] spoke_joins(self.edges@[j], item, other)),
            decreases self.edges.len() - i,
        {
            let node = Item::Node(self.edges[i].0);
            let link = Item::Link(self.edges[i].1);
            if (item == node && other == link) || (item == link && other == node) {
                assert(spoke_joins(self@.edges[i as int], item, other));
                return true;
            }
            i += 1;
        }
        false
    }

    /// Whether a link belongs to a node outside this level.
    pub fn is_outer(&self, link: u64) -> (r: bool)
        ensures
            r == self@.outer_links.contains(link),
    {
        holds_link(&self.outer_links, link)
    }

    /// The items in the order a pointer finds them: nodes are drawn on top of links.
    pub fn topmost_first(&self) -> (r: Vec<Item>)
        ensures
            r@ == self@.items.filter(|i: Item| i is Node) + self@.items.filter(
                |i: Item| i is Link,
            ),
    {
        let mut nodes: Vec<Item> = Vec::new();
        let mut links: Vec<Item> = Vec::new();
        let ghost is_node = |i: Item| i is Node;
        let ghost is_link = |i: Item| i is Link;
        let mut i: usize = 0;
        proof {
            reveal(Seq::filter);
        }
        while i < self.items.len()
            invariant
                i <= self.items.len(),
                is_node == (|i: Item| i is Node),
                is_link == (|i: Item| i is Link),
                nodes@ == self.items@.take(i as int).filter(is_node),
                links@ == self.items@.take(i as int).filter(is_link),
            decreases self.items.len() - i,
        {
            let item = self.items[i];
            proof {
                reveal(Seq::filter);
                assert(self.items@.take(i + 1).drop_last() =~= self.items@.take(i as int));
                assert(self.items@.take(i + 1).last() == item);
            }
            match item {
                Item::Node(_) => {
                    nodes.push(item);
                },
                Item::Link(_) => {
                    links.push(item);
                },
            }
            i += 1;
        }
        assert(self.items@.take(i as int) =~= self.items@);
        nodes.append(&mut links);
        nodes
    }

    /// How many layout steps to run in one frame: a bounded amount of work, so big levels stay
    /// responsive while they settle.
    pub fn steps_per_frame(&self) -> (r: u64)
        ensures
            ({
                let n = self@.items.len();
                let work = if n == 0 {
                    40_000int
                } else {
                    40_000int / (n * n) as int
                };
                r == (if work < 1 {
                    1int
                } else if work > 12 {
                    12int
                } else {
                    work
                })
            }),
    {
        let n: u64 = self.items.len() as u64;
        if n > 200 {
            proof {
                assert(n * n > 40_000) by (nonlinear_arith)
                    requires
                        n > 200,
                ;
                let square = (n * n) as int;
                assert(40_000int / square == 0) by (nonlinear_arith)
                    requires
                        square > 40_000,
                ;
            }
            return 1;
        }
        let pairs: u64 = if n == 0 {
            1
        } else {
            assert(1 <= n * n <= 40_000) by (nonlinear_arith)
                requires
                    1 <= n <= 200,
            ;
            n * n
        };
        let work: u64 = 40_000 / pairs;
        if work < 1 {
            1
        } else if work > 12 {
            12
        } else {
            work
        }
    }
}

/// The node whose level shows an item: a node's parent, or a link's owner; failing that, the
/// root.
pub open spec fn container(snap: crate::snapshot::SnapView, item: Item) -> u64 {
    let inside = match item {
        Item::Node(node) => snap.parent(node),
        Item::Link(link) => match snap.link(link) {
            Some(l) => l.owner,
            None => None,
        },
    };
    match inside {
        Some(id) => id,
        None => snap.root,
    }
}

/// The node whose level shows `item`: a node's parent, or a link's owner.
pub fn container_of(snap: &Snapshot, item: Item) -> (r: u64)
    ensures
        r == container(snap@, item),
{
    let inside = match item {
        Item::Node(node) => snap.parent_of(node),
        Item::Link(link) => match snap.link(link) {
            Some(l) => l.owner,
            None => None,
        },
    };
    match inside {
        Some(id) => id,
        None => snap.root(),
    }
}

/// Spokes keep a scene consistent.
proof fn lemma_spokes(scene: SceneView, own: Seq<u64>, child: u64, links: Seq<u64>)
    requires
        scene.consistent(own),
        scene.items.contains(Item::Node(child)),
    ensures
        scene.with_spokes(own, child, links).consistent(own),
        scene.with_spokes(own, child, links).items.contains(Item::Node(child)),
    decreases links.len(),
{
    if links.len() > 0 {
        lemma_spokes(scene, own, child, links.drop_last());
        let before = scene.with_spokes(own, child, links.drop_last());
        let after = scene.with_spokes(own, child, links);
        let link = links.last();
        assert forall|i: Item| before.items.contains(i) implies after.items.contains(i) by {
            let k = before.items.index_of(i);
            assert(after.items[k] == i);
        }
        if !own.contains(link) && !before.outer_links.contains(link) {
            assert(after.items[after.items.len() - 1] == Item::Link(link));
            assert forall|l: u64| #[trigger] after.outer_links.contains(l) implies !own.contains(l)
                && after.items.contains(Item::Link(l)) by {
                if l != link {
                    let k = after.outer_links.index_of(l);
                    assert(before.outer_links[k] == l);
                    assert(before.outer_links.contains(l));
                }
            }
            assert(after.outer_links.no_duplicates());
        } else if own.contains(link) {
            assert(before.items.contains(Item::Link(link)));
        } else {
            assert(before.outer_links.contains(link));
        }
        assert forall|i: int| 0 <= i < after.edges.len() implies after.items.contains(
            Item::Node((#[trigger] after.edges[i]).0),
        ) && after.items.contains(Item::Link(after.edges[i].1)) by {
            if i < before.edges.len() {
                assert(after.edges[i] == before.edges[i]);
            }
        }
    }
}

/// Children keep a scene consistent.
proof fn lemma_children(
    scene: SceneView,
    snap: crate::snapshot::SnapView,
    own: Seq<u64>,
    children: Seq<u64>,
)
    requires
        scene.consistent(own),
    ensures
        scene.with_children(snap, own, children).consistent(own),
    decreases children.len(),
{
    if children.len() > 0 {
        lemma_children(scene, snap, own, children.drop_last());
        let before = scene.with_children(snap, own, children.drop_last());
        let child = children.last();
        let shown = SceneView { items: before.items.push(Item::Node(child)), ..before };
        assert forall|i: Item| before.items.contains(i) implies shown.items.contains(i) by {
            let k = before.items.index_of(i);
            assert(shown.items[k] == i);
        }
        assert(shown.items[shown.items.len() - 1] == Item::Node(child));
        assert forall|i: int| 0 <= i < shown.edges.len() implies shown.items.contains(
            Item::Node((#[trigger] shown.edges[i]).0),
        ) && shown.items.contains(Item::Link(shown.edges[i].1)) by {
            assert(before.edges[i] == shown.edges[i]);
        }
        if let Some(c) = snap.node(child) {
            lemma_spokes(shown, own, child, c.subscriptions@);
        }
    }
}

/// Every spoke ends at a node and a link that are shown, and a link from outside the level is
/// shown once, and never as one of the level's own.
pub proof fn law_scene_is_consistent(snap: crate::snapshot::SnapView, scope: u64)
    requires
        snap.node(scope) is Some,
    ensures
        SceneView::of(snap, scope).consistent(snap.node(scope)->0.internal_links@),
{
    let node = snap.node(scope)->0;
    let own = node.internal_links@;
    let start = SceneView { items: link_items(own), ..SceneView::empty() };
    assert forall|l: u64| own.contains(l) implies #[trigger] start.items.contains(
        Item::Link(l),
    ) by {
        let k = own.index_of(l);
        assert(start.items[k] == Item::Link(l));
    }
    lemma_children(start, snap, own, node.children@);
}

/// Nothing that is shown goes away when children are added.
proof fn lemma_children_are_shown(
    scene: SceneView,
    snap: crate::snapshot::SnapView,
    own: Seq<u64>,
    children: Seq<u64>,
)
    requires
        scene.consistent(own),
    ensures
        forall|c: u64|
            children.contains(c) ==> #[trigger] scene.with_children(
                snap,
                own,
                children,
            ).items.contains(Item::Node(c)),
    decreases children.len(),
{
    if children.len() > 0 {
        let front = children.drop_last();
        lemma_children_are_shown(scene, snap, own, front);
        lemma_children(scene, snap, own, front);
        let before = scene.with_children(snap, own, front);
        let after = scene.with_children(snap, own, children);
        let child = children.last();
        let shown = SceneView { items: before.items.push(Item::Node(child)), ..before };
        let links = match snap.node(child) {
            Some(c) => c.subscriptions@,
            None => Seq::empty(),
        };
        lemma_spokes_keep(shown, own, child, links);
        assert(after == shown.with_spokes(own, child, links));
        assert(shown.items[shown.items.len() - 1] == Item::Node(child));
        assert forall|c: u64| children.contains(c) implies #[trigger] after.items.contains(
            Item::Node(c),
        ) by {
            let k = children.index_of(c);
            if k < front.len() {
                assert(front[k] == c);
                assert(before.items.contains(Item::Node(c)));
                let at = before.items.index_of(Item::Node(c));
                assert(shown.items[at] == Item::Node(c));
            }
            assert(shown.items.contains(Item::Node(c)));
        }
    }
}

/// Spokes only add items.
proof fn lemma_spokes_keep(scene: SceneView, own: Seq<u64>, child: u64, links: Seq<u64>)
    ensures
        forall|i: Item|
            scene.items.contains(i) ==> #[trigger] scene.with_spokes(
                own,
                child,
                links,
            ).items.contains(i),
    decreases links.len(),
{
    if links.len() > 0 {
        lemma_spokes_keep(scene, own, child, links.drop_last());
        let before = scene.with_spokes(own, child, links.drop_last());
        let after = scene.with_spokes(own, child, links);
        assert forall|i: Item| scene.items.contains(i) implies #[trigger] after.items.contains(
            i,
        ) by {
            assert(before.items.contains(i));
            let k = before.items.index_of(i);
            assert(after.items[k] == i);
        }
    }
}

/// Looking inside a node shows every one of its children and every link it owns.
pub proof fn law_a_level_shows_what_is_in_it(snap: crate::snapshot::SnapView, scope: u64)
    requires
        snap.node(scope) is Some,
    ensures
        forall|c: u64|
            snap.node(scope)->0.children@.contains(c) ==> #[trigger] SceneView::of(
                snap,
                scope,
            ).items.contains(Item::Node(c)),
        forall|l: u64|
            snap.node(scope)->0.internal_links@.contains(l) ==> #[trigger] SceneView::of(
                snap,
                scope,
            ).items.contains(Item::Link(l)),
{
    let node = snap.node(scope)->0;
    let own = node.internal_links@;
    law_scene_is_consistent(snap, scope);
    let start = SceneView { items: link_items(own), ..SceneView::empty() };
    assert forall|l: u64| own.contains(l) implies #[trigger] start.items.contains(
        Item::Link(l),
    ) by {
        let k = own.index_of(l);
        assert(start.items[k] == Item::Link(l));
    }
    lemma_children_are_shown(start, snap, own, node.children@);
}

} // verus!
