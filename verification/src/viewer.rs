//! What the sandbox is showing: which network, which level of it, what is selected, and whether
//! the clock runs. Each step says what a click, a command or the end of a run changes.

use vstd::prelude::*;

use crate::report::FuseSummary;
use crate::scene::{container_of, Item};
use crate::snapshot::Snapshot;

verus! {

/// Where a selection came from, which decides whether the canvas or the tree follows it.
#[derive(Debug, Clone, Copy, PartialEq, Eq, Structural)]
pub enum Source {
    /// The network canvas.
    Canvas,
    /// The tree, the inspector, a list or a script.
    Panel,
}

/// How a run of ticks ended.
#[derive(Debug)]
pub enum RunEnd {
    /// Every tick asked for ran.
    Completed,
    /// A tick tripped the fuse, and this is why, if the world can tell.
    Tripped(Option<FuseSummary>),
    /// The world could not be run.
    Failed,
}

/// What is being shown.
#[derive(Debug)]
pub struct Viewer {
    /// The scenario that is built unless a stress test is watched.
    pub scenario: usize,
    /// The stress test that is watched instead of a scenario.
    pub watching: Option<usize>,
    /// The node being looked inside.
    pub scope: Option<u64>,
    /// What is selected.
    pub selection: Option<Item>,
    /// Whether the tree should open and scroll to the selection.
    pub reveal: bool,
    /// Whether the clock runs.
    pub playing: bool,
    /// Why the fuse tripped, until it is dismissed.
    pub fuse: Option<FuseSummary>,
}

impl Viewer {
    /// At first: the first scenario, not built yet, with the clock running.
    pub fn new() -> (r: Self)
        ensures
            r == (Viewer {
                scenario: 0,
                watching: None,
                scope: None,
                selection: None,
                reveal: false,
                playing: true,
                fuse: None,
            }),
    {
        Viewer {
            scenario: 0,
            watching: None,
            scope: None,
            selection: None,
            reveal: false,
            playing: true,
            fuse: None,
        }
    }

    /// Turns to a scenario.
    pub fn turn_to(&mut self, scenario: usize)
        ensures
            *final(self) == (Viewer { scenario, watching: None, ..*old(self) }),
    {
        self.scenario = scenario;
        self.watching = None;
    }

    /// Turns to a stress test.
    pub fn watch(&mut self, test: usize)
        ensures
            *final(self) == (Viewer { watching: Some(test), ..*old(self) }),
    {
        self.watching = Some(test);
    }

    /// Forgets what was selected and why the fuse tripped, because the network is being built
    /// afresh.
    pub fn reset(&mut self)
        ensures
            *final(self) == (Viewer { selection: None, fuse: None, ..*old(self) }),
    {
        self.selection = None;
        self.fuse = None;
    }

    /// Shows the top of what was built, if it could be built. Tests are for stepping through, so
    /// one that is watched starts paused.
    pub fn built(&mut self, root: Option<u64>)
        ensures
            *final(self) == (Viewer {
                scope: root,
                playing: old(self).playing && old(self).watching is None,
                ..*old(self)
            }),
    {
        self.scope = root;
        if self.watching.is_some() {
            self.playing = false;
        }
    }

    /// Selects something, or nothing. What is selected in a panel is brought into view on the
    /// canvas, by showing the level that contains it.
    pub fn select(&mut self, item: Option<Item>, source: Source, snap: Option<&Snapshot>)
        ensures
            *final(self) == (match (item, snap) {
                (Some(i), Some(s)) => Viewer {
                    selection: item,
                    reveal: true,
                    scope: if source == Source::Panel {
                        Some(crate::scene::container(s@, i))
                    } else {
                        old(self).scope
                    },
                    ..*old(self)
                },
                _ => Viewer { selection: item, ..*old(self) },
            }),
    {
        self.selection = item;
        if let (Some(i), Some(s)) = (item, snap) {
            self.reveal = true;
            if source == Source::Panel {
                self.scope = Some(container_of(s, i));
            }
        }
    }

    /// Looks inside a node.
    pub fn enter(&mut self, node: u64)
        ensures
            *final(self) == (Viewer { scope: Some(node), ..*old(self) }),
    {
        self.scope = Some(node);
    }

    /// Looks at the level above, if there is one.
    pub fn up(&mut self, snap: &Snapshot)
        ensures
            *final(self) == (match old(self).scope {
                Some(scope) => match snap@.parent(scope) {
                    Some(parent) => Viewer { scope: Some(parent), ..*old(self) },
                    None => *old(self),
                },
                None => *old(self),
            }),
    {
        if let Some(scope) = self.scope {
            if let Some(parent) = snap.parent_of(scope) {
                self.scope = Some(parent);
            }
        }
    }

    /// Takes note that the tree has opened and scrolled to the selection.
    pub fn revealed(&mut self)
        ensures
            *final(self) == (Viewer { reveal: false, ..*old(self) }),
    {
        self.reveal = false;
    }

    /// Starts the clock if it stands, and stops it if it runs.
    pub fn toggle(&mut self)
        ensures
            *final(self) == (Viewer { playing: !old(self).playing, ..*old(self) }),
    {
        self.playing = !self.playing;
    }

    /// Starts the clock, whatever the fuse said.
    pub fn resume(&mut self)
        ensures
            *final(self) == (Viewer { playing: true, fuse: None, ..*old(self) }),
    {
        self.playing = true;
        self.fuse = None;
    }

    /// Stops the clock.
    pub fn pause(&mut self)
        ensures
            *final(self) == (Viewer { playing: false, ..*old(self) }),
    {
        self.playing = false;
    }

    /// Has read why the fuse tripped.
    pub fn dismiss(&mut self)
        ensures
            *final(self) == (Viewer { fuse: None, ..*old(self) }),
    {
        self.fuse = None;
    }

    /// Takes note of how a run of ticks ended. The clock stops when the fuse trips, because the
    /// library only reports that a hard limit was reached, and when the world cannot be run.
    pub fn ran(&mut self, end: RunEnd)
        ensures
            *final(self) == (match end {
                RunEnd::Completed => *old(self),
                RunEnd::Tripped(fuse) => Viewer { fuse, playing: false, ..*old(self) },
                RunEnd::Failed => Viewer { playing: false, ..*old(self) },
            }),
    {
        match end {
            RunEnd::Completed => {},
            RunEnd::Tripped(fuse) => {
                self.fuse = fuse;
                self.playing = false;
            },
            RunEnd::Failed => {
                self.playing = false;
            },
        }
    }
}

/// What is selected in a panel can be seen on the canvas: the level that is then shown has it
/// among its items, wherever the network lists a node among its parent's children and a link
/// among its owner's.
pub proof fn law_panel_selections_are_in_view(snap: crate::snapshot::SnapView, item: Item)
    requires
        match item {
            Item::Node(node) => snap.parent(node) matches Some(p) && snap.node(p) matches Some(n)
                && n.children@.contains(node),
            Item::Link(link) => snap.link(link) matches Some(l) && l.owner matches Some(o)
                && snap.node(o) matches Some(n) && n.internal_links@.contains(link),
        },
    ensures
        crate::scene::SceneView::of(snap, crate::scene::container(snap, item)).items.contains(item),
{
    let scope = crate::scene::container(snap, item);
    crate::scene::law_a_level_shows_what_is_in_it(snap, scope);
}

} // verus!
