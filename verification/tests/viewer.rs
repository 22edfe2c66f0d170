//! What the sandbox shows, and how clicks and runs change it.

use emergence::answers::{run_summary, traffic_text, trip_text};
use emergence::activity::Activity;
use emergence::catalogue::{scenario_entries, stress_entries, STRESS_TESTS};
use emergence::labels::{link_caption, traffic_caption, tree_row, TreeRow, MAX_TREE_DEPTH};
use emergence::probe::TestReport;
use emergence::report::FuseSummary;
use emergence::scenarios::SCENARIOS;
use emergence::scene::{Item, Scene};
use emergence::snapshot::{LinkEntry, NodeEntry, RawSnapshot, Snapshot, SnapshotError};
use emergence::viewer::{RunEnd, Source, Viewer};

/// root(1) ─ pc(2) ─ app(3); wifi(8) owned by root, ipc(9) owned by pc.
fn network() -> Result<Snapshot, SnapshotError> {
    let node = |id, name: &str, parent, children, own| NodeEntry {
        id,
        name: name.to_owned(),
        kind: "x".to_owned(),
        parent,
        children,
        internal_links: own,
        subscriptions: vec![],
        logic: None,
        sent: 0,
        received: 0,
    };
    let link = |id, name: &str, owner| LinkEntry {
        id,
        name: name.to_owned(),
        owner: Some(owner),
        subscribers: vec![],
    };
    Snapshot::load(RawSnapshot {
        format: 2,
        tick: 0,
        root: 1,
        nodes: vec![
            node(1, ".", None, vec![2], vec![8]),
            node(2, "pc", Some(1), vec![3], vec![9]),
            node(3, "app", Some(2), vec![], vec![]),
        ],
        links: vec![link(8, "wifi", 1), link(9, "ipc", 2)],
    })
}

fn fuse() -> FuseSummary {
    FuseSummary {
        tick: 7,
        limit: "transmissions".to_owned(),
        max: 2_000,
        held_back: 12,
        top_senders: vec![],
        top_links: vec![],
        recent_alerts: vec![],
    }
}

#[test]
fn a_watched_test_starts_paused() {
    let mut view = Viewer::new();
    view.built(Some(1));
    assert!(view.playing);
    assert_eq!(view.scope, Some(1));
    view.watch(3);
    view.reset();
    view.built(Some(1));
    assert!(!view.playing);
    assert_eq!(view.watching, Some(3));
    view.turn_to(2);
    assert_eq!((view.scenario, view.watching), (2, None));
    view.built(None);
    assert_eq!(view.scope, None);
    assert!(!view.playing, "turning away does not start the clock");
}

#[test]
fn panel_selections_are_brought_into_view() -> Result<(), SnapshotError> {
    let snap = network()?;
    for item in [Item::Node(2), Item::Node(3), Item::Link(8), Item::Link(9)] {
        let mut view = Viewer::new();
        view.built(Some(1));
        view.select(Some(item), Source::Panel, Some(&snap));
        assert!(view.reveal);
        assert_eq!(view.selection, Some(item));
        let shown = view.scope.map(|scope| Scene::new(&snap, scope).items);
        assert!(shown.is_some_and(|items| items.contains(&item)), "{item:?}");
    }
    let mut view = Viewer::new();
    view.built(Some(1));
    view.select(Some(Item::Node(3)), Source::Canvas, Some(&snap));
    assert_eq!(view.scope, Some(1), "the canvas stays where it is");
    view.revealed();
    assert!(!view.reveal);
    view.select(None, Source::Panel, Some(&snap));
    assert_eq!((view.selection, view.reveal), (None, false));
    view.select(Some(Item::Node(3)), Source::Panel, None);
    assert_eq!((view.scope, view.reveal), (Some(1), false));
    Ok(())
}

#[test]
fn going_up_stops_at_the_top() -> Result<(), SnapshotError> {
    let snap = network()?;
    let mut view = Viewer::new();
    view.up(&snap);
    assert_eq!(view.scope, None);
    view.enter(2);
    view.up(&snap);
    assert_eq!(view.scope, Some(1));
    view.up(&snap);
    assert_eq!(view.scope, Some(1));
    Ok(())
}

#[test]
fn the_clock_stops_when_the_fuse_trips() {
    let mut view = Viewer::new();
    view.ran(RunEnd::Completed);
    assert!(view.playing && view.fuse.is_none());
    view.ran(RunEnd::Tripped(Some(fuse())));
    assert!(!view.playing);
    assert_eq!(view.fuse.as_ref().map(|f| f.tick), Some(7));
    view.resume();
    assert!(view.playing && view.fuse.is_none());
    view.ran(RunEnd::Tripped(Some(fuse())));
    view.toggle();
    assert!(view.playing && view.fuse.is_some());
    view.dismiss();
    assert!(view.playing && view.fuse.is_none());
    view.ran(RunEnd::Failed);
    assert!(!view.playing);
    view.toggle();
    view.pause();
    assert!(!view.playing);
}

#[test]
fn deep_trees_are_cut() -> Result<(), SnapshotError> {
    let snap = network()?;
    assert!(matches!(tree_row(&snap, 1, 0), Some(TreeRow::Branch)));
    assert!(matches!(tree_row(&snap, 3, 2), Some(TreeRow::Leaf)));
    assert!(tree_row(&snap, 77, 0).is_none());
    assert!(matches!(tree_row(&snap, 2, MAX_TREE_DEPTH - 1), Some(TreeRow::Branch)));
    match tree_row(&snap, 2, MAX_TREE_DEPTH) {
        Some(TreeRow::Cut(text)) => {
            assert_eq!(text, "⋯ 2 more nested nodes (open pc on the canvas)");
        }
        other => panic!("{other:?}"),
    }
    Ok(())
}

#[test]
fn captions_are_worded() {
    assert_eq!(link_caption("wifi", false), "wifi");
    assert_eq!(link_caption("wifi", true), "↗ wifi");
    assert_eq!(traffic_caption(0, 0), None);
    assert_eq!(traffic_caption(3, 0), Some("↑3 ↓0".to_owned()));
    assert_eq!(
        trip_text(&fuse()),
        "Tick 7: hit the limit of 2000 packets sent in one tick. 12 packets held back."
    );
    assert_eq!(traffic_text(&Activity::new()), "0 packets · 0 dropped");
    let report = TestReport {
        passed: true,
        lines: vec![],
        error: None,
        ticks: 40,
        peak_transmissions: 9,
        alerts: 2,
        fuse: Some("held".to_owned()),
        elapsed: "12ms".to_owned(),
        elapsed_ms: 12,
    };
    assert_eq!(
        run_summary(&report),
        "40 ticks · 12ms · peak 9/tick · 2 alerts · fuse tripped"
    );
}

#[test]
fn everything_that_can_be_loaded_is_listed() {
    let tests = stress_entries();
    assert_eq!(tests.len(), 29);
    for (entry, (group, name, description)) in tests.iter().zip(STRESS_TESTS) {
        assert_eq!(
            (entry.group.as_str(), entry.name.as_str(), entry.description.as_str()),
            (group, name, description)
        );
    }
    assert_eq!(tests[0].name, "Office runs clean");
    assert_eq!(tests[28].name, "Deterministic");
    let scenarios = scenario_entries();
    let names: Vec<&str> = scenarios.iter().map(|s| s.name.as_str()).collect();
    let expected: Vec<&str> = SCENARIOS.iter().map(|s| s.0).collect();
    assert_eq!(names, expected);
}
