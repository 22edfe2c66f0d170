//! What people type when they add a node.

use emergence::forms::{
    dialogue_lines, name_prefix, parse_schedule, ping, schedule_text, settle_target, suggest_name,
    trimmed_text, Draft, LinkTarget, Settings,
};
use emergence::snapshot::{NodeEntry, RawSnapshot, Snapshot};

#[test]
fn parses_schedules() {
    assert_eq!(
        parse_schedule("0 sleep, 60 go to work"),
        Ok(vec![(0, "sleep".into()), (60, "go to work".into())])
    );
    assert!(parse_schedule("soon sleep").is_err());
    assert!(parse_schedule("0").is_err());
}

#[test]
fn schedule_errors_say_what_is_wrong() {
    assert_eq!(
        parse_schedule("0 sleep, noon eat"),
        Err("`noon` in the schedule is not a tick number".to_owned())
    );
    assert_eq!(
        parse_schedule("later"),
        Err("schedule entry `later` should be `tick goal`".to_owned())
    );
    assert_eq!(parse_schedule(" , ,"), Ok(vec![]));
    assert_eq!(
        parse_schedule("+7 up,18446744073709551615 end"),
        Ok(vec![(7, "up".to_owned()), (u64::MAX, "end".to_owned())])
    );
    assert!(parse_schedule("18446744073709551616 end").is_err());
    assert!(parse_schedule("+ up").is_err());
    assert!(parse_schedule("-1 up").is_err());
}

#[test]
fn dialogue_is_one_line_per_row() {
    assert_eq!(
        dialogue_lines("  Halt! \r\n\n\u{a0}Who goes there?\n"),
        vec!["Halt!".to_owned(), "Who goes there?".to_owned()]
    );
    assert!(dialogue_lines(" \n ").is_empty());
}

fn named(names: &[&str]) -> Option<Snapshot> {
    let nodes = names
        .iter()
        .enumerate()
        .map(|(i, name)| NodeEntry {
            id: i as u64 + 1,
            name: (*name).to_owned(),
            kind: "x".to_owned(),
            parent: None,
            children: vec![],
            internal_links: vec![],
            subscriptions: vec![],
            logic: None,
            sent: 0,
            received: 0,
        })
        .collect();
    Snapshot::load(RawSnapshot {
        format: 1,
        tick: 0,
        root: 1,
        nodes,
        links: vec![],
    })
    .ok()
}

#[test]
fn suggested_names_are_free() {
    let names = [".", "pc-1", "pc-3", "pc-2", "npc-2"];
    let snap = named(&names);
    assert_eq!(
        snap.as_ref().map(|s| suggest_name(s, "pc")),
        Some("pc-4".to_owned())
    );
    assert_eq!(
        snap.as_ref().map(|s| suggest_name(s, "npc")),
        Some("npc-1".to_owned())
    );
    assert_eq!(name_prefix("npc"), "npc");
    assert_eq!(name_prefix("computer"), "pc");
}

#[test]
fn a_link_that_is_gone_gives_way_to_the_first() {
    let links = vec![4, 5];
    let settled = |chosen, links: &Vec<u64>| format!("{:?}", settle_target(chosen, links));
    assert_eq!(settled(None, &links), "Existing(4)");
    assert_eq!(settled(Some(LinkTarget::Existing(5)), &links), "Existing(5)");
    assert_eq!(settled(Some(LinkTarget::Existing(6)), &links), "Existing(4)");
    assert_eq!(settled(Some(LinkTarget::Nowhere), &links), "Nowhere");
    assert_eq!(settled(None, &vec![]), "Nowhere");
    assert_eq!(
        settled(Some(LinkTarget::New("cable".to_owned())), &vec![]),
        "New(\"cable\")"
    );
    assert_eq!(trimmed_text("  cable\t"), "cable");
}

#[test]
fn schedules_read_back() {
    let day = vec![(0, "sleep".to_owned()), (60, "go to work".to_owned())];
    assert_eq!(schedule_text(&day), "0 sleep, 60 go to work");
    assert_eq!(parse_schedule(&schedule_text(&day)), Ok(day));
    assert_eq!(schedule_text(&vec![]), "");
    assert_eq!(parse_schedule(&schedule_text(&vec![])), Ok(vec![]));
    let late = vec![(u64::MAX, "end".to_owned())];
    assert_eq!(parse_schedule(&schedule_text(&late)), Ok(late));
}

fn draft(template: &str, schedule: &str) -> Draft {
    Draft {
        template: template.to_owned(),
        apps: vec!["mail".to_owned()],
        hardware: vec!["camera".to_owned()],
        role: "guard".to_owned(),
        day_length: 240,
        schedule: schedule.to_owned(),
        lines: "Halt!\n".to_owned(),
    }
}

#[test]
fn drafts_become_settings() {
    match draft("computer", "nonsense").settings() {
        Ok(Settings::Computer { apps, hardware }) => {
            assert_eq!((apps, hardware), (vec!["mail".to_owned()], vec!["camera".to_owned()]));
        }
        other => panic!("{other:?}"),
    }
    match draft("npc", "0 sleep").settings() {
        Ok(Settings::Npc { role, day_length, schedule, lines }) => {
            assert_eq!((role.as_str(), day_length), ("guard", 240));
            assert_eq!(schedule, vec![(0, "sleep".to_owned())]);
            assert_eq!(lines, vec!["Halt!".to_owned()]);
        }
        other => panic!("{other:?}"),
    }
    assert_eq!(
        draft("npc", "later").settings().err(),
        Some("schedule entry `later` should be `tick goal`".to_owned())
    );
    assert_eq!(
        draft("toaster", "").settings().err(),
        Some("unknown template `toaster`".to_owned())
    );
}

#[test]
fn pings_go_to_everyone_on_a_link() {
    let p = ping("wifi", "hello");
    assert_eq!(
        (p.via.as_str(), p.to.as_str(), p.kind.as_str(), p.data.as_str()),
        ("wifi", "*@wifi", "ping", "hello")
    );
}
