//! What holds of what is typed in and of what is shown: names, numbers, lists and lookups.

use vstd::prelude::*;

use crate::console::{Action, Desk, Entry, Request};
use crate::forms::LinkTarget;
use crate::monitor::Severity;
use crate::report::{AlertReportView, TraceEntry};
use crate::probe::ProbeView;
use crate::snapshot::{NodeEntry, RawSnapshot, SnapView};

verus! {

/// Whether the entry's name, or a word of it, begins with the query, whatever the case.
pub open spec fn is_hit(entry: Entry, query: Seq<char>) -> bool {
    let (s, part) = (crate::console::lowercase(entry.name@), crate::console::lowercase(query));
    exists|at: int| #[trigger] stands_at(s, part, at)
}

/// Whether `part` stands in `s` at `at`, where no letter or number comes right before it.
pub open spec fn stands_at(s: Seq<char>, part: Seq<char>, at: int) -> bool {
    &&& 0 <= at
    &&& at + part.len() <= s.len()
    &&& forall|i: int| 0 <= i < part.len() ==> s[at + i] == #[trigger] part[i]
    &&& at > 0 ==> !crate::text::is_alphanumeric(s[at - 1])
}

proof fn lemma_hit(entry: Entry, query: Seq<char>)
    ensures
        is_hit(entry, query) <==> crate::console::has_prefix(
            crate::console::lowercase(entry.name@),
            crate::console::lowercase(query),
        ),
{
    let (s, part) = (crate::console::lowercase(entry.name@), crate::console::lowercase(query));
    if is_hit(entry, query) {
        let at = choose|at: int| #[trigger] stands_at(s, part, at);
        assert(s.subrange(at, at + part.len()) =~= part);
        assert(crate::console::occurs_at(s, part, at));
    }
    if crate::console::has_prefix(s, part) {
        let at = choose|at: int| #[trigger]
            crate::console::occurs_at(s, part, at) && crate::console::begins_word(s, at);
        assert forall|i: int| 0 <= i < part.len() implies s[at + i] == #[trigger] part[i] by {
            assert(s.subrange(at, at + part.len())[i] == s[at + i]);
        }
        assert(stands_at(s, part, at));
    }
}

/// Whether two characters are the same letter, or just the same.
pub open spec fn is_same_letter(a: char, b: char) -> bool {
    ||| a == b
    ||| 'A' <= a <= 'Z' && b as int == a as int + 32
    ||| 'A' <= b <= 'Z' && a as int == b as int + 32
}

/// Whether the entry is called so, but for the case of letters.
pub open spec fn is_called(entry: Entry, name: Seq<char>) -> bool {
    &&& entry.name@.len() == name.len()
    &&& forall|i: int|
        0 <= i < name.len() ==> is_same_letter(entry.name@[i], #[trigger] name[i])
}

proof fn lemma_called(entry: Entry, name: Seq<char>)
    ensures
        is_called(entry, name) <==> crate::console::same_folded(entry.name@, name),
{
    let a = entry.name@;
    if a.len() == name.len() {
        assert forall|i: int| 0 <= i < name.len() implies (is_same_letter(a[i], #[trigger] name[i])
            <==> crate::console::folded(a[i]) == crate::console::folded(name[i])) by {
            lemma_folded(a[i], name[i]);
        }
        if crate::console::same_folded(a, name) {
            assert forall|i: int| 0 <= i < name.len() implies is_same_letter(
                a[i],
                #[trigger] name[i],
            ) by {
                assert(crate::console::folded(a[i]) == crate::console::folded(name[i]));
            }
        }
        if is_called(entry, name) {
            assert forall|i: int| 0 <= i < a.len() implies crate::console::folded(#[trigger] a[i])
                == crate::console::folded(name[i]) by {
                assert(is_same_letter(a[i], name[i]));
            }
        }
    }
}

proof fn lemma_folded(a: char, b: char)
    ensures
        is_same_letter(a, b) <==> crate::console::folded(a) == crate::console::folded(b),
{
    assert('A' as int == 65 && 'Z' as int == 90);
}

/// What a query for a test means: the first test that is called so, whatever the case of letters;
/// or else the one test whose name, or a word of it, begins so, where there is just one. Where
/// there is none or more than one, it means nothing.
pub proof fn law_queries_mean_tests(entries: Seq<Entry>, query: Seq<char>)
    requires
        entries.len() <= usize::MAX,
    ensures
        match crate::console::meant(entries, query) {
            Ok(i) => i < entries.len() && ({
                ||| is_called(entries[i as int], query) && forall|j: int|
                    0 <= j < i ==> !is_called(#[trigger] entries[j], query)
                ||| is_hit(entries[i as int], query) && (forall|j: int|
                    0 <= j < entries.len() && j != i ==> !is_hit(#[trigger] entries[j], query))
                    && (forall|j: int|
                    0 <= j < entries.len() ==> !is_called(#[trigger] entries[j], query))
            }),
            Err(_) => (forall|j: int|
                0 <= j < entries.len() ==> !is_called(#[trigger] entries[j], query)) && ((forall|
                j: int,
            |
                0 <= j < entries.len() ==> !is_hit(#[trigger] entries[j], query)) || (exists|
                i: int,
                j: int,
            |
                0 <= i < j < entries.len() && is_hit(#[trigger] entries[i], query) && is_hit(
                    #[trigger] entries[j],
                    query,
                ))),
        },
{
    lemma_first_called(entries, query, 0);
    lemma_hits(entries, query, entries.len());
    let found = crate::console::hits(entries, query, entries.len());
    if crate::console::called(entries, query, 0) is None {
        if found.len() == 1 {
            let i = found[0];
            assert forall|j: int| 0 <= j < entries.len() && j != i implies !is_hit(
                #[trigger] entries[j],
                query,
            ) by {
                if is_hit(entries[j], query) {
                    assert(found.contains(j as usize));
                    let k = choose|k: int| 0 <= k < found.len() && found[k] == j as usize;
                    assert(k == 0);
                }
            }
            assert(found.contains(i));
        } else if found.len() == 0 {
            assert forall|j: int| 0 <= j < entries.len() implies !is_hit(
                #[trigger] entries[j],
                query,
            ) by {
                if is_hit(entries[j], query) {
                    assert(found.contains(j as usize));
                }
            }
        } else {
            let (i, j) = (found[0] as int, found[1] as int);
            assert(found.contains(found[0]) && found.contains(found[1]));
            assert(is_hit(entries[i], query) && is_hit(entries[j], query));
        }
    }
}

proof fn lemma_first_called(entries: Seq<Entry>, name: Seq<char>, i: nat)
    requires
        entries.len() <= usize::MAX,
        i <= entries.len(),
    ensures
        match crate::console::called(entries, name, i) {
            Some(k) => i <= k < entries.len() && is_called(entries[k as int], name) && forall|
                j: int,
            |
                i <= j < k ==> !is_called(#[trigger] entries[j], name),
            None => forall|j: int|
                i <= j < entries.len() ==> !is_called(#[trigger] entries[j], name),
        },
    decreases entries.len() - i,
{
    if i < entries.len() {
        lemma_called(entries[i as int], name);
        if !is_called(entries[i as int], name) {
            lemma_first_called(entries, name, i + 1);
        }
    }
}

/// The hits are the places of just the entries that match, in order.
proof fn lemma_hits(entries: Seq<Entry>, query: Seq<char>, n: nat)
    requires
        n <= entries.len() <= usize::MAX,
    ensures
        ({
            let found = crate::console::hits(entries, query, n);
            &&& forall|i: int| 0 <= i < found.len() ==> (#[trigger] found[i]) < n && is_hit(
                entries[found[i] as int],
                query,
            )
            &&& forall|i: int, j: int|
                0 <= i < j < found.len() ==> #[trigger] found[i] < #[trigger] found[j]
            &&& forall|j: int|
                0 <= j < n && is_hit(#[trigger] entries[j], query) ==> found.contains(j as usize)
        }),
    decreases n,
{
    if n > 0 {
        let m = (n - 1) as nat;
        lemma_hits(entries, query, m);
        lemma_hit(entries[m as int], query);
        let before = crate::console::hits(entries, query, m);
        let found = crate::console::hits(entries, query, n);
        if is_hit(entries[m as int], query) {
            crate::lists::lemma_push_contains(before, m as usize);
            assert forall|i: int| 0 <= i < found.len() implies (#[trigger] found[i]) < n && is_hit(
                entries[found[i] as int],
                query,
            ) by {
                if i < before.len() {
                    assert(before[i] == found[i]);
                }
            }
            assert forall|i: int, j: int| 0 <= i < j < found.len() implies #[trigger] found[i]
                < #[trigger] found[j] by {
                if j < before.len() {
                    assert(before[i] < before[j]);
                } else {
                    assert(before[i] < m);
                }
            }
        }
    }
}

/// A scenario is found by its name or by how a word of it begins: the first that matches, if any
/// does.
pub proof fn law_scenarios_are_found(entries: Seq<Entry>, query: Seq<char>, i: nat)
    requires
        entries.len() <= usize::MAX,
        i <= entries.len(),
    ensures
        match crate::console::matching(entries, query, i) {
            Some(k) => i <= k < entries.len() && is_hit(entries[k as int], query) && forall|j: int|
                i <= j < k ==> !is_hit(#[trigger] entries[j], query),
            None => forall|j: int|
                i <= j < entries.len() ==> !is_hit(#[trigger] entries[j], query),
        },
    decreases entries.len() - i,
{
    if i < entries.len() {
        lemma_hit(entries[i as int], query);
        if !is_hit(entries[i as int], query) {
            law_scenarios_are_found(entries, query, i + 1);
        }
    }
}

/// A number reads as itself, with or without a plus sign in front. What has anything but digits
/// after that is no number.
pub proof fn law_numbers_read_back(n: u64, s: Seq<char>)
    ensures
        crate::forms::unsigned(crate::text::decimal_text(n as nat)) == Some(n),
        crate::forms::unsigned(seq!['+'] + crate::text::decimal_text(n as nat)) == Some(n),
        s.len() == 0 ==> crate::forms::unsigned(s) is None,
        (exists|i: int|
            0 <= i < s.len() && !('0' <= #[trigger] s[i] <= '9') && !(i == 0 && s[i] == '+'))
            ==> crate::forms::unsigned(s) is None,
{
    let digits = crate::text::decimal_text(n as nat);
    crate::text_laws::law_numbers_are_written_in_decimal(n as nat);
    crate::forms::lemma_decimal_value(n as nat);
    assert('0' as int == 48 && '9' as int == 57);
    assert forall|i: int| 0 <= i < digits.len() implies crate::forms::is_digit(
        #[trigger] digits[i],
    ) by {
        assert('0' <= digits[i] <= '9');
    }
    assert(digits[0] != '+') by {
        assert('+' as int == 43);
        assert('0' <= digits[0]);
    }
    assert((seq!['+'] + digits).drop_first() =~= digits);
    if exists|i: int|
        0 <= i < s.len() && !('0' <= #[trigger] s[i] <= '9') && !(i == 0 && s[i] == '+') {
        let i = choose|i: int|
            0 <= i < s.len() && !('0' <= #[trigger] s[i] <= '9') && !(i == 0 && s[i] == '+');
        lemma_digit(s[i]);
        if s[0] == '+' {
            assert(s.drop_first()[i - 1] == s[i]);
        }
    }
}

proof fn lemma_digit(c: char)
    ensures
        crate::forms::is_digit(c) <==> '0' <= c <= '9',
{
    assert('0' as int == 48 && '9' as int == 57);
}

/// Of several lines those with something on them are kept, without the whitespace around them and
/// in their order; blank ones are left out.
pub proof fn law_blank_lines_are_left_out(parts: Seq<Seq<char>>)
    ensures
        ({
            let lines = crate::forms::trimmed_parts(parts);
            &&& lines.len() <= parts.len()
            &&& forall|i: int|
                0 <= i < lines.len() ==> (#[trigger] lines[i]).len() > 0
                    && !crate::text::is_white(lines[i][0]) && !crate::text::is_white(
                    lines[i].last(),
                )
            &&& forall|i: int|
                0 <= i < parts.len() && crate::text::trim(#[trigger] parts[i]).len() > 0
                    ==> lines.contains(crate::text::trim(parts[i]))
            &&& (forall|i: int|
                0 <= i < parts.len() ==> crate::text::trim(#[trigger] parts[i]).len() > 0)
                ==> lines == parts.map_values(|s: Seq<char>| crate::text::trim(s))
        }),
    decreases parts.len(),
{
    let lines = crate::forms::trimmed_parts(parts);
    if parts.len() > 0 {
        let front = parts.drop_last();
        law_blank_lines_are_left_out(front);
        let before = crate::forms::trimmed_parts(front);
        let line = crate::text::trim(parts.last());
        let _ = crate::text_laws::law_trimming_takes_whitespace_off(parts.last());
        let n = parts.len() - 1;
        assert(parts[n] == parts.last());
        if line.len() > 0 {
            crate::lists::lemma_push_contains(before, line);
            assert forall|i: int| 0 <= i < lines.len() implies (#[trigger] lines[i]).len() > 0
                && !crate::text::is_white(lines[i][0]) && !crate::text::is_white(
                lines[i].last(),
            ) by {
                if i < before.len() {
                    assert(before[i] == lines[i]);
                }
            }
        }
        assert forall|i: int|
            0 <= i < parts.len() && crate::text::trim(
                #[trigger] parts[i],
            ).len() > 0 implies lines.contains(crate::text::trim(parts[i])) by {
            if i < n {
                assert(front[i] == parts[i]);
                assert(before.contains(crate::text::trim(parts[i])));
            } else {
                assert(lines.contains(line));
            }
        }
        if forall|i: int|
            0 <= i < parts.len() ==> crate::text::trim(#[trigger] parts[i]).len() > 0 {
            assert forall|i: int| 0 <= i < front.len() implies crate::text::trim(
                #[trigger] front[i],
            ).len() > 0 by {
                assert(front[i] == parts[i]);
            }
            assert(lines =~= parts.map_values(|s: Seq<char>| crate::text::trim(s)));
        }
    } else {
        assert(lines =~= parts.map_values(|s: Seq<char>| crate::text::trim(s)));
    }
}

/// A new node goes onto the link that was chosen, as long as its parent has that; failing that, or
/// where nothing was chosen, onto the first link of the parent, if it has any.
pub proof fn law_where_new_nodes_attach(chosen: Option<LinkTarget>, links: Seq<u64>, l: u64)
    ensures
        links.contains(l) ==> crate::forms::settled(Some(LinkTarget::Existing(l)), links)
            == LinkTarget::Existing(l),
        !links.contains(l) && links.len() > 0 ==> crate::forms::settled(
            Some(LinkTarget::Existing(l)),
            links,
        ) == LinkTarget::Existing(links[0]),
        !links.contains(l) && links.len() == 0 ==> crate::forms::settled(
            Some(LinkTarget::Existing(l)),
            links,
        ) == LinkTarget::Nowhere,
        crate::forms::settled(Some(LinkTarget::Nowhere), links) == LinkTarget::Nowhere,
        chosen matches Some(LinkTarget::New(_)) ==> crate::forms::settled(chosen, links)
            == chosen->0,
        links.len() > 0 ==> crate::forms::settled(None, links) == LinkTarget::Existing(links[0]),
        links.len() == 0 ==> crate::forms::settled(None, links) == LinkTarget::Nowhere,
{
}

/// The first alert of a kind is the first that is of that check and bad enough; there is none if
/// and only if no alert is.
pub proof fn law_the_first_alert_is_found(
    alerts: Seq<AlertReportView>,
    check: Seq<char>,
    least: Severity,
)
    ensures
        match crate::probe::first_alert(alerts, check, least) {
            Some(a) => exists|i: int|
                {
                    &&& 0 <= i < alerts.len()
                    &&& #[trigger] alerts[i] == a
                    &&& a.check == check
                    &&& a.severity == Severity::Error || least == Severity::Warning
                    &&& forall|j: int|
                        0 <= j < i ==> (#[trigger] alerts[j]).check != check || alerts[j].severity
                            == Severity::Warning && least == Severity::Error
                },
            None => forall|j: int|
                0 <= j < alerts.len() ==> (#[trigger] alerts[j]).check != check
                    || alerts[j].severity == Severity::Warning && least == Severity::Error,
        },
    decreases alerts.len(),
{
    if alerts.len() > 0 {
        let rest = alerts.drop_first();
        let fits = alerts[0].check == check && (alerts[0].severity == Severity::Error || least
            == Severity::Warning);
        if fits {
            assert(alerts[0] == alerts[0]);
        } else {
            law_the_first_alert_is_found(rest, check, least);
            match crate::probe::first_alert(rest, check, least) {
                Some(a) => {
                    let i = choose|i: int|
                        {
                            &&& 0 <= i < rest.len()
                            &&& #[trigger] rest[i] == a
                            &&& a.check == check
                            &&& a.severity == Severity::Error || least == Severity::Warning
                            &&& forall|j: int|
                                0 <= j < i ==> (#[trigger] rest[j]).check != check
                                    || rest[j].severity == Severity::Warning && least
                                    == Severity::Error
                        };
                    assert(alerts[i + 1] == a);
                    assert forall|j: int| 0 <= j < i + 1 implies (#[trigger] alerts[j]).check
                        != check || alerts[j].severity == Severity::Warning && least
                        == Severity::Error by {
                        if j > 0 {
                            assert(rest[j - 1] == alerts[j]);
                        }
                    }
                },
                None => {
                    assert forall|j: int| 0 <= j < alerts.len() implies (
                    #[trigger] alerts[j]).check != check || alerts[j].severity
                        == Severity::Warning && least == Severity::Error by {
                        if j > 0 {
                            assert(rest[j - 1] == alerts[j]);
                        }
                    }
                },
            }
        }
    }
}

/// A test takes note of every alert and every note in a trace, in order, and of nothing else.
pub proof fn law_tests_see_alerts_and_notes(probe: ProbeView, entries: Seq<TraceEntry>)
    ensures
        ({
            let after = probe.observed(entries);
            &&& probe.alerts.is_prefix_of(after.alerts)
            &&& probe.notes.is_prefix_of(after.notes)
            &&& forall|i: int|
                0 <= i < entries.len() ==> match #[trigger] entries[i] {
                    TraceEntry::Alert(a) => after.alerts.contains(a@),
                    TraceEntry::Note { text, .. } => after.notes.contains(text@),
                    _ => true,
                }
            &&& after.alerts.len() + after.notes.len() <= probe.alerts.len() + probe.notes.len()
                + entries.len()
            &&& after.lines == probe.lines
            &&& after.fuse == probe.fuse
        }),
    decreases entries.len(),
{
    let after = probe.observed(entries);
    if entries.len() > 0 {
        let front = entries.drop_last();
        law_tests_see_alerts_and_notes(probe, front);
        let before = probe.observed(front);
        let n = entries.len() - 1;
        match entries.last() {
            TraceEntry::Alert(a) => {
                crate::lists::lemma_push_contains(before.alerts, a@);
            },
            TraceEntry::Note { text, .. } => {
                crate::lists::lemma_push_contains(before.notes, text@);
            },
            _ => {},
        }
        assert forall|i: int| 0 <= i < entries.len() implies match #[trigger] entries[i] {
            TraceEntry::Alert(a) => after.alerts.contains(a@),
            TraceEntry::Note { text, .. } => after.notes.contains(text@),
            _ => true,
        } by {
            if i < n {
                assert(front[i] == entries[i]);
            }
        }
    }
}

/// A description of a world describes it: the clock, the root, and every node and link in the
/// order they were created in, each with what it holds.
pub proof fn law_snapshots_describe_the_world(
    raw: RawSnapshot,
    world: crate::world::WorldView,
    i: int,
)
    requires
        raw.shows(world),
        0 <= i < world.network.node_order.len(),
    ensures
        ({
            let id = world.network.node_order[i];
            let node = world.network.nodes[id];
            let entry = raw.nodes@[i];
            &&& raw.tick == world.tick_count
            &&& raw.root == world.network.root.spec_raw()
            &&& raw.nodes@.len() == world.network.node_order.len()
            &&& raw.links@.len() == world.network.link_order.len()
            &&& entry.id == id.spec_raw()
            &&& entry.name@ == node.name
            &&& entry.kind@ == node.kind
            &&& entry.parent == (match node.parent {
                Some(p) => Some(p.spec_raw()),
                None => None,
            })
            &&& entry.children@.len() == node.children.len()
            &&& forall|k: int|
                0 <= k < node.children.len() ==> #[trigger] entry.children@[k]
                    == node.children[k].spec_raw()
            &&& entry.subscriptions@.len() == node.subscriptions.len()
            &&& forall|k: int|
                0 <= k < node.subscriptions.len() ==> #[trigger] entry.subscriptions@[k]
                    == node.subscriptions[k].spec_raw()
            &&& entry.internal_links@.len() == node.internal_links.len()
            &&& forall|k: int|
                0 <= k < node.internal_links.len() ==> #[trigger] entry.internal_links@[k]
                    == node.internal_links[k].spec_raw()
            &&& entry.logic is Some <==> world.logics.contains_key(id)
            &&& entry.logic matches Some(kind) ==> kind@ == world.logics[id].kind()
            &&& world.stats.contains_key(id) ==> entry.sent == world.stats[id].sent
                && entry.received == world.stats[id].received
            &&& !world.stats.contains_key(id) ==> entry.sent == 0 && entry.received == 0
        }),
        forall|j: int|
            0 <= j < world.network.link_order.len() ==> {
                let id = world.network.link_order[j];
                let link = world.network.links[id];
                let entry = #[trigger] raw.links@[j];
                &&& entry.id == id.spec_raw()
                &&& entry.name@ == link.name
                &&& entry.owner == (match link.owner {
                    Some(p) => Some(p.spec_raw()),
                    None => None,
                })
                &&& entry.subscribers@.len() == link.subscribers.len()
                &&& forall|k: int|
                    0 <= k < link.subscribers.len() ==> #[trigger] entry.subscribers@[k]
                        == link.subscribers[k].spec_raw()
            },
{
    assert(raw.nodes@[i].shows(world, world.network.node_order[i]));
    assert forall|j: int| 0 <= j < world.network.link_order.len() implies (
    #[trigger] raw.links@[j]).shows(world, world.network.link_order[j]) by {}
}

/// A node is found by name: the first that has it, and none if none has.
pub proof fn law_nodes_are_found_by_name(nodes: Seq<NodeEntry>, name: Seq<char>)
    ensures
        match crate::snapshot::first_named(nodes, name) {
            Some(id) => exists|i: int|
                0 <= i < nodes.len() && (#[trigger] nodes[i]).id == id && nodes[i].name@ == name
                    && forall|j: int| 0 <= j < i ==> (#[trigger] nodes[j]).name@ != name,
            None => forall|j: int| 0 <= j < nodes.len() ==> (#[trigger] nodes[j]).name@ != name,
        },
    decreases nodes.len(),
{
    if nodes.len() > 0 {
        let rest = nodes.drop_first();
        if nodes[0].name@ == name {
            assert(nodes[0].id == nodes[0].id);
        } else {
            law_nodes_are_found_by_name(rest, name);
            match crate::snapshot::first_named(rest, name) {
                Some(id) => {
                    let i = choose|i: int|
                        0 <= i < rest.len() && (#[trigger] rest[i]).id == id && rest[i].name@
                            == name && forall|j: int|
                            0 <= j < i ==> (#[trigger] rest[j]).name@ != name;
                    assert(nodes[i + 1].id == id);
                    assert forall|j: int| 0 <= j < i + 1 implies (#[trigger] nodes[j]).name@
                        != name by {
                        if j > 0 {
                            assert(rest[j - 1] == nodes[j]);
                        }
                    }
                },
                None => {
                    assert forall|j: int| 0 <= j < nodes.len() implies (#[trigger] nodes[j]).name@
                        != name by {
                        if j > 0 {
                            assert(rest[j - 1] == nodes[j]);
                        }
                    }
                },
            }
        }
    }
}

/// A text that fits is shown whole; of one that does not, as much as fits with an ellipsis.
pub proof fn law_long_texts_are_shortened(s: Seq<char>, max: int)
    requires
        max > 0,
    ensures
        s.len() <= max ==> crate::labels::shortened(s, max) == s,
        s.len() > max ==> {
            let t = crate::labels::shortened(s, max);
            &&& t.len() == max
            &&& t.last() == '…'
            &&& forall|i: int| 0 <= i < max - 1 ==> #[trigger] t[i] == s[i]
        },
{
}

/// The latest of a list are its last ones: as many as were asked for, or all if there are fewer.
pub proof fn law_the_latest_alerts_are_listed(
    snap: SnapView,
    alerts: Seq<AlertReportView>,
    last: nat,
)
    ensures
        ({
            let lines = crate::answers::alert_lines(snap, alerts, last);
            &&& lines.len() == if last < alerts.len() {
                last
            } else {
                alerts.len()
            }
            &&& forall|i: int|
                0 <= i < lines.len() ==> #[trigger] lines[i] == crate::answers::alert_line(
                    snap,
                    alerts[alerts.len() - lines.len() + i],
                )
        }),
{
}

/// What two hexadecimal digits stand for.
pub open spec fn hex_value(c: char) -> int {
    if '0' <= c <= '9' {
        c as int - '0' as int
    } else {
        c as int - 'a' as int + 10
    }
}

/// Bytes are written in two hexadecimal digits each, the higher one first.
pub proof fn law_bytes_are_written_in_hex(bytes: Seq<u8>)
    ensures
        ({
            let text = crate::report::hex_text(bytes);
            &&& text.len() == 2 * bytes.len()
            &&& forall|i: int|
                0 <= i < text.len() ==> '0' <= #[trigger] text[i] <= '9' || 'a' <= text[i] <= 'f'
            &&& forall|i: int|
                0 <= i < bytes.len() ==> #[trigger] bytes[i] == hex_value(text[2 * i]) * 16
                    + hex_value(text[2 * i + 1])
        }),
    decreases bytes.len(),
{
    let text = crate::report::hex_text(bytes);
    if bytes.len() > 0 {
        let front = bytes.drop_last();
        law_bytes_are_written_in_hex(front);
        let before = crate::report::hex_text(front);
        let b = bytes.last() as nat;
        assert('0' as int == 48 && '9' as int == 57 && 'a' as int == 97 && 'f' as int == 102);
        assert(b / 16 < 16 && b % 16 < 16 && b == (b / 16) * 16 + b % 16);
        lemma_hex(b / 16);
        lemma_hex(b % 16);
        let n = before.len() as int;
        assert(text[n] == crate::report::hex_digit(b / 16));
        assert(text[n + 1] == crate::report::hex_digit(b % 16));
        assert forall|i: int| 0 <= i < text.len() implies '0' <= #[trigger] text[i] <= '9' || 'a'
            <= text[i] <= 'f' by {
            if i < n {
                assert(before[i] == text[i]);
            }
        }
        assert forall|i: int| 0 <= i < bytes.len() implies #[trigger] bytes[i] == hex_value(
            text[2 * i],
        ) * 16 + hex_value(text[2 * i + 1]) by {
            if i < front.len() {
                assert(front[i] == bytes[i]);
                assert(before[2 * i] == text[2 * i] && before[2 * i + 1] == text[2 * i + 1]);
            }
        }
    }
}

proof fn lemma_hex(d: nat)
    requires
        d < 16,
    ensures
        hex_value(crate::report::hex_digit(d)) == d,
        '0' <= crate::report::hex_digit(d) <= '9' || 'a' <= crate::report::hex_digit(d) <= 'f',
{
    assert('0' as int == 48 && '9' as int == 57 && 'a' as int == 97 && 'f' as int == 102);
}

/// What precedes the version of a build target is what precedes the first `.2.` in it.
pub proof fn law_targets_lose_their_version(a: Seq<char>, b: Seq<char>)
    requires
        forall|i: int|
            0 <= i <= a.len() - 1 ==> !#[trigger] crate::console::occurs_at(
                a + ".2."@ + b,
                ".2."@,
                i,
            ),
    ensures
        crate::packaging::before_version(a + ".2."@ + b, 0) == a,
{
    reveal_strlit(".2.");
    let s = a + ".2."@ + b;
    lemma_before_version(a, b, 0);
    assert(s.take(a.len() as int) =~= a);
}

proof fn lemma_before_version(a: Seq<char>, b: Seq<char>, from: nat)
    requires
        from <= a.len(),
        forall|i: int|
            0 <= i <= a.len() - 1 ==> !#[trigger] crate::console::occurs_at(
                a + ".2."@ + b,
                ".2."@,
                i,
            ),
    ensures
        crate::packaging::before_version(a + ".2."@ + b, from) == (a + ".2."@ + b).take(
            a.len() as int,
        ),
    decreases a.len() - from,
{
    reveal_strlit(".2.");
    let s = a + ".2."@ + b;
    if from == a.len() {
        assert(s.subrange(a.len() as int, a.len() as int + ".2."@.len()) =~= ".2."@);
        assert(crate::console::occurs_at(s, ".2."@, from as int));
    } else {
        assert(!crate::console::occurs_at(s, ".2."@, from as int));
        lemma_before_version(a, b, from + 1);
    }
}

/// A path begins at the top: at a node that is inside no other, unless the path is as long as
/// there are nodes.
pub proof fn law_paths_begin_at_the_top(snap: SnapView, id: u64)
    requires
        snap.nodes.len() > 0,
    ensures
        snap.path_to(id).len() <= snap.nodes.len(),
        snap.path_to(id).len() > 0,
        snap.path_to(id).len() < snap.nodes.len() ==> snap.parent(snap.path_to(id)[0]) is None,
{
    lemma_upwards_ends(snap, id, snap.nodes.len());
    let up = snap.upwards(id, snap.nodes.len());
    assert(up.reverse()[0] == up.last());
}

proof fn lemma_upwards_ends(snap: SnapView, id: u64, n: nat)
    requires
        n > 0,
    ensures
        0 < snap.upwards(id, n).len() <= n,
        snap.upwards(id, n).len() < n ==> snap.parent(snap.upwards(id, n).last()) is None,
    decreases n,
{
    let up = snap.upwards(id, n);
    if let Some(p) = snap.parent(id) {
        if n > 1 {
            lemma_upwards_ends(snap, p, (n - 1) as nat);
            assert(up.last() == snap.upwards(p, (n - 1) as nat).last());
        } else {
            assert(snap.upwards(p, 0) =~= Seq::<u64>::empty());
        }
    } else {
        assert(up =~= seq![id]);
    }
}

/// What shows at a level of something inside it is the child of the level that it is or is in.
pub proof fn law_what_shows_at_a_level(snap: SnapView, scope: u64, id: u64, n: nat)
    requires
        n > 0,
    ensures
        snap.within(scope, id, n) matches Some(x) ==> snap.parent(x) == Some(scope),
        snap.parent(id) == Some(scope) ==> snap.within(scope, id, n) == Some(id),
        snap.parent(id) is None ==> snap.within(scope, id, n) is None,
        snap.parent(id) matches Some(p) ==> p != scope ==> snap.within(scope, id, n + 1)
            == snap.within(scope, p, n),
    decreases n,
{
    if let Some(p) = snap.parent(id) {
        if p != scope && n > 1 {
            law_what_shows_at_a_level(snap, scope, p, (n - 1) as nat);
        }
    }
}

/// What requests on the clock and the view ask for. Stepping runs the ticks asked for, and one
/// where none is; going up looks inside whatever contains the level in view; opening a node by
/// name looks inside it, and opening `world` or nothing looks at everything. Without a network in
/// view all of these are refused.
pub proof fn law_requests_on_the_view(desk: Desk, action: Action, ticks: u32)
    ensures
        desk.loaded is Ok && ticks > 0 && desk.calls_for(Request::Step { ticks }, action)
            ==> action == Action::RunTicks(ticks),
        desk.loaded is Ok && desk.calls_for(Request::Step { ticks: 0 }, action) ==> action
            == Action::RunTicks(1),
        desk.loaded is Err && desk.calls_for(Request::Step { ticks }, action)
            ==> (action matches Action::Answer { ok, .. } && !ok),
        desk.loaded matches Ok(snap) ==> desk.calls_for(Request::Open { node: None }, action)
            ==> action == Action::Enter(snap@.root),
        desk.loaded matches Ok(snap) ==> desk.scope matches Some(scope) ==> snap@.parent(
            scope,
        ) matches Some(above) ==> desk.calls_for(Request::Up, action) ==> action
            == Action::Enter(above),
        desk.loaded matches Ok(snap) ==> desk.scope matches Some(scope) ==> snap@.parent(
            scope,
        ) is None ==> desk.calls_for(Request::Up, action) ==> (
        action matches Action::Answer { ok, .. } && !ok),
        desk.loaded is Err && desk.calls_for(Request::Open { node: None }, action) ==> (
        action matches Action::Answer { ok, .. } && !ok),
        desk.loaded is Err && desk.calls_for(Request::Up, action) ==> (
        action matches Action::Answer { ok, .. } && !ok),
{
}

/// Names in requests are names of nodes: `world` is the root, any other is the first node called
/// so, and one that nobody is called is refused.
pub proof fn law_names_in_requests(desk: Desk, action: Action, name: String, id: u64)
    requires
        desk.loaded is Ok,
    ensures
        ({
            let snap = (desk.loaded->Ok_0)@;
            let known = name@ == "world"@ && id == snap.root || name@ != "world"@
                && crate::snapshot::first_named(snap.nodes, name@) == Some(id);
            let unknown = name@ != "world"@ && crate::snapshot::first_named(
                snap.nodes,
                name@,
            ) is None;
            &&& known && desk.calls_for(Request::Select { node: name }, action) ==> action
                == Action::Select(id)
            &&& known && desk.calls_for(Request::Node { name }, action) ==> action
                == Action::Describe(id)
            &&& known && desk.calls_for(Request::Remove { node: name }, action) ==> action == (
            Action::Remove { id, node: name })
            &&& known && desk.calls_for(Request::Open { node: Some(name) }, action) ==> action
                == Action::Enter(id)
            &&& unknown && (desk.calls_for(Request::Select { node: name }, action)
                || desk.calls_for(Request::Node { name }, action) || desk.calls_for(
                Request::Remove { node: name },
                action,
            ) || desk.calls_for(Request::Open { node: Some(name) }, action)) ==> (
            action matches Action::Answer { ok, text } && !ok && text@ == "no node named `"@
                + name@ + "`"@)
        }),
{
}

/// Stress tests are run as asked for, all of them where none is named, unless something is wrong
/// with the names, the tests cannot be run at all, or some are running already.
pub proof fn law_requests_to_run_tests(desk: Desk, action: Action, names: Vec<String>, wait: bool)
    requires
        names@.len() == 0,
        desk.calls_for(Request::Run { names, wait }, action),
    ensures
        desk.library_problem is None && !desk.running ==> (action matches Action::RunTests {
            tests,
            wait: w,
        } && w == wait && tests@.len() == desk.tests@.len() && forall|i: int|
            0 <= i < tests@.len() && desk.tests@.len() <= usize::MAX ==> #[trigger] tests@[i]
                == i),
        desk.library_problem is None && desk.running ==> (action matches Action::Answer {
            ok,
            text,
        } && !ok && text@ == "tests are already running"@),
        desk.library_problem matches Some(e) ==> (action matches Action::Answer { ok, text } && !ok
            && text@ == e@),
{
}

/// A limit that is not named stays as it is, which 0 stands for.
pub proof fn law_requests_to_change_limits(
    desk: Desk,
    action: Action,
    transmissions: Option<u64>,
    deliveries: Option<u64>,
    queue: Option<u64>,
    payload: Option<u64>,
)
    requires
        desk.loaded is Ok,
        desk.calls_for(Request::Limits { transmissions, deliveries, queue, payload }, action),
    ensures
        action matches Action::SetLimits(l) && {
            &&& transmissions is None ==> l.max_transmissions_per_tick == 0
            &&& deliveries is None ==> l.max_deliveries_per_tick == 0
            &&& queue is None ==> l.max_pending == 0
            &&& payload is None ==> l.max_payload_bytes == 0
            &&& transmissions matches Some(n) ==> l.max_transmissions_per_tick == n
            &&& deliveries matches Some(n) ==> l.max_deliveries_per_tick == n
            &&& queue matches Some(n) ==> l.max_pending == n
            &&& payload matches Some(n) ==> l.max_payload_bytes == n
        },
{
}

/// Nodes of a name are counted one by one, in whatever order: none where nobody has the name, and
/// as many as two lists have together where they are put together.
pub proof fn law_nodes_of_a_name_are_counted(
    front: Seq<NodeEntry>,
    back: Seq<NodeEntry>,
    one: NodeEntry,
    name: Seq<char>,
)
    ensures
        crate::snapshot::named_count(seq![one], name) == if one.name@ == name {
            1nat
        } else {
            0nat
        },
        crate::snapshot::named_count(front + back, name) == crate::snapshot::named_count(
            front,
            name,
        ) + crate::snapshot::named_count(back, name),
        (forall|i: int| 0 <= i < front.len() ==> (#[trigger] front[i]).name@ != name)
            <==> crate::snapshot::named_count(front, name) == 0,
    decreases front.len() + back.len(),
{
    assert(seq![one].drop_last() =~= Seq::<NodeEntry>::empty());
    reveal_with_fuel(crate::snapshot::named_count, 2);
    if back.len() > 0 {
        law_nodes_of_a_name_are_counted(front, back.drop_last(), one, name);
        assert((front + back).drop_last() =~= front + back.drop_last());
        assert((front + back).last() == back.last());
    } else {
        assert(front + back =~= front);
        if front.len() > 0 {
            law_nodes_of_a_name_are_counted(front.drop_last(), back, one, name);
            if crate::snapshot::named_count(front, name) == 0 {
                assert forall|i: int| 0 <= i < front.len() implies (
                #[trigger] front[i]).name@ != name by {
                    if i < front.len() - 1 {
                        assert(front.drop_last()[i] == front[i]);
                    }
                }
            }
            if forall|i: int| 0 <= i < front.len() ==> (#[trigger] front[i]).name@ != name {
                assert forall|i: int| 0 <= i < front.drop_last().len() implies (
                #[trigger] front.drop_last()[i]).name@ != name by {
                    assert(front.drop_last()[i] == front[i]);
                }
                assert(front.last() == front[front.len() - 1]);
            }
        }
    }
}

/// The hash of a name is 64-bit FNV-1a: it starts at the offset basis, and each byte is mixed in
/// before the product with the prime.
pub proof fn law_names_are_hashed_bytewise(bytes: Seq<u8>, byte: u8)
    ensures
        crate::labels::hashed(Seq::empty()) == 14_695_981_039_346_656_037,
        crate::labels::hashed(bytes.push(byte)) == ((crate::labels::hashed(bytes) ^ (byte as u64))
            * 1_099_511_628_211) % 0x1_0000_0000_0000_0000,
{
    assert(bytes.push(byte).drop_last() =~= bytes);
    let mixed = crate::labels::hashed(bytes) ^ (byte as u64);
    let product = mixed * 1_099_511_628_211;
    assert(0 <= product) by (nonlinear_arith)
        requires
            0 <= mixed,
            product == mixed * 1_099_511_628_211,
    ;
}

/// How many nodes there are in `ids` and nested in them.
pub open spec fn all_nested(snap: SnapView, ids: Seq<u64>) -> nat
    decreases ids.len(),
{
    if ids.len() == 0 {
        0
    } else {
        all_nested(snap, ids.drop_last()) + 1 + snap.nested(ids.last(), snap.nodes.len())
    }
}

/// Where no node is nested inside itself, what is nested in a node is its children and what is
/// nested in them, down to the bottom; nothing is nested in what is not there.
pub proof fn law_what_is_nested_in_a_node(
    snap: SnapView,
    height: spec_fn(u64) -> nat,
    id: u64,
)
    requires
        snap.layered(height),
    ensures
        snap.nested(id, snap.nodes.len()) == (match snap.node(id) {
            Some(n) => all_nested(snap, n.children@),
            None => 0,
        }),
{
    let most = snap.nodes.len();
    if snap.node(id) is Some {
        let ids = snap.node(id)->0.children@;
        assert(height(id) <= most);
        assert forall|i: int| 0 <= i < ids.len() implies height(#[trigger] ids[i]) < most by {
            assert(height(ids[i]) < height(id));
        }
        if most > 0 {
            lemma_all_nested(snap, height, ids);
        } else if ids.len() > 0 {
            assert(height(ids[0]) < most);
        }
    }
}

proof fn lemma_all_nested(snap: SnapView, height: spec_fn(u64) -> nat, ids: Seq<u64>)
    requires
        snap.layered(height),
        snap.nodes.len() > 0,
        forall|i: int| 0 <= i < ids.len() ==> height(#[trigger] ids[i]) < snap.nodes.len(),
    ensures
        snap.nested_in(ids, (snap.nodes.len() - 1) as nat) == all_nested(snap, ids),
    decreases ids.len(),
{
    if ids.len() > 0 {
        let front = ids.drop_last();
        assert forall|i: int| 0 <= i < front.len() implies height(#[trigger] front[i])
            < snap.nodes.len() by {
            assert(front[i] == ids[i]);
        }
        lemma_all_nested(snap, height, front);
        assert(ids.last() == ids[ids.len() - 1]);
        lemma_deep_enough(
            snap,
            height,
            ids.last(),
            (snap.nodes.len() - 1) as nat,
            snap.nodes.len(),
        );
    }
}

/// Going further down than a node is high finds no more.
proof fn lemma_deep_enough(
    snap: SnapView,
    height: spec_fn(u64) -> nat,
    id: u64,
    a: nat,
    b: nat,
)
    requires
        snap.layered(height),
        height(id) <= a,
        height(id) <= b,
    ensures
        snap.nested(id, a) == snap.nested(id, b),
    decreases height(id), 1nat, 0nat,
{
    if snap.node(id) is Some {
        let ids = snap.node(id)->0.children@;
        assert forall|i: int| 0 <= i < ids.len() implies height(#[trigger] ids[i]) < height(
            id,
        ) by {}
        if height(id) == 0 {
            if ids.len() > 0 {
                assert(height(ids[0]) < height(id));
            }
        } else {
            lemma_deep_enough_in(snap, height, ids, height(id), (a - 1) as nat, (b - 1) as nat);
        }
    }
}

proof fn lemma_deep_enough_in(
    snap: SnapView,
    height: spec_fn(u64) -> nat,
    ids: Seq<u64>,
    most: nat,
    a: nat,
    b: nat,
)
    requires
        snap.layered(height),
        most <= a + 1,
        most <= b + 1,
        forall|i: int| 0 <= i < ids.len() ==> height(#[trigger] ids[i]) < most,
    ensures
        snap.nested_in(ids, a) == snap.nested_in(ids, b),
    decreases most, 0nat, ids.len(),
{
    if ids.len() > 0 {
        let front = ids.drop_last();
        assert forall|i: int| 0 <= i < front.len() implies height(#[trigger] front[i]) < most by {
            assert(front[i] == ids[i]);
        }
        lemma_deep_enough_in(snap, height, front, most, a, b);
        assert(ids.last() == ids[ids.len() - 1]);
        lemma_deep_enough(snap, height, ids.last(), a, b);
    }
}

} // verus!
