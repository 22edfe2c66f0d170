//! The control port: what each request asks the sandbox to do, and how it is answered in words.

use vstd::prelude::*;
use vstd::string::*;

use crate::forms::LinkTarget;
use crate::report::LimitsReport;
use crate::snapshot::Snapshot;
use crate::text::{chars_of, join, same_text};

verus! {

/// What `str::to_lowercase` makes of a text.
pub uninterp spec fn lowercase(s: Seq<char>) -> Seq<char>;

/// `str::to_lowercase`: the text in lower case.
#[verifier::external_body]
fn to_lowercase(s: &str) -> (r: String)
    ensures
        r@ == lowercase(s@),
{
    s.to_lowercase()
}

/// `c` in lower case, if it is an ASCII letter.
pub open spec fn folded(c: char) -> char {
    if 65 <= c as u32 <= 90 {
        ((c as u32) + 32) as char
    } else {
        c
    }
}

/// Whether two texts are the same but for the case of ASCII letters.
pub open spec fn same_folded(a: Seq<char>, b: Seq<char>) -> bool {
    &&& a.len() == b.len()
    &&& forall|i: int| 0 <= i < a.len() ==> folded(#[trigger] a[i]) == folded(b[i])
}

/// `c` in lower case, if it is an ASCII letter.
fn fold(c: char) -> (r: char)
    ensures
        r == folded(c),
{
    let code: u32 = c as u32;
    if 65 <= code && code <= 90 {
        (code as u8 + 32) as char
    } else {
        c
    }
}

/// Whether two texts are the same but for the case of ASCII letters.
pub fn same_ignoring_case(a: &str, b: &str) -> (r: bool)
    ensures
        r == same_folded(a@, b@),
{
    let (left, right) = (chars_of(a), chars_of(b));
    if left.len() != right.len() {
        return false;
    }
    let mut i: usize = 0;
    while i < left.len()
        invariant
            i <= left.len(),
            left@ == a@,
            right@ == b@,
            left.len() == right.len(),
            forall|j: int| 0 <= j < i ==> folded(#[trigger] a@[j]) == folded(b@[j]),
        decreases left.len() - i,
    {
        if fold(left[i]) != fold(right[i]) {
            assert(folded(a@[i as int]) != folded(b@[i as int]));
            return false;
        }
        i += 1;
    }
    true
}

/// Whether `part` occurs in `s` at `at`.
pub open spec fn occurs_at(s: Seq<char>, part: Seq<char>, at: int) -> bool {
    0 <= at && at + part.len() <= s.len() && s.subrange(at, at + part.len()) == part
}

/// Whether nothing of a word stands right before `at` in `s`. Words are made of letters and
/// numbers.
pub open spec fn begins_word(s: Seq<char>, at: int) -> bool {
    at == 0 || !crate::text::is_alphanumeric(s[at - 1])
}

/// Whether `s`, or a word of it, begins with `part`.
pub open spec fn has_prefix(s: Seq<char>, part: Seq<char>) -> bool {
    exists|at: int| #[trigger] occurs_at(s, part, at) && begins_word(s, at)
}

/// Whether `part` occurs in `s` at `at`.
fn found_at(s: &Vec<char>, part: &Vec<char>, at: usize) -> (r: bool)
    requires
        at + part.len() <= s.len(),
    ensures
        r == occurs_at(s@, part@, at as int),
{
    let ghost here = s@.subrange(at as int, at + part@.len());
    let mut i: usize = 0;
    while i < part.len()
        invariant
            i <= part.len(),
            at + part.len() <= s.len(),
            here == s@.subrange(at as int, at + part@.len()),
            forall|j: int| 0 <= j < i ==> here[j] == part@[j],
        decreases part.len() - i,
    {
        assert(here[i as int] == s@[at + i]);
        if s[at + i] != part[i] {
            return false;
        }
        i += 1;
    }
    assert(here =~= part@);
    true
}

/// Whether a name in lower case, or a word of it, begins with a query in lower case.
pub fn matches_lowered(name: &str, query: &str) -> (r: bool)
    ensures
        r == has_prefix(name@, query@),
{
    let (chars, part) = (chars_of(name), chars_of(query));
    if part.len() > chars.len() {
        return false;
    }
    let last: usize = chars.len() - part.len();
    let mut at: usize = 0;
    loop
        invariant
            at <= last,
            chars@ == name@,
            part@ == query@,
            last + part.len() == chars.len(),
            forall|k: int|
                0 <= k < at ==> !(#[trigger] occurs_at(name@, query@, k) && begins_word(name@, k)),
        decreases last - at,
    {
        if (at == 0 || !chars[at - 1].is_alphanumeric()) && found_at(&chars, &part, at) {
            return true;
        }
        if at == last {
            return false;
        }
        at += 1;
    }
}

/// Case-insensitive match on a whole name or a word-prefix of it, so `office` finds "Office" and
/// `storm` finds "Broadcast storm: four bridges", and `torm` does not.
pub fn matches(name: &str, query: &str) -> (r: bool)
    ensures
        r == has_prefix(lowercase(name@), lowercase(query@)),
{
    matches_lowered(to_lowercase(name).as_str(), to_lowercase(query).as_str())
}

/// Something that can be loaded or run, by name.
#[derive(Debug)]
pub struct Entry {
    /// What it is listed under.
    pub group: String,
    /// Its name.
    pub name: String,
    /// What it is about.
    pub description: String,
}

/// The first entry from the `i`th on that is called `name`, but for case.
pub open spec fn called(entries: Seq<Entry>, name: Seq<char>, i: nat) -> Option<usize>
    decreases entries.len() - i,
{
    if i >= entries.len() {
        None
    } else if same_folded(entries[i as int].name@, name) {
        Some(i as usize)
    } else {
        called(entries, name, i + 1)
    }
}

/// The first entry from the `i`th on whose name matches `query`.
pub open spec fn matching(entries: Seq<Entry>, query: Seq<char>, i: nat) -> Option<usize>
    decreases entries.len() - i,
{
    if i >= entries.len() {
        None
    } else if has_prefix(lowercase(entries[i as int].name@), lowercase(query)) {
        Some(i as usize)
    } else {
        matching(entries, query, i + 1)
    }
}

/// The first `n` entries' places, as far as their names match `query`.
pub open spec fn hits(entries: Seq<Entry>, query: Seq<char>, n: nat) -> Seq<usize>
    decreases n,
{
    if n == 0 {
        Seq::empty()
    } else {
        let before = hits(entries, query, (n - 1) as nat);
        if has_prefix(lowercase(entries[n - 1].name@), lowercase(query)) {
            before.push((n - 1) as usize)
        } else {
            before
        }
    }
}

/// The entries' names.
pub open spec fn names_at(entries: Seq<Entry>, places: Seq<usize>) -> Seq<Seq<char>> {
    places.map_values(|i: usize| entries[i as int].name@)
}

/// The entry meant by `query`: the one called that, or the only one that matches; otherwise what
/// is wrong with the query.
pub open spec fn meant(entries: Seq<Entry>, query: Seq<char>) -> Result<usize, Seq<char>> {
    let found = hits(entries, query, entries.len());
    match called(entries, query, 0) {
        Some(i) => Ok(i),
        None => if found.len() == 1 {
            Ok(found[0])
        } else if found.len() == 0 {
            Err("no test matches `"@ + query + "` (try `tests`)"@)
        } else {
            Err(
                "`"@ + query + "` matches several tests: "@ + crate::text::join_text(
                    names_at(entries, found),
                    ", "@,
                ),
            )
        },
    }
}

/// The first entry that is called `name`, but for case.
pub fn find_called(entries: &Vec<Entry>, name: &str) -> (r: Option<usize>)
    ensures
        r == called(entries@, name@, 0),
        r matches Some(i) ==> i < entries@.len(),
{
    let mut i: usize = 0;
    while i < entries.len()
        invariant
            i <= entries.len(),
            called(entries@, name@, 0) == called(entries@, name@, i as nat),
        decreases entries.len() - i,
    {
        if same_ignoring_case(entries[i].name.as_str(), name) {
            return Some(i);
        }
        i += 1;
    }
    None
}

/// The first entry whose name matches `query`.
pub fn find_matching(entries: &Vec<Entry>, query: &str) -> (r: Option<usize>)
    ensures
        r == matching(entries@, query@, 0),
        r matches Some(i) ==> i < entries@.len(),
{
    let mut i: usize = 0;
    while i < entries.len()
        invariant
            i <= entries.len(),
            matching(entries@, query@, 0) == matching(entries@, query@, i as nat),
        decreases entries.len() - i,
    {
        if matches(entries[i].name.as_str(), query) {
            return Some(i);
        }
        i += 1;
    }
    None
}

/// The entry meant by `query`, or what is wrong with the query.
pub fn find_test(entries: &Vec<Entry>, query: &str) -> (r: Result<usize, String>)
    ensures
        match r {
            Ok(i) => meant(entries@, query@) == Ok::<usize, Seq<char>>(i) && i < entries@.len(),
            Err(e) => meant(entries@, query@) == Err::<usize, Seq<char>>(e@),
        },
{
    if let Some(i) = find_called(entries, query) {
        return Ok(i);
    }
    let mut found: Vec<usize> = Vec::new();
    let mut i: usize = 0;
    assert(found@ =~= hits(entries@, query@, 0));
    while i < entries.len()
        invariant
            i <= entries.len(),
            found@ == hits(entries@, query@, i as nat),
            forall|k: int| 0 <= k < found@.len() ==> #[trigger] found@[k] < entries@.len(),
        decreases entries.len() - i,
    {
        if matches(entries[i].name.as_str(), query) {
            found.push(i);
        }
        i += 1;
    }
    if found.len() == 1 {
        assert(found@[0] < entries@.len());
        Ok(found[0])
    } else if found.len() == 0 {
        let mut out = "no test matches `".to_owned();
        out.append(query);
        out.append("` (try `tests`)");
        Err(out)
    } else {
        let mut names: Vec<String> = Vec::new();
        let ghost all = names_at(entries@, found@);
        let mut k: usize = 0;
        while k < found.len()
            invariant
                k <= found.len(),
                forall|j: int| 0 <= j < found@.len() ==> #[trigger] found@[j] < entries@.len(),
                all == names_at(entries@, found@),
                crate::text::texts(names@) == all.take(k as int),
            decreases found.len() - k,
        {
            assert(found@[k as int] < entries@.len());
            let name = entries[found[k]].name.clone();
            let ghost was = names@;
            let ghost next = name@;
            assert(next == all[k as int]);
            names.push(name);
            k += 1;
            assert(crate::text::texts(names@) =~= crate::text::texts(was).push(next));
            assert(all.take(k as int) =~= all.take(k - 1).push(next));
        }
        assert(all.take(k as int) =~= all);
        let mut out = "`".to_owned();
        out.append(query);
        out.append("` matches several tests: ");
        out.append(join(&names, ", ").as_str());
        Err(out)
    }
}

// ---- Requests -----------------------------------------------------------------------------

/// A request from a client.
#[derive(Debug)]
pub enum Request {
    /// How things stand.
    Status,
    /// Lists the scenarios.
    Scenarios,
    /// Lists the stress tests.
    Tests,
    /// Builds a scenario.
    Load {
        /// Which.
        name: String,
    },
    /// Builds a stress test's network, to watch it.
    Watch {
        /// Which.
        name: String,
    },
    /// Builds the same network again.
    Rebuild,
    /// Starts the clock.
    Play,
    /// Stops the clock.
    Pause,
    /// Runs ticks.
    Step {
        /// How many.
        ticks: u32,
    },
    /// Runs stress tests.
    Run {
        /// Which; all of them if none is named.
        names: Vec<String>,
        /// Whether the answer waits for them.
        wait: bool,
    },
    /// How the stress tests went.
    Results {
        /// Only those that failed.
        failed_only: bool,
    },
    /// Looks inside a node.
    Open {
        /// Which; the world if none is named.
        node: Option<String>,
    },
    /// Looks at what contains the current level.
    Up,
    /// Selects a node.
    Select {
        /// Which.
        node: String,
    },
    /// Describes a node.
    Node {
        /// Which.
        name: String,
    },
    /// Sends a packet.
    Send {
        /// The sender.
        from: String,
        /// The link it goes onto.
        via: String,
        /// Where it is headed.
        to: String,
        /// The event's kind.
        kind: String,
        /// The payload.
        data: String,
    },
    /// Changes a node's logic.
    Logic {
        /// Which node.
        node: String,
        /// What it runs from now on.
        kind: String,
    },
    /// Changes the fuse's limits.
    Limits {
        /// Packets sent per tick.
        transmissions: Option<u64>,
        /// Deliveries per tick.
        deliveries: Option<u64>,
        /// Queued packets.
        queue: Option<u64>,
        /// Payload bytes.
        payload: Option<u64>,
    },
    /// The latest alerts.
    Alerts {
        /// How many.
        last: usize,
    },
    /// The latest lines of the traffic log.
    Log {
        /// How many.
        last: usize,
    },
    /// Why the fuse tripped.
    Fuse,
    /// Lists the templates.
    Templates,
    /// Builds a node from a template.
    Add {
        /// Which template.
        template: String,
        /// What the node is called.
        name: String,
        /// What it goes into; the level in view if nothing is named.
        parent: Option<String>,
        /// The link it goes onto, unless a new one is asked for.
        link: Option<String>,
        /// The new link it goes onto.
        new_link: Option<String>,
    },
    /// Removes a node and all that is in it.
    Remove {
        /// Which.
        node: String,
    },
    /// Saves a screenshot.
    Screenshot {
        /// Where to.
        path: String,
    },
    /// Closes the sandbox.
    Quit,
}

/// What a request asks the sandbox to do.
#[derive(Debug)]
pub enum Action {
    /// Answer in words, and say whether the request was all right.
    Answer {
        /// Whether it was.
        ok: bool,
        /// The answer.
        text: String,
    },
    /// Answer with how things stand.
    ShowStatus,
    /// Answer with the scenarios.
    ListScenarios,
    /// Answer with the stress tests.
    ListTests,
    /// Build a scenario, then show how things stand.
    BuildScenario(usize),
    /// Build a stress test's network, then show how things stand.
    WatchTest(usize),
    /// Build the same network again, then show how things stand.
    Rebuild,
    /// Start the clock and dismiss the fuse report.
    Play,
    /// Stop the clock.
    Pause,
    /// Stop the clock and run ticks.
    RunTicks(u32),
    /// Run stress tests.
    RunTests {
        /// Which.
        tests: Vec<usize>,
        /// Whether the answer waits for them.
        wait: bool,
    },
    /// Answer with how the stress tests went.
    ShowResults {
        /// Only those that failed.
        failed_only: bool,
    },
    /// Look inside a node, then show how things stand.
    Enter(u64),
    /// Select a node and describe it.
    Select(u64),
    /// Describe a node.
    Describe(u64),
    /// Send a packet.
    Send {
        /// The sender.
        node: u64,
        /// The sender's name.
        from: String,
        /// The link it goes onto.
        via: String,
        /// Where it is headed.
        to: String,
        /// The event's kind.
        kind: String,
        /// The payload.
        data: String,
    },
    /// Change a node's logic.
    SetLogic {
        /// Which node.
        id: u64,
        /// The node's name.
        node: String,
        /// What it runs from now on.
        kind: String,
    },
    /// Change the fuse's limits. A limit of 0 stays as it is.
    SetLimits(LimitsReport),
    /// Answer with the latest alerts.
    ShowAlerts(usize),
    /// Answer with the latest lines of the traffic log.
    ShowLog(usize),
    /// Answer with why the fuse tripped.
    ShowFuse,
    /// Answer with the templates.
    ListTemplates,
    /// Build a node from a template.
    Add {
        /// Which template.
        template: String,
        /// What the node is called.
        name: String,
        /// What it goes into.
        parent: u64,
        /// Where it attaches.
        link: LinkTarget,
    },
    /// Remove a node and all that is in it.
    Remove {
        /// Which node.
        id: u64,
        /// The node's name.
        node: String,
    },
    /// Save a screenshot, then answer.
    Screenshot(String),
    /// Close the sandbox.
    Quit,
}

/// What decides how a request is taken.
pub struct Desk<'a> {
    /// The scenarios.
    pub scenarios: &'a Vec<Entry>,
    /// The stress tests.
    pub tests: &'a Vec<Entry>,
    /// Why nothing can be run, if so.
    pub library_problem: Option<&'a str>,
    /// The network in view, or why there is none.
    pub loaded: Result<&'a Snapshot, &'a str>,
    /// The node being looked inside.
    pub scope: Option<u64>,
    /// Whether tests are running.
    pub running: bool,
    /// Whether a screenshot is being taken.
    pub capturing: bool,
}

/// Whether the answer is a refusal in these words.
pub open spec fn refuses(action: Action, words: Seq<char>) -> bool {
    action matches Action::Answer { ok, text } && !ok && text@ == words
}

/// A number, or 0.
pub open spec fn or_zero(n: Option<u64>) -> u64 {
    match n {
        Some(n) => n,
        None => 0,
    }
}

/// The tests meant by each of the first `n` names; the first error, if there is one.
pub open spec fn all_meant(
    tests: Seq<Entry>,
    names: Seq<String>,
    n: nat,
) -> Result<Seq<usize>, Seq<char>>
    decreases n,
{
    if n == 0 {
        Ok(Seq::empty())
    } else {
        match all_meant(tests, names, (n - 1) as nat) {
            Err(e) => Err(e),
            Ok(found) => match meant(tests, names[n - 1]@) {
                Ok(i) => Ok(found.push(i)),
                Err(e) => Err(e),
            },
        }
    }
}

/// The tests a run is for: all of them if none is named.
pub open spec fn tests_meant(
    tests: Seq<Entry>,
    names: Seq<String>,
) -> Result<Seq<usize>, Seq<char>> {
    if names.len() == 0 {
        Ok(Seq::new(tests.len(), |i: int| i as usize))
    } else {
        all_meant(tests, names, names.len())
    }
}

/// The node meant by `name`, or what is wrong with the name.
pub open spec fn node_meant(
    loaded: Result<crate::snapshot::SnapView, Seq<char>>,
    name: Seq<char>,
) -> Result<u64, Seq<char>> {
    match loaded {
        Err(e) => Err(e),
        Ok(snap) => if name == "world"@ {
            Ok(snap.root)
        } else {
            match crate::snapshot::first_named(snap.nodes, name) {
                Some(id) => Ok(id),
                None => Err("no node named `"@ + name + "`"@),
            }
        },
    }
}

/// The link a new node goes onto, or what is wrong with the link's name.
pub open spec fn link_meant(
    snap: crate::snapshot::SnapView,
    link: Option<String>,
    new_link: Option<String>,
) -> Result<LinkTarget, Seq<char>> {
    match (new_link, link) {
        (Some(name), _) => Ok(LinkTarget::New(name)),
        (None, Some(name)) => match crate::snapshot::first_link_named(snap.links, name@) {
            Some(id) => Ok(LinkTarget::Existing(id)),
            None => Err("no link named `"@ + name@ + "`"@),
        },
        (None, None) => Ok(LinkTarget::Nowhere),
    }
}

impl<'a> Desk<'a> {
    /// The network in view, or why there is none.
    pub open spec fn in_view(self) -> Result<crate::snapshot::SnapView, Seq<char>> {
        match self.loaded {
            Ok(snap) => Ok(snap@),
            Err(e) => Err(e@),
        }
    }

    /// Whether `action` is what `request` asks for.
    pub open spec fn calls_for(self, request: Request, action: Action) -> bool {
        match request {
            Request::Status => action == Action::ShowStatus,
            Request::Scenarios => action == Action::ListScenarios,
            Request::Tests => action == Action::ListTests,
            Request::Load { name } => match matching(self.scenarios@, name@, 0) {
                Some(i) => action == Action::BuildScenario(i),
                None => refuses(
                    action,
                    "no scenario matches `"@ + name@ + "` (try `scenarios`)"@,
                ),
            },
            Request::Watch { name } => match meant(self.tests@, name@) {
                Ok(i) => action == Action::WatchTest(i),
                Err(e) => refuses(action, e),
            },
            Request::Rebuild => action == Action::Rebuild,
            Request::Play => action == Action::Play,
            Request::Pause => action == Action::Pause,
            Request::Step { ticks } => match self.loaded {
                Ok(_) => action == Action::RunTicks(
                    if ticks == 0 {
                        1
                    } else {
                        ticks
                    },
                ),
                Err(_) => refuses(action, "nothing is loaded"@),
            },
            Request::Run { names, wait } => match tests_meant(self.tests@, names@) {
                Err(e) => refuses(action, e),
                Ok(found) => match self.library_problem {
                    Some(e) => refuses(action, e@),
                    None => if self.running {
                        refuses(action, "tests are already running"@)
                    } else {
                        action matches Action::RunTests { tests, wait: w } && tests@ == found && w
                            == wait
                    },
                },
            },
            Request::Results { failed_only } => action == (Action::ShowResults { failed_only }),
            Request::Open { node } => match node {
                Some(name) if name@ != "world"@ => match node_meant(self.in_view(), name@) {
                    Ok(id) => action == Action::Enter(id),
                    Err(e) => refuses(action, e),
                },
                _ => match self.in_view() {
                    Ok(snap) => action == Action::Enter(snap.root),
                    Err(_) => refuses(action, "nothing is loaded"@),
                },
            },
            Request::Up => match self.above() {
                Some(id) => action == Action::Enter(id),
                None => refuses(action, "already at the top"@),
            },
            Request::Select { node } => match node_meant(self.in_view(), node@) {
                Ok(id) => action == Action::Select(id),
                Err(e) => refuses(action, e),
            },
            Request::Node { name } => match node_meant(self.in_view(), name@) {
                Ok(id) => action == Action::Describe(id),
                Err(e) => refuses(action, e),
            },
            Request::Send { from, via, to, kind, data } => match node_meant(
                self.in_view(),
                from@,
            ) {
                Ok(node) => action == (Action::Send { node, from, via, to, kind, data }),
                Err(e) => refuses(action, e),
            },
            Request::Logic { node, kind } => match node_meant(self.in_view(), node@) {
                Ok(id) => action == (Action::SetLogic { id, node, kind }),
                Err(e) => refuses(action, e),
            },
            Request::Limits { transmissions, deliveries, queue, payload } => match self.loaded {
                Ok(_) => action == Action::SetLimits(
                    LimitsReport {
                        max_transmissions_per_tick: or_zero(transmissions),
                        max_deliveries_per_tick: or_zero(deliveries),
                        max_pending: or_zero(queue),
                        max_payload_bytes: or_zero(payload),
                    },
                ),
                Err(e) => refuses(action, e@),
            },
            Request::Alerts { last } => match self.loaded {
                Ok(_) => action == Action::ShowAlerts(last),
                Err(_) => refuses(action, "nothing is loaded"@),
            },
            Request::Log { last } => action == Action::ShowLog(last),
            Request::Fuse => action == Action::ShowFuse,
            Request::Templates => match self.library_problem {
                Some(e) => refuses(action, e@),
                None => action == Action::ListTemplates,
            },
            Request::Add { template, name, parent, link, new_link } => match self.in_view() {
                Err(e) => refuses(action, e),
                Ok(snap) => match self.inside(parent) {
                    Err(e) => refuses(action, e),
                    Ok(parent) => match link_meant(snap, link, new_link) {
                        Err(e) => refuses(action, e),
                        Ok(link) => action == (Action::Add { template, name, parent, link }),
                    },
                },
            },
            Request::Remove { node } => match node_meant(self.in_view(), node@) {
                Ok(id) => action == (Action::Remove { id, node }),
                Err(e) => refuses(action, e),
            },
            Request::Screenshot { path } => if self.capturing {
                refuses(action, "a screenshot is already being taken"@)
            } else {
                action == Action::Screenshot(path)
            },
            Request::Quit => action == Action::Quit,
        }
    }

    /// What contains the level in view.
    pub open spec fn above(self) -> Option<u64> {
        match (self.loaded, self.scope) {
            (Ok(snap), Some(scope)) => snap@.parent(scope),
            _ => None,
        }
    }

    /// What a new node goes into: the level in view unless something is named.
    pub open spec fn inside(self, parent: Option<String>) -> Result<u64, Seq<char>> {
        match (parent, self.scope) {
            (Some(name), _) => node_meant(self.in_view(), name@),
            (None, Some(scope)) => Ok(scope),
            (None, None) => node_meant(self.in_view(), "world"@),
        }
    }

    /// What adding a node asks for.
    fn add_node(
        &self,
        template: String,
        name: String,
        parent: Option<String>,
        link: Option<String>,
        new_link: Option<String>,
    ) -> (r: Action)
        ensures
            self.calls_for(Request::Add { template, name, parent, link, new_link }, r),
    {
        let snap = match self.loaded {
            Ok(snap) => snap,
            Err(e) => {
                return refusal(e.to_owned());
            },
        };
        let inside = match (&parent, self.scope) {
            (Some(name), _) => self.find(name.as_str()),
            (None, Some(scope)) => Ok(scope),
            (None, None) => self.find("world"),
        };
        let parent = match inside {
            Ok(id) => id,
            Err(e) => {
                return refusal(e);
            },
        };
        let target = match (new_link, link) {
            (Some(name), _) => LinkTarget::New(name),
            (None, Some(name)) => match snap.find_link(name.as_str()) {
                Some(id) => LinkTarget::Existing(id),
                None => {
                    let mut out = "no link named `".to_owned();
                    out.append(name.as_str());
                    out.append("`");
                    return refusal(out);
                },
            },
            (None, None) => LinkTarget::Nowhere,
        };
        Action::Add { template, name, parent, link: target }
    }

    /// The node meant by `name`, or what is wrong with the name.
    fn find(&self, name: &str) -> (r: Result<u64, String>)
        ensures
            match r {
                Ok(id) => node_meant(self.in_view(), name@) == Ok::<u64, Seq<char>>(id),
                Err(e) => node_meant(self.in_view(), name@) == Err::<u64, Seq<char>>(e@),
            },
    {
        let snap = match self.loaded {
            Ok(snap) => snap,
            Err(e) => {
                return Err(e.to_owned());
            },
        };
        if same_text(name, "world") {
            return Ok(snap.root());
        }
        match snap.find_node(name) {
            Some(id) => Ok(id),
            None => {
                let mut out = "no node named `".to_owned();
                out.append(name);
                out.append("`");
                Err(out)
            },
        }
    }

    /// The tests a run is for: all of them if none is named.
    fn find_tests(&self, names: &Vec<String>) -> (r: Result<Vec<usize>, String>)
        ensures
            match r {
                Ok(found) => tests_meant(self.tests@, names@) == Ok::<Seq<usize>, Seq<char>>(
                    found@,
                ),
                Err(e) => tests_meant(self.tests@, names@) == Err::<Seq<usize>, Seq<char>>(e@),
            },
    {
        let mut out: Vec<usize> = Vec::new();
        if names.len() == 0 {
            let mut i: usize = 0;
            while i < self.tests.len()
                invariant
                    i <= self.tests.len(),
                    out@ == Seq::new(i as nat, |i: int| i as usize),
                decreases self.tests.len() - i,
            {
                out.push(i);
                i += 1;
                assert(out@ =~= Seq::new(i as nat, |i: int| i as usize));
            }
            return Ok(out);
        }
        let mut k: usize = 0;
        assert(out@ =~= Seq::<usize>::empty());
        while k < names.len()
            invariant
                k <= names.len(),
                all_meant(self.tests@, names@, k as nat) == Ok::<Seq<usize>, Seq<char>>(out@),
            decreases names.len() - k,
        {
            match find_test(self.tests, names[k].as_str()) {
                Ok(i) => {
                    out.push(i);
                },
                Err(e) => {
                    proof {
                        lemma_all_meant_error(self.tests@, names@, (k + 1) as nat, names@.len());
                    }
                    return Err(e);
                },
            }
            k += 1;
        }
        Ok(out)
    }

    /// What `request` asks for.
    pub fn decide(&self, request: Request) -> (r: Action)
        ensures
            self.calls_for(request, r),
    {
        match request {
            Request::Status => Action::ShowStatus,
            Request::Scenarios => Action::ListScenarios,
            Request::Tests => Action::ListTests,
            Request::Load { name } => match find_matching(self.scenarios, name.as_str()) {
                Some(i) => Action::BuildScenario(i),
                None => {
                    let mut out = "no scenario matches `".to_owned();
                    out.append(name.as_str());
                    out.append("` (try `scenarios`)");
                    refusal(out)
                },
            },
            Request::Watch { name } => match find_test(self.tests, name.as_str()) {
                Ok(i) => Action::WatchTest(i),
                Err(e) => refusal(e),
            },
            Request::Rebuild => Action::Rebuild,
            Request::Play => Action::Play,
            Request::Pause => Action::Pause,
            Request::Step { ticks } => match self.loaded {
                Ok(_) => Action::RunTicks(
                    if ticks == 0 {
                        1
                    } else {
                        ticks
                    },
                ),
                Err(_) => refusal("nothing is loaded".to_owned()),
            },
            Request::Run { names, wait } => match self.find_tests(&names) {
                Err(e) => refusal(e),
                Ok(tests) => match self.library_problem {
                    Some(e) => refusal(e.to_owned()),
                    None => if self.running {
                        refusal("tests are already running".to_owned())
                    } else {
                        Action::RunTests { tests, wait }
                    },
                },
            },
            Request::Results { failed_only } => Action::ShowResults { failed_only },
            Request::Open { node } => self.open(node),
            Request::Up => {
                let above = match (self.loaded, self.scope) {
                    (Ok(snap), Some(scope)) => snap.parent_of(scope),
                    _ => None,
                };
                match above {
                    Some(id) => Action::Enter(id),
                    None => refusal("already at the top".to_owned()),
                }
            },
            Request::Select { node } => match self.find(node.as_str()) {
                Ok(id) => Action::Select(id),
                Err(e) => refusal(e),
            },
            Request::Node { name } => match self.find(name.as_str()) {
                Ok(id) => Action::Describe(id),
                Err(e) => refusal(e),
            },
            Request::Send { from, via, to, kind, data } => match self.find(from.as_str()) {
                Ok(node) => Action::Send { node, from, via, to, kind, data },
                Err(e) => refusal(e),
            },
            Request::Logic { node, kind } => match self.find(node.as_str()) {
                Ok(id) => Action::SetLogic { id, node, kind },
                Err(e) => refusal(e),
            },
            Request::Limits { transmissions, deliveries, queue, payload } => match self.loaded {
                Ok(_) => Action::SetLimits(
                    LimitsReport {
                        max_transmissions_per_tick: value_or_zero(transmissions),
                        max_deliveries_per_tick: value_or_zero(deliveries),
                        max_pending: value_or_zero(queue),
                        max_payload_bytes: value_or_zero(payload),
                    },
                ),
                Err(e) => refusal(e.to_owned()),
            },
            Request::Alerts { last } => match self.loaded {
                Ok(_) => Action::ShowAlerts(last),
                Err(_) => refusal("nothing is loaded".to_owned()),
            },
            Request::Log { last } => Action::ShowLog(last),
            Request::Fuse => Action::ShowFuse,
            Request::Templates => match self.library_problem {
                Some(e) => refusal(e.to_owned()),
                None => Action::ListTemplates,
            },
            Request::Add { template, name, parent, link, new_link } => {
                self.add_node(template, name, parent, link, new_link)
            },
            Request::Remove { node } => match self.find(node.as_str()) {
                Ok(id) => Action::Remove { id, node },
                Err(e) => refusal(e),
            },
            Request::Screenshot { path } => if self.capturing {
                refusal("a screenshot is already being taken".to_owned())
            } else {
                Action::Screenshot(path)
            },
            Request::Quit => Action::Quit,
        }
    }

    /// What opening a node asks for.
    fn open(&self, node: Option<String>) -> (r: Action)
        ensures
            self.calls_for(Request::Open { node }, r),
    {
        if let Some(name) = &node {
            if !same_text(name.as_str(), "world") {
                return match self.find(name.as_str()) {
                    Ok(id) => Action::Enter(id),
                    Err(e) => refusal(e),
                };
            }
        }
        match self.loaded {
            Ok(snap) => Action::Enter(snap.root()),
            Err(_) => refusal("nothing is loaded".to_owned()),
        }
    }
}

/// A number, or 0.
fn value_or_zero(n: Option<u64>) -> (r: u64)
    ensures
        r == or_zero(n),
{
    match n {
        Some(n) => n,
        None => 0,
    }
}

/// A refusal in words.
fn refusal(text: String) -> (r: Action)
    ensures
        refuses(r, text@),
{
    Action::Answer { ok: false, text }
}

/// An error among the first names is the error of them all.
proof fn lemma_all_meant_error(tests: Seq<Entry>, names: Seq<String>, n: nat, all: nat)
    requires
        n <= all,
        all_meant(tests, names, n) is Err,
    ensures
        all_meant(tests, names, all) == all_meant(tests, names, n),
    decreases all - n,
{
    if n < all {
        lemma_all_meant_error(tests, names, n + 1, all);
    }
}

} // verus!
