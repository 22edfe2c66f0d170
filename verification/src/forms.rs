//! What people type when they add a node: schedules, dialogue, names and where to plug it in.

use vstd::prelude::*;
use vstd::string::*;

use crate::snapshot::Snapshot;
use crate::text::{
    chars_of, decimal, join, same_text, slice_of, split_at_each, text_of, trimmed,
};

verus! {

/// Whether `c` is a decimal digit.
pub open spec fn is_digit(c: char) -> bool {
    48 <= c as u32 <= 57
}

/// The number decimal digits stand for.
pub open spec fn digits_value(digits: Seq<char>) -> nat
    decreases digits.len(),
{
    if digits.len() == 0 {
        0
    } else {
        (digits_value(digits.drop_last()) * 10 + (digits.last() as u32 - 48)) as nat
    }
}

/// Whether `s` is all decimal digits, at least one.
pub open spec fn is_number(s: Seq<char>) -> bool {
    s.len() > 0 && forall|i: int| 0 <= i < s.len() ==> is_digit(#[trigger] s[i])
}

/// The number `s` stands for in decimal, if it is one and small enough. It may start with `+`.
pub open spec fn unsigned(s: Seq<char>) -> Option<u64> {
    let digits = if s.len() > 0 && s[0] == '+' {
        s.drop_first()
    } else {
        s
    };
    if is_number(digits) && digits_value(digits) <= u64::MAX {
        Some(digits_value(digits) as u64)
    } else {
        None
    }
}

/// More digits never make a smaller number.
proof fn lemma_digits_grow(digits: Seq<char>, n: int)
    requires
        0 <= n <= digits.len(),
        forall|i: int| 0 <= i < digits.len() ==> is_digit(#[trigger] digits[i]),
    ensures
        digits_value(digits.take(n)) <= digits_value(digits),
    decreases digits.len() - n,
{
    if n == digits.len() {
        assert(digits.take(n) =~= digits);
    } else {
        assert(digits.take(n + 1).drop_last() =~= digits.take(n));
        assert(is_digit(digits[n]));
        lemma_digits_grow(digits, n + 1);
    }
}

/// The number `chars` stands for in decimal, if it is one and small enough.
pub fn parse_unsigned(chars: &Vec<char>) -> (r: Option<u64>)
    ensures
        r == unsigned(chars@),
{
    let start: usize = if chars.len() > 0 && chars[0] == '+' {
        1
    } else {
        0
    };
    let ghost digits = chars@.skip(start as int);
    assert(digits =~= if chars@.len() > 0 && chars@[0] == '+' {
        chars@.drop_first()
    } else {
        chars@
    });
    if start == chars.len() {
        return None;
    }
    let mut value: u64 = 0;
    let mut i: usize = start;
    assert(digits.take(0) =~= Seq::<char>::empty());
    while i < chars.len()
        invariant
            start <= i <= chars.len(),
            digits == chars@.skip(start as int),
            digits.len() > 0,
            forall|j: int| 0 <= j < i - start ==> is_digit(#[trigger] digits[j]),
            value == digits_value(digits.take(i - start)),
            unsigned(chars@) == (if is_number(digits) && digits_value(digits) <= u64::MAX {
                Some(digits_value(digits) as u64)
            } else {
                None
            }),
        decreases chars.len() - i,
    {
        let c: char = chars[i];
        assert(c == digits[i - start]);
        let code: u32 = c as u32;
        if code < 48 || code > 57 {
            assert(!is_digit(digits[i - start]));
            return None;
        }
        let digit: u64 = (code - 48) as u64;
        proof {
            let n = i - start + 1;
            assert(digits.take(n).drop_last() =~= digits.take(n - 1));
            assert(digits_value(digits.take(n)) == value * 10 + digit);
            if is_number(digits) {
                lemma_digits_grow(digits, n);
            }
        }
        if value > (u64::MAX - digit) / 10 {
            return None;
        }
        value = value * 10 + digit;
        i += 1;
    }
    assert(digits.take(i - start) =~= digits);
    Some(value)
}

/// Where the first whitespace is in `s`, or its length if there is none.
pub open spec fn first_white(s: Seq<char>) -> int
    decreases s.len(),
{
    if s.len() == 0 || crate::text::is_white(s[0]) {
        0
    } else {
        1 + first_white(s.drop_first())
    }
}

/// Where the first whitespace is in `chars`, or their length if there is none.
fn white_position(chars: &Vec<char>) -> (r: usize)
    ensures
        r == first_white(chars@),
        r <= chars@.len(),
{
    let mut i: usize = 0;
    assert(chars@.skip(0) =~= chars@);
    while i < chars.len() && !chars[i].is_whitespace()
        invariant
            i <= chars.len(),
            first_white(chars@) == i + first_white(chars@.skip(i as int)),
        decreases chars.len() - i,
    {
        assert(chars@.skip(i as int).drop_first() =~= chars@.skip(i + 1));
        i += 1;
    }
    i
}

/// One entry of a schedule: a tick, whitespace and a goal.
pub open spec fn schedule_entry(entry: Seq<char>) -> Result<(u64, Seq<char>), Seq<char>> {
    let at = first_white(entry);
    if at == entry.len() {
        Err("schedule entry `"@ + entry + "` should be `tick goal`"@)
    } else {
        match unsigned(entry.take(at)) {
            Some(tick) => Ok((tick, crate::text::trim(entry.skip(at + 1)))),
            None => Err("`"@ + entry.take(at) + "` in the schedule is not a tick number"@),
        }
    }
}

/// The entries among `parts`, leaving out the blank ones; the first error, if there is one.
pub open spec fn schedule_of(parts: Seq<Seq<char>>) -> Result<Seq<(u64, Seq<char>)>, Seq<char>>
    decreases parts.len(),
{
    if parts.len() == 0 {
        Ok(Seq::empty())
    } else {
        match schedule_of(parts.drop_last()) {
            Err(e) => Err(e),
            Ok(done) => {
                let entry = crate::text::trim(parts.last());
                if entry.len() == 0 {
                    Ok(done)
                } else {
                    match schedule_entry(entry) {
                        Ok(e) => Ok(done.push(e)),
                        Err(e) => Err(e),
                    }
                }
            },
        }
    }
}

/// The entries' contents.
pub open spec fn entry_views(entries: Seq<(u64, String)>) -> Seq<(u64, Seq<char>)> {
    entries.map_values(|e: (u64, String)| (e.0, e.1@))
}

/// Reads one entry of a schedule.
fn read_entry(entry: &Vec<char>) -> (r: Result<(u64, String), String>)
    ensures
        match r {
            Ok(e) => schedule_entry(entry@) == Ok::<_, Seq<char>>((e.0, e.1@)),
            Err(e) => schedule_entry(entry@) == Err::<(u64, Seq<char>), _>(e@),
        },
{
    let at = white_position(entry);
    if at == entry.len() {
        let mut out = "schedule entry `".to_owned();
        out.append(text_of(entry).as_str());
        out.append("` should be `tick goal`");
        return Err(out);
    }
    let tick = slice_of(entry, 0, at);
    assert(tick@ =~= entry@.take(at as int));
    match parse_unsigned(&tick) {
        Some(n) => {
            let goal = slice_of(entry, at + 1, entry.len());
            assert(goal@ =~= entry@.skip(at + 1));
            Ok((n, text_of(&trimmed(&goal))))
        },
        None => {
            let mut out = "`".to_owned();
            out.append(text_of(&tick).as_str());
            out.append("` in the schedule is not a tick number");
            Err(out)
        },
    }
}

/// An error among the first parts is the error of them all.
proof fn lemma_schedule_error(parts: Seq<Seq<char>>, n: int)
    requires
        0 <= n <= parts.len(),
        schedule_of(parts.take(n)) is Err,
    ensures
        schedule_of(parts) == schedule_of(parts.take(n)),
    decreases parts.len() - n,
{
    if n == parts.len() {
        assert(parts.take(n) =~= parts);
    } else {
        assert(parts.take(n + 1).drop_last() =~= parts.take(n));
        lemma_schedule_error(parts, n + 1);
    }
}

/// Parses `0 sleep, 60 work` into `[(0, "sleep"), (60, "work")]`.
pub fn parse_schedule(text: &str) -> (r: Result<Vec<(u64, String)>, String>)
    ensures
        match r {
            Ok(entries) => schedule_of(crate::text::split(text@, ',')) == Ok::<_, Seq<char>>(
                entry_views(entries@),
            ),
            Err(e) => schedule_of(crate::text::split(text@, ',')) == Err::<
                Seq<(u64, Seq<char>)>,
                _,
            >(e@),
        },
{
    let parts = split_at_each(&chars_of(text), ',');
    let ghost views = crate::text::views(parts@);
    let mut out: Vec<(u64, String)> = Vec::new();
    let mut i: usize = 0;
    assert(views.take(0) =~= Seq::<Seq<char>>::empty());
    assert(entry_views(out@) =~= Seq::<(u64, Seq<char>)>::empty());
    while i < parts.len()
        invariant
            i <= parts.len(),
            views == crate::text::views(parts@),
            views == crate::text::split(text@, ','),
            schedule_of(views.take(i as int)) == Ok::<_, Seq<char>>(entry_views(out@)),
        decreases parts.len() - i,
    {
        let entry = trimmed(&parts[i]);
        proof {
            assert(views.take(i + 1).drop_last() =~= views.take(i as int));
            assert(views.take(i + 1).last() == parts@[i as int]@);
        }
        if entry.len() > 0 {
            match read_entry(&entry) {
                Ok(e) => {
                    let ghost was = out@;
                    let ghost view = (e.0, e.1@);
                    out.push(e);
                    assert(entry_views(out@) =~= entry_views(was).push(view));
                },
                Err(e) => {
                    proof {
                        lemma_schedule_error(views, i + 1);
                    }
                    return Err(e);
                },
            }
        }
        i += 1;
    }
    assert(views.take(i as int) =~= views);
    Ok(out)
}

/// The parts without the whitespace around them, leaving out the blank ones.
pub open spec fn trimmed_parts(parts: Seq<Seq<char>>) -> Seq<Seq<char>>
    decreases parts.len(),
{
    if parts.len() == 0 {
        Seq::empty()
    } else {
        let line = crate::text::trim(parts.last());
        if line.len() == 0 {
            trimmed_parts(parts.drop_last())
        } else {
            trimmed_parts(parts.drop_last()).push(line)
        }
    }
}

/// The lines of dialogue in `text`, one per row, without blank rows and the whitespace around
/// each.
pub fn dialogue_lines(text: &str) -> (r: Vec<String>)
    ensures
        crate::text::texts(r@) == trimmed_parts(crate::text::split(text@, '\n')),
{
    let parts = split_at_each(&chars_of(text), '\n');
    let ghost views = crate::text::views(parts@);
    let mut out: Vec<String> = Vec::new();
    let mut i: usize = 0;
    assert(views.take(0) =~= Seq::<Seq<char>>::empty());
    assert(crate::text::texts(out@) =~= Seq::<Seq<char>>::empty());
    while i < parts.len()
        invariant
            i <= parts.len(),
            views == crate::text::views(parts@),
            crate::text::texts(out@) == trimmed_parts(views.take(i as int)),
        decreases parts.len() - i,
    {
        let line = trimmed(&parts[i]);
        proof {
            assert(views.take(i + 1).drop_last() =~= views.take(i as int));
            assert(views.take(i + 1).last() == parts@[i as int]@);
        }
        if line.len() > 0 {
            let ghost was = out@;
            out.push(text_of(&line));
            assert(crate::text::texts(out@) =~= crate::text::texts(was).push(line@));
        }
        i += 1;
    }
    assert(views.take(i as int) =~= views);
    out
}

/// `prefix` with a number.
pub open spec fn numbered(prefix: Seq<char>, n: nat) -> Seq<char> {
    prefix + "-"@ + crate::text::decimal_text(n)
}

/// Whether some node has this name.
pub open spec fn taken(nodes: Seq<crate::snapshot::NodeEntry>, name: Seq<char>) -> bool {
    crate::snapshot::first_named(nodes, name) is Some
}

/// A name is taken by the node that has it.
proof fn lemma_taken(nodes: Seq<crate::snapshot::NodeEntry>, name: Seq<char>) -> (i: int)
    requires
        taken(nodes, name),
    ensures
        0 <= i < nodes.len(),
        nodes[i].name@ == name,
    decreases nodes.len(),
{
    if nodes[0].name@ == name {
        0
    } else {
        1 + lemma_taken(nodes.drop_first(), name)
    }
}

/// A number's decimal form stands for the number.
pub proof fn lemma_decimal_value(n: nat)
    ensures
        digits_value(crate::text::decimal_text(n)) == n,
    decreases n,
{
    let text = crate::text::decimal_text(n);
    reveal_with_fuel(digits_value, 2);
    if n >= 10 {
        lemma_decimal_value(n / 10);
        assert(text.drop_last() =~= crate::text::decimal_text(n / 10));
    } else {
        assert(text.drop_last() =~= Seq::<char>::empty());
    }
}

/// Different numbers give different names.
proof fn lemma_numbered_differ(prefix: Seq<char>, a: nat, b: nat)
    requires
        numbered(prefix, a) == numbered(prefix, b),
    ensures
        a == b,
{
    let start = prefix + "-"@;
    lemma_decimal_value(a);
    lemma_decimal_value(b);
    assert(numbered(prefix, a).skip(start.len() as int) =~= crate::text::decimal_text(a));
    assert(numbered(prefix, b).skip(start.len() as int) =~= crate::text::decimal_text(b));
}

/// A node with the name numbered `n`.
spec fn holder(nodes: Seq<crate::snapshot::NodeEntry>, prefix: Seq<char>, n: int) -> int {
    choose|i: int|
        0 <= i < nodes.len() && (#[trigger] nodes[i]).name@ == numbered(prefix, n as nat)
}

/// More names than nodes cannot all be taken.
proof fn lemma_one_is_free(nodes: Seq<crate::snapshot::NodeEntry>, prefix: Seq<char>)
    ensures
        exists|n: nat| 1 <= n <= nodes.len() + 1 && !taken(nodes, #[trigger] numbered(prefix, n)),
{
    if forall|n: nat|
        1 <= n <= nodes.len() + 1 ==> taken(nodes, #[trigger] numbered(prefix, n)) {
        let holder = |n: int| holder(nodes, prefix, n);
        let numbers = vstd::set_lib::set_int_range(1, (nodes.len() + 2) as int);
        let places = vstd::set_lib::set_int_range(0, nodes.len() as int);
        vstd::set_lib::lemma_int_range(1, (nodes.len() + 2) as int);
        vstd::set_lib::lemma_int_range(0, nodes.len() as int);
        assert forall|n: int| #[trigger] numbers.contains(n) implies 0 <= holder(n) < nodes.len()
            && nodes[holder(n)].name@ == numbered(prefix, n as nat) by {
            assert(taken(nodes, numbered(prefix, n as nat)));
            let i = lemma_taken(nodes, numbered(prefix, n as nat));
            assert(nodes[i].name@ == numbered(prefix, n as nat));
        }
        let held = numbers.map(holder);
        assert forall|a: int, b: int|
            numbers.contains(a) && numbers.contains(b) && #[trigger] holder(a) == #[trigger] holder(
                b,
            ) implies a == b by {
            lemma_numbered_differ(prefix, a as nat, b as nat);
        }
        vstd::set_lib::lemma_map_size(numbers, held, holder);
        assert(held.subset_of(places));
        vstd::set_lib::lemma_len_subset(held, places);
    }
}

/// `prefix-N` with the smallest N no node already uses.
pub fn suggest_name(snap: &Snapshot, prefix: &str) -> (r: String)
    requires
        snap@.nodes.len() < u64::MAX,
    ensures
        exists|n: nat|
            1 <= n <= snap@.nodes.len() + 1 && r@ == #[trigger] numbered(prefix@, n) && !taken(
                snap@.nodes,
                r@,
            ) && forall|m: nat|
                1 <= m < n ==> taken(snap@.nodes, #[trigger] numbered(prefix@, m)),
{
    let mut n: u64 = 1;
    proof {
        lemma_one_is_free(snap@.nodes, prefix@);
    }
    loop
        invariant
            1 <= n <= snap@.nodes.len() + 1 < u64::MAX + 1,
            exists|k: nat|
                1 <= k <= snap@.nodes.len() + 1 && !taken(
                    snap@.nodes,
                    #[trigger] numbered(prefix@, k),
                ),
            forall|m: nat| 1 <= m < n ==> taken(snap@.nodes, #[trigger] numbered(prefix@, m)),
        decreases snap@.nodes.len() + 1 - n,
    {
        let mut name = prefix.to_owned();
        name.append("-");
        name.append(decimal(n).as_str());
        assert(name@ == numbered(prefix@, n as nat));
        if snap.find_node(name.as_str()).is_none() {
            return name;
        }
        proof {
            let k = choose|k: nat|
                1 <= k <= snap@.nodes.len() + 1 && !taken(
                    snap@.nodes,
                    #[trigger] numbered(prefix@, k),
                );
            assert(n < k);
        }
        n += 1;
    }
}

/// Where a new node attaches.
#[derive(Debug, Clone)]
pub enum LinkTarget {
    /// Nested in the parent, on no link.
    Nowhere,
    /// One of the parent's own links.
    Existing(u64),
    /// A new link, owned by the parent.
    New(String),
}

/// Where a new node attaches unless something still possible was chosen: the first of the
/// parent's links, if it has any.
pub open spec fn settled(chosen: Option<LinkTarget>, links: Seq<u64>) -> LinkTarget {
    match chosen {
        Some(LinkTarget::Existing(l)) if !links.contains(l) => first_link(links),
        Some(target) => target,
        None => first_link(links),
    }
}

/// The first of the parent's links, if it has any.
pub open spec fn first_link(links: Seq<u64>) -> LinkTarget {
    if links.len() > 0 {
        LinkTarget::Existing(links[0])
    } else {
        LinkTarget::Nowhere
    }
}

/// Whether `links` holds `l`.
pub fn holds_link(links: &Vec<u64>, l: u64) -> (r: bool)
    ensures
        r == links@.contains(l),
{
    let mut i: usize = 0;
    while i < links.len()
        invariant
            i <= links.len(),
            forall|j: int| 0 <= j < i ==> links@[j] != l,
        decreases links.len() - i,
    {
        if links[i] == l {
            assert(links@[i as int] == l);
            return true;
        }
        i += 1;
    }
    false
}

/// Where a new node attaches, given what was chosen and the links its parent has.
pub fn settle_target(chosen: Option<LinkTarget>, links: &Vec<u64>) -> (r: LinkTarget)
    ensures
        r == settled(chosen, links@),
{
    let first = if links.len() > 0 {
        LinkTarget::Existing(links[0])
    } else {
        LinkTarget::Nowhere
    };
    match chosen {
        Some(LinkTarget::Existing(l)) => if holds_link(links, l) {
            LinkTarget::Existing(l)
        } else {
            first
        },
        Some(target) => target,
        None => first,
    }
}

/// What a template's nodes are called unless a name is given.
pub fn name_prefix(template: &str) -> (r: &'static str)
    ensures
        r@ == (if template@ == "npc"@ {
            "npc"@
        } else {
            "pc"@
        }),
{
    if same_text(template, "npc") {
        "npc"
    } else {
        "pc"
    }
}

/// The name a new link is asked for by: without the whitespace around it.
pub fn trimmed_text(text: &str) -> (r: String)
    ensures
        r@ == crate::text::trim(text@),
{
    text_of(&trimmed(&chars_of(text)))
}

// ---- Schedules in words ---------------------------------------------------------------------

/// One entry of a schedule in words.
pub open spec fn entry_words(entry: (u64, Seq<char>)) -> Seq<char> {
    crate::text::decimal_text(entry.0 as nat) + " "@ + entry.1
}

/// The entries in words.
pub open spec fn all_entry_words(entries: Seq<(u64, Seq<char>)>) -> Seq<Seq<char>> {
    entries.map_values(|e: (u64, Seq<char>)| entry_words(e))
}

/// A schedule in words: `0 sleep, 60 work`.
pub open spec fn schedule_words(entries: Seq<(u64, Seq<char>)>) -> Seq<char> {
    crate::text::join_text(all_entry_words(entries), ", "@)
}

/// A schedule in words: `0 sleep, 60 work`.
pub fn schedule_text(entries: &Vec<(u64, String)>) -> (r: String)
    ensures
        r@ == schedule_words(entry_views(entries@)),
{
    let ghost words = all_entry_words(entry_views(entries@));
    let mut parts: Vec<String> = Vec::new();
    let mut i: usize = 0;
    while i < entries.len()
        invariant
            i <= entries.len(),
            words == all_entry_words(entry_views(entries@)),
            parts@.len() == i,
            forall|j: int| 0 <= j < i ==> (#[trigger] parts@[j])@ == words[j],
        decreases entries.len() - i,
    {
        let mut part = decimal(entries[i].0);
        part.append(" ");
        part.append(entries[i].1.as_str());
        assert(words[i as int] == entry_words((entries@[i as int].0, entries@[i as int].1@)));
        parts.push(part);
        i += 1;
    }
    assert(crate::text::texts(parts@) =~= words);
    join(&parts, ", ")
}

/// Appending characters other than `c` only makes the last piece longer.
proof fn lemma_split_longer(s: Seq<char>, t: Seq<char>, c: char)
    requires
        !t.contains(c),
    ensures
        crate::text::split(s + t, c) == crate::text::split(s, c).drop_last().push(
            crate::text::split(s, c).last() + t,
        ),
    decreases t.len(),
{
    crate::text::lemma_split_nonempty(s, c);
    let before = crate::text::split(s, c);
    if t.len() == 0 {
        assert(s + t =~= s);
        assert(before.last() + t =~= before.last());
        assert(before.drop_last().push(before.last()) =~= before);
    } else {
        let front = t.drop_last();
        assert forall|x: char| front.contains(x) implies t.contains(x) by {
            let k = front.index_of(x);
            assert(t[k] == x);
        }
        lemma_split_longer(s, front, c);
        assert((s + t).drop_last() =~= s + front);
        assert(t[t.len() - 1] == t.last());
        assert((s + t).last() == t.last());
        assert(t.contains(t.last()));
        let middle = crate::text::split(s + front, c);
        assert(middle.drop_last() =~= before.drop_last());
        assert(middle.last().push(t.last()) =~= before.last() + t);
    }
}

/// The words of all but the last entry.
proof fn lemma_fewer_words(entries: Seq<(u64, Seq<char>)>)
    requires
        entries.len() > 0,
    ensures
        all_entry_words(entries).drop_last() == all_entry_words(entries.drop_last()),
        all_entry_words(entries).last() == entry_words(entries.last()),
{
    assert(all_entry_words(entries).drop_last() =~= all_entry_words(entries.drop_last()));
}

/// Whether an entry's goal reads as itself: it has no comma, and no whitespace around it, and is
/// not empty.
pub open spec fn plain_goal(goal: Seq<char>) -> bool {
    goal.len() > 0 && crate::text::trim(goal) == goal && !goal.contains(',')
}

/// Trimming leaves no whitespace at the end.
proof fn lemma_trim_end(s: Seq<char>)
    ensures
        crate::text::trim_end(s).len() > 0 ==> !crate::text::is_white(
            crate::text::trim_end(s).last(),
        ),
        s.len() > 0 && !crate::text::is_white(s.last()) ==> crate::text::trim_end(s) == s,
    decreases s.len(),
{
    if s.len() > 0 && crate::text::is_white(s.last()) {
        lemma_trim_end(s.drop_last());
    }
}

/// A number's decimal form is made of digits.
proof fn lemma_decimal_digits(n: nat)
    ensures
        is_number(crate::text::decimal_text(n)),
        !crate::text::decimal_text(n).contains(','),
    decreases n,
{
    let text = crate::text::decimal_text(n);
    if n >= 10 {
        lemma_decimal_digits(n / 10);
    }
    assert forall|i: int| 0 <= i < text.len() implies is_digit(#[trigger] text[i]) by {
        if i < text.len() - 1 {
            assert(text[i] == crate::text::decimal_text(n / 10)[i]);
        }
    }
    if text.contains(',') {
        let k = text.index_of(',');
        assert(is_digit(text[k]));
    }
}

/// The first whitespace of a number in words followed by a space is that space.
proof fn lemma_first_white(digits: Seq<char>, rest: Seq<char>)
    requires
        forall|i: int| 0 <= i < digits.len() ==> is_digit(#[trigger] digits[i]),
    ensures
        first_white(digits + " "@ + rest) == digits.len(),
    decreases digits.len(),
{
    reveal_strlit(" ");
    let all = digits + " "@ + rest;
    if digits.len() == 0 {
        assert(all[0] == ' ');
    } else {
        assert(all[0] == digits[0]);
        assert(is_digit(digits[0]));
        assert(all.drop_first() =~= digits.drop_first() + " "@ + rest);
        assert forall|i: int| 0 <= i < digits.drop_first().len() implies is_digit(
            #[trigger] digits.drop_first()[i],
        ) by {
            assert(digits.drop_first()[i] == digits[i + 1]);
        }
        lemma_first_white(digits.drop_first(), rest);
    }
}

/// An entry in words reads as the entry, with or without a space before it.
proof fn lemma_entry_reads_back(tick: u64, goal: Seq<char>)
    requires
        plain_goal(goal),
    ensures
        ({
            let words = entry_words((tick, goal));
            &&& words.len() > 0
            &&& crate::text::trim(words) == words
            &&& crate::text::trim(" "@ + words) == words
            &&& schedule_entry(words) == Ok::<_, Seq<char>>((tick, goal))
            &&& !words.contains(',')
        }),
{
    reveal_strlit(" ");
    let digits = crate::text::decimal_text(tick as nat);
    let words = entry_words((tick, goal));
    lemma_decimal_digits(tick as nat);
    lemma_decimal_value(tick as nat);
    lemma_first_white(digits, goal);
    assert(words[0] == digits[0]);
    assert(is_digit(digits[0]));
    lemma_trim_end(crate::text::trim_start(goal));
    assert(!crate::text::is_white(goal.last()));
    assert(words.last() == goal.last());
    lemma_trim_end(words);
    assert(crate::text::trim_start(words) == words);
    let spaced = " "@ + words;
    assert(spaced[0] == ' ');
    assert(spaced.drop_first() =~= words);
    assert(crate::text::trim_start(spaced) == crate::text::trim_start(words));
    let at = first_white(words);
    assert(words.take(at) =~= digits);
    assert(words.skip(at + 1) =~= goal);
    if words.contains(',') {
        let k = words.index_of(',');
        if k < digits.len() {
            assert(digits[k] == ',');
        } else if k > digits.len() {
            assert(goal[k - digits.len() - 1] == ',');
        }
    }
}

/// A schedule in words splits into its entries.
proof fn lemma_schedule_reads_back(entries: Seq<(u64, Seq<char>)>)
    requires
        entries.len() > 0,
        forall|i: int| 0 <= i < entries.len() ==> plain_goal((#[trigger] entries[i]).1),
    ensures
        schedule_of(crate::text::split(schedule_words(entries), ',')) == Ok::<_, Seq<char>>(
            entries,
        ),
    decreases entries.len(),
{
    let (tick, goal) = entries.last();
    let words = entry_words((tick, goal));
    assert(plain_goal(entries[entries.len() - 1].1));
    lemma_entry_reads_back(tick, goal);
    lemma_fewer_words(entries);
    let all = schedule_words(entries);
    let front = entries.drop_last();
    if entries.len() == 1 {
        let none = Seq::<char>::empty();
        assert(all == words);
        assert(none + words =~= words);
        lemma_split_longer(none, words, ',');
        assert(crate::text::split(none, ',') =~= seq![none]);
        let parts = crate::text::split(all, ',');
        assert(parts =~= seq![words]);
        assert(parts.drop_last() =~= Seq::<Seq<char>>::empty());
        assert(schedule_of(parts.drop_last()) == Ok::<_, Seq<char>>(
            Seq::<(u64, Seq<char>)>::empty(),
        ));
        assert(Seq::<(u64, Seq<char>)>::empty().push((tick, goal)) =~= entries);
    } else {
        assert forall|i: int| 0 <= i < front.len() implies plain_goal((#[trigger] front[i]).1) by {
            assert(front[i] == entries[i]);
        }
        lemma_schedule_reads_back(front);
        reveal_strlit(", ");
        reveal_strlit(" ");
        let head = schedule_words(front);
        let tail = " "@ + words;
        assert(all =~= head.push(',') + tail);
        assert(head.push(',').drop_last() =~= head);
        let before = crate::text::split(head, ',');
        assert(crate::text::split(head.push(','), ',') == before.push(Seq::<char>::empty()));
        if tail.contains(',') {
            let k = tail.index_of(',');
            assert(k > 0);
            assert(words[k - 1] == ',');
        }
        lemma_split_longer(head.push(','), tail, ',');
        let parts = crate::text::split(all, ',');
        assert(Seq::<char>::empty() + tail =~= tail);
        assert(before.push(Seq::<char>::empty()).drop_last() =~= before);
        assert(parts =~= before.push(tail));
        assert(parts.drop_last() =~= before);
        assert(front.push((tick, goal)) =~= entries);
    }
}

/// A schedule in words reads as the same schedule, where each goal reads as itself.
pub proof fn law_schedules_read_back(entries: Seq<(u64, Seq<char>)>)
    requires
        forall|i: int| 0 <= i < entries.len() ==> plain_goal((#[trigger] entries[i]).1),
    ensures
        schedule_of(crate::text::split(schedule_words(entries), ',')) == Ok::<_, Seq<char>>(
            entries,
        ),
{
    if entries.len() > 0 {
        lemma_schedule_reads_back(entries);
    } else {
        let none = Seq::<char>::empty();
        assert(schedule_words(entries) == none);
        let parts = crate::text::split(none, ',');
        assert(parts =~= seq![none]);
        assert(parts.drop_last() =~= Seq::<Seq<char>>::empty());
        assert(schedule_of(parts.drop_last()) == Ok::<_, Seq<char>>(
            Seq::<(u64, Seq<char>)>::empty(),
        ));
        assert(crate::text::trim(none) == none);
        assert(entries =~= Seq::<(u64, Seq<char>)>::empty());
    }
}

// ---- What a new node is made of -------------------------------------------------------------

/// What was filled in about a new node.
#[derive(Debug)]
pub struct Draft {
    /// The template it is built from.
    pub template: String,
    /// A computer's apps.
    pub apps: Vec<String>,
    /// A computer's hardware.
    pub hardware: Vec<String>,
    /// A person's role.
    pub role: String,
    /// How many ticks a person's day has.
    pub day_length: u64,
    /// A person's day, as typed.
    pub schedule: String,
    /// What a person says, as typed.
    pub lines: String,
}

/// What a template needs to know.
#[derive(Debug)]
pub enum Settings {
    /// For a computer.
    Computer {
        /// The apps to install.
        apps: Vec<String>,
        /// The hardware to fit.
        hardware: Vec<String>,
    },
    /// For a person.
    Npc {
        /// The role they play.
        role: String,
        /// How many ticks their day has.
        day_length: u64,
        /// What they do from which tick of the day on.
        schedule: Vec<(u64, String)>,
        /// What they say.
        lines: Vec<String>,
    },
}

/// Whether `r` is what a draft comes to: the settings of the template it names, or what is wrong
/// with it.
pub open spec fn comes_to(draft: Draft, r: Result<Settings, String>) -> bool {
    if draft.template@ == "computer"@ {
        r matches Ok(Settings::Computer { apps, hardware }) && apps == draft.apps && hardware
            == draft.hardware
    } else if draft.template@ == "npc"@ {
        match schedule_of(crate::text::split(draft.schedule@, ',')) {
            Ok(day) => r matches Ok(Settings::Npc { role, day_length, schedule, lines }) && role
                == draft.role && day_length == draft.day_length && entry_views(schedule@) == day
                && crate::text::texts(lines@) == trimmed_parts(
                crate::text::split(draft.lines@, '\n'),
            ),
            Err(e) => r matches Err(words) && words@ == e,
        }
    } else {
        r matches Err(words) && words@ == "unknown template `"@ + draft.template@ + "`"@
    }
}

impl Draft {
    /// The settings for the template, or what is wrong with what was filled in.
    pub fn settings(self) -> (r: Result<Settings, String>)
        ensures
            comes_to(self, r),
    {
        if same_text(self.template.as_str(), "computer") {
            return Ok(Settings::Computer { apps: self.apps, hardware: self.hardware });
        }
        if same_text(self.template.as_str(), "npc") {
            return match parse_schedule(self.schedule.as_str()) {
                Ok(schedule) => Ok(
                    Settings::Npc {
                        role: self.role,
                        day_length: self.day_length,
                        schedule,
                        lines: dialogue_lines(self.lines.as_str()),
                    },
                ),
                Err(e) => Err(e),
            };
        }
        let mut out = "unknown template `".to_owned();
        out.append(self.template.as_str());
        out.append("`");
        Err(out)
    }
}

// ---- Sending --------------------------------------------------------------------------------

/// A packet to be sent by hand.
#[derive(Debug, Clone)]
pub struct Outbound {
    /// The link it goes onto.
    pub via: String,
    /// Where it is headed.
    pub to: String,
    /// The event's kind.
    pub kind: String,
    /// The payload.
    pub data: String,
}

/// A ping for everyone on `link`.
pub fn ping(link: &str, data: &str) -> (r: Outbound)
    ensures
        r.via@ == link@,
        r.to@ == "*@"@ + link@,
        r.kind@ == "ping"@,
        r.data@ == data@,
{
    let mut to = "*@".to_owned();
    to.append(link);
    Outbound { via: link.to_owned(), to, kind: "ping".to_owned(), data: data.to_owned() }
}

} // verus!
