//! Addresses: stacks of hops, with a text form.

use vstd::prelude::*;
use vstd::string::*;

use crate::names;
use crate::text::{
    chars_of, decimal, position_of, same_text, slice_of, split_at_each, text_of, trimmed,
};

verus! {

broadcast use vstd::seq_lib::group_seq_properties;

/// What a [`Hop`] holds.
#[verifier::ext_equal]
pub struct HopView {
    pub node: Seq<char>,
    pub link: Seq<char>,
}

/// One step of a route: deliver to `node`, arriving over `link`. Both are names, not handles,
/// because addresses travel inside packets and are resolved hop by hop.
#[derive(Debug, PartialEq, Eq, Hash)]
pub struct Hop {
    /// Node name, or one of the reserved [`names`].
    pub node: String,
    /// Link name, or one of the reserved [`names`].
    pub link: String,
}

impl View for Hop {
    type V = HopView;

    open spec fn view(&self) -> HopView {
        HopView { node: self.node@, link: self.link@ }
    }
}

impl Clone for Hop {
    fn clone(&self) -> (r: Self)
        ensures
            r@ == self@,
    {
        Hop { node: self.node.clone(), link: self.link.clone() }
    }
}

impl Hop {
    /// Creates a hop.
    pub fn new(node: &str, link: &str) -> (r: Self)
        ensures
            r@ == (HopView { node: node@, link: link@ }),
    {
        Hop { node: node.to_owned(), link: link.to_owned() }
    }
}

/// What a [`RouteError`] says.
#[verifier::ext_equal]
pub enum RouteErrorView {
    Empty,
    TooDeep,
    BadHop(Seq<char>),
}

/// Why a route could not be built.
#[derive(Debug, PartialEq, Eq)]
#[non_exhaustive]
pub enum RouteError {
    /// A route needs at least one hop.
    Empty,
    /// More than [`PacketRoute::MAX_DEPTH`] hops.
    TooDeep,
    /// A hop in route text had an empty node or link name.
    BadHop(String),
}

impl View for RouteError {
    type V = RouteErrorView;

    open spec fn view(&self) -> RouteErrorView {
        match *self {
            RouteError::Empty => RouteErrorView::Empty,
            RouteError::TooDeep => RouteErrorView::TooDeep,
            RouteError::BadHop(part) => RouteErrorView::BadHop(part@),
        }
    }
}

impl Clone for RouteError {
    fn clone(&self) -> (r: Self)
        ensures
            r@ == self@,
    {
        match self {
            RouteError::Empty => RouteError::Empty,
            RouteError::TooDeep => RouteError::TooDeep,
            RouteError::BadHop(part) => RouteError::BadHop(part.clone()),
        }
    }
}

impl RouteErrorView {
    /// The problem in words.
    pub open spec fn text(self) -> Seq<char> {
        match self {
            RouteErrorView::Empty => "a route needs at least one hop"@,
            RouteErrorView::TooDeep => "a route has at most "@ + crate::text::decimal_text(
                PacketRoute::MAX_DEPTH as nat,
            ) + " hops"@,
            RouteErrorView::BadHop(part) => "invalid hop `"@ + part
                + "`: expected `node@link`"@,
        }
    }
}

impl RouteError {
    /// The problem in words, for people.
    pub fn to_string(&self) -> (r: String)
        ensures
            r@ == self@.text(),
    {
        match self {
            RouteError::Empty => "a route needs at least one hop".to_owned(),
            RouteError::TooDeep => {
                let mut out = "a route has at most ".to_owned();
                out.append(decimal(PacketRoute::MAX_DEPTH as u64).as_str());
                out.append(" hops");
                out
            },
            RouteError::BadHop(part) => {
                let mut out = "invalid hop `".to_owned();
                out.append(part.as_str());
                out.append("`: expected `node@link`");
                out
            },
        }
    }
}

/// The hops' contents.
pub open spec fn hop_views(hops: Seq<Hop>) -> Seq<HopView> {
    hops.map_values(|h: Hop| h@)
}

/// The text form of one hop: `node@link`.
pub open spec fn hop_text(hop: HopView) -> Seq<char> {
    hop.node.push('@') + hop.link
}

/// The text form of a route: its hops, separated by `/`.
pub open spec fn route_text(hops: Seq<HopView>) -> Seq<char>
    decreases hops.len(),
{
    if hops.len() == 0 {
        Seq::empty()
    } else if hops.len() == 1 {
        hop_text(hops[0])
    } else {
        route_text(hops.drop_last()).push('/') + hop_text(hops.last())
    }
}

/// The hop that one part of route text stands for, if it is a proper one: `node@link`, or just
/// `node` for any link. Whitespace around the part does not count.
pub open spec fn hop_of(part: Seq<char>) -> Option<HopView> {
    let part = crate::text::trim(part);
    let at = crate::text::find(part, '@');
    let node = part.take(at);
    let link = if at < part.len() {
        part.skip(at + 1)
    } else {
        names::ANY_LINK@
    };
    if node.len() == 0 || link.len() == 0 {
        None
    } else {
        Some(HopView { node, link })
    }
}

/// The hops that the parts stand for, or the first part that is not a hop.
pub open spec fn hops_of(parts: Seq<Seq<char>>) -> Result<Seq<HopView>, Seq<char>>
    decreases parts.len(),
{
    if parts.len() == 0 {
        Ok(Seq::empty())
    } else {
        match hops_of(parts.drop_last()) {
            Err(part) => Err(part),
            Ok(hops) => match hop_of(parts.last()) {
                Some(hop) => Ok(hops.push(hop)),
                None => Err(crate::text::trim(parts.last())),
            },
        }
    }
}

/// What a route's text stands for.
pub open spec fn parse_text(s: Seq<char>) -> Result<Seq<HopView>, RouteErrorView> {
    match hops_of(crate::text::split(s, '/')) {
        Err(part) => Err(RouteErrorView::BadHop(part)),
        Ok(hops) => if hops.len() > PacketRoute::MAX_DEPTH {
            Err(RouteErrorView::TooDeep)
        } else {
            Ok(hops)
        },
    }
}

/// An address: a stack of hops, the head being where the packet goes next.
///
/// Single-hop routes are the common case. Multi-hop routes reach something nested behind a
/// gateway: the gateway receives the packet, pops its own hop, and forwards the rest.
///
/// Routes have a text form, `node@link/node@link`, used by hosts and the sandbox.
#[derive(Debug, PartialEq, Eq, Hash)]
pub struct PacketRoute {
    hops: Vec<Hop>,
}

impl View for PacketRoute {
    type V = Seq<HopView>;

    closed spec fn view(&self) -> Seq<HopView> {
        hop_views(self.hops@)
    }
}

impl Clone for PacketRoute {
    fn clone(&self) -> (r: Self)
        ensures
            r@ == self@,
    {
        proof {
            use_type_invariant(self);
        }
        PacketRoute { hops: copy_hops(&self.hops, 0) }
    }
}

/// The hops from `start` on.
fn copy_hops(hops: &Vec<Hop>, start: usize) -> (r: Vec<Hop>)
    requires
        start <= hops.len(),
    ensures
        hop_views(r@) == hop_views(hops@).skip(start as int),
{
    let mut out: Vec<Hop> = Vec::new();
    let mut i: usize = start;
    while i < hops.len()
        invariant
            start <= i <= hops.len(),
            hop_views(out@) == hop_views(hops@).subrange(start as int, i as int),
        decreases hops.len() - i,
    {
        let ghost was = out@;
        out.push(hops[i].clone());
        assert(hop_views(out@) =~= hop_views(was).push(hops@[i as int]@));
        i += 1;
        assert(hop_views(out@) =~= hop_views(hops@).subrange(start as int, i as int));
    }
    assert(hop_views(out@) =~= hop_views(hops@).skip(start as int));
    out
}

impl PacketRoute {
    /// Deepest route allowed. A guard against runaway route growth, not a practical limit.
    pub const MAX_DEPTH: usize = 8;

    #[verifier::type_invariant]
    spec fn bounded(self) -> bool {
        1 <= self.hops@.len() <= Self::MAX_DEPTH
    }

    /// A single-hop route.
    pub fn new(node: &str, link: &str) -> (r: Self)
        ensures
            r@ == seq![HopView { node: node@, link: link@ }],
    {
        let mut hops: Vec<Hop> = Vec::new();
        hops.push(Hop::new(node, link));
        assert(hop_views(hops@) =~= seq![HopView { node: node@, link: link@ }]);
        PacketRoute { hops }
    }

    /// A route from explicit hops.
    ///
    /// # Errors
    ///
    /// Fails if `hops` is empty or longer than [`MAX_DEPTH`](Self::MAX_DEPTH).
    pub fn from_hops(hops: Vec<Hop>) -> (r: Result<Self, RouteError>)
        ensures
            match r {
                Ok(route) => 1 <= hops@.len() <= Self::MAX_DEPTH && route@ == hop_views(hops@),
                Err(e) => if hops@.len() == 0 {
                    e == RouteError::Empty
                } else {
                    hops@.len() > Self::MAX_DEPTH && e == RouteError::TooDeep
                },
            },
    {
        if hops.len() == 0 {
            Err(RouteError::Empty)
        } else if hops.len() > Self::MAX_DEPTH {
            Err(RouteError::TooDeep)
        } else {
            Ok(PacketRoute { hops })
        }
    }

    /// The node the packet is going to next.
    pub fn node(&self) -> (r: &str)
        ensures
            r@ == self@[0].node,
            1 <= self@.len() <= Self::MAX_DEPTH,
    {
        proof {
            use_type_invariant(self);
        }
        self.hops[0].node.as_str()
    }

    /// The link the packet should arrive on next.
    pub fn link(&self) -> (r: &str)
        ensures
            r@ == self@[0].link,
            1 <= self@.len() <= Self::MAX_DEPTH,
    {
        proof {
            use_type_invariant(self);
        }
        self.hops[0].link.as_str()
    }

    /// Every hop, head first.
    pub fn hops(&self) -> (r: &[Hop])
        ensures
            hop_views(r@) == self@,
    {
        self.hops.as_slice()
    }

    /// Number of hops. Always at least 1.
    pub fn len(&self) -> (r: usize)
        ensures
            r == self@.len(),
            1 <= r <= Self::MAX_DEPTH,
    {
        proof {
            use_type_invariant(self);
        }
        self.hops.len()
    }

    /// The route with its head removed, or `None` if the head is the last hop.
    pub fn popped(&self) -> (r: Option<Self>)
        ensures
            match r {
                Some(rest) => self@.len() > 1 && rest@ == self@.drop_first(),
                None => self@.len() == 1,
            },
    {
        proof {
            use_type_invariant(self);
        }
        if self.hops.len() > 1 {
            let hops = copy_hops(&self.hops, 1);
            proof {
                assert(hop_views(self.hops@).skip(1) =~= hop_views(self.hops@).drop_first());
                assert(hop_views(hops@).len() == hops@.len());
            }
            Some(PacketRoute { hops })
        } else {
            None
        }
    }

    /// The route with `hop` added in front.
    ///
    /// # Errors
    ///
    /// Fails if the result would be deeper than [`MAX_DEPTH`](Self::MAX_DEPTH).
    pub fn prepended(&self, hop: Hop) -> (r: Result<Self, RouteError>)
        ensures
            match r {
                Ok(route) => self@.len() < Self::MAX_DEPTH && route@ == seq![hop@] + self@,
                Err(e) => self@.len() >= Self::MAX_DEPTH && e == RouteError::TooDeep,
            },
    {
        let ghost front = hop@;
        let mut hops: Vec<Hop> = Vec::new();
        hops.push(hop);
        let mut rest = copy_hops(&self.hops, 0);
        proof {
            assert(hop_views(rest@) =~= self@);
            assert(hop_views(rest@).len() == rest@.len());
        }
        let ghost tail = rest@;
        hops.append(&mut rest);
        assert(hop_views(hops@) =~= seq![front] + hop_views(tail));
        Self::from_hops(hops)
    }

    /// Whether the two routes have the same hops.
    pub fn same_as(&self, other: &Self) -> (r: bool)
        ensures
            r == (self@ == other@),
    {
        if self.hops.len() != other.hops.len() {
            proof {
                assert(self@.len() != other@.len());
            }
            return false;
        }
        let mut i: usize = 0;
        while i < self.hops.len()
            invariant
                i <= self.hops.len(),
                self.hops.len() == other.hops.len(),
                forall|j: int| 0 <= j < i ==> #[trigger] self@[j] == other@[j],
            decreases self.hops.len() - i,
        {
            let (a, b) = (&self.hops[i], &other.hops[i]);
            if !same_text(a.node.as_str(), b.node.as_str()) || !same_text(
                a.link.as_str(),
                b.link.as_str(),
            ) {
                proof {
                    assert(self@[i as int] == a@ && other@[i as int] == b@);
                }
                return false;
            }
            proof {
                assert(self@[i as int] == a@ && other@[i as int] == b@);
            }
            i += 1;
        }
        assert(self@ =~= other@);
        true
    }

    /// The route in its text form.
    pub fn to_string(&self) -> (r: String)
        ensures
            r@ == route_text(self@),
    {
        let mut out = String::new();
        let mut i: usize = 0;
        assert(self@.take(0) =~= Seq::<HopView>::empty());
        assert(out@ =~= Seq::<char>::empty());
        while i < self.hops.len()
            invariant
                i <= self.hops.len(),
                out@ == route_text(self@.take(i as int)),
            decreases self.hops.len() - i,
        {
            let ghost sofar = self@.take(i as int);
            let ghost next = self@.take(i + 1);
            proof {
                assert(next.drop_last() =~= sofar);
                assert(next.last() == self.hops@[i as int]@);
            }
            if i > 0 {
                out.push('/');
            }
            let ghost start = out@;
            out.append(self.hops[i].node.as_str());
            out.push('@');
            out.append(self.hops[i].link.as_str());
            assert(out@ =~= start + hop_text(next.last()));
            proof {
                if i == 0 {
                    assert(start =~= Seq::<char>::empty());
                    assert(out@ =~= hop_text(next[0]));
                }
            }
            i += 1;
        }
        assert(self@.take(i as int) =~= self@);
        out
    }

    /// Parses `node@link/node@link`. A hop without `@link` arrives on any link (`?`).
    ///
    /// # Errors
    ///
    /// Fails on the first hop with an empty node or link name, and on a route that is too deep.
    pub fn parse(s: &str) -> (r: Result<Self, RouteError>)
        ensures
            match r {
                Ok(route) => parse_text(s@) == Ok::<Seq<HopView>, RouteErrorView>(route@),
                Err(e) => parse_text(s@) == Err::<Seq<HopView>, RouteErrorView>(e@),
            },
    {
        let chars = chars_of(s);
        let parts = split_at_each(&chars, '/');
        let ghost views = crate::text::views(parts@);
        let mut hops: Vec<Hop> = Vec::new();
        let mut i: usize = 0;
        proof {
            assert(views.take(0) =~= Seq::<Seq<char>>::empty());
            assert(hop_views(hops@) =~= Seq::<HopView>::empty());
        }
        while i < parts.len()
            invariant
                i <= parts.len(),
                views == crate::text::views(parts@),
                views == crate::text::split(s@, '/'),
                hops@.len() == i,
                hops_of(views.take(i as int)) == Ok::<Seq<HopView>, Seq<char>>(hop_views(hops@)),
            decreases parts.len() - i,
        {
            let ghost next = views.take(i + 1);
            assert(next.drop_last() =~= views.take(i as int));
            assert(next.last() == parts@[i as int]@);
            match parse_hop(&parts[i]) {
                Ok(hop) => {
                    let ghost was = hops@;
                    hops.push(hop);
                    assert(hop_views(hops@) =~= hop_views(was).push(hop@));
                },
                Err(part) => {
                    let ghost found = part@;
                    proof {
                        assert(hops_of(next) == Err::<Seq<HopView>, Seq<char>>(found));
                        lemma_first_bad_part(views, (i + 1) as nat);
                    }
                    return Err(RouteError::BadHop(part));
                },
            }
            i += 1;
        }
        assert(views.take(i as int) =~= views);
        Self::from_hops(hops)
    }
}

/// A part that is not a hop is reported whatever follows it.
proof fn lemma_first_bad_part(parts: Seq<Seq<char>>, n: nat)
    requires
        n <= parts.len(),
        hops_of(parts.take(n as int)) is Err,
    ensures
        hops_of(parts) == hops_of(parts.take(n as int)),
    decreases parts.len() - n,
{
    if n == parts.len() {
        assert(parts.take(n as int) =~= parts);
    } else {
        let next = parts.take((n + 1) as int);
        assert(next.drop_last() =~= parts.take(n as int));
        lemma_first_bad_part(parts, n + 1);
    }
}

/// Reads one hop, or gives back the trimmed part that is not one.
fn parse_hop(part: &Vec<char>) -> (r: Result<Hop, String>)
    ensures
        match r {
            Ok(hop) => hop_of(part@) == Some(hop@),
            Err(bad) => hop_of(part@) is None && bad@ == crate::text::trim(part@),
        },
{
    let part = trimmed(part);
    let at = position_of(&part, '@');
    let node = slice_of(&part, 0, at);
    proof {
        assert(part@.subrange(0, at as int) =~= part@.take(at as int));
    }
    let link = if at < part.len() {
        let link = slice_of(&part, at + 1, part.len());
        assert(link@ =~= part@.skip(at + 1));
        text_of(&link)
    } else {
        names::ANY_LINK.to_owned()
    };
    if node.len() == 0 || link.as_str().is_empty() {
        Err(text_of(&part))
    } else {
        Ok(Hop { node: text_of(&node), link })
    }
}

impl core::str::FromStr for PacketRoute {
    type Err = RouteError;

    /// Parses a route's text form; see [`PacketRoute::parse`].
    fn from_str(s: &str) -> (r: Result<Self, RouteError>)
        ensures
            match r {
                Ok(route) => parse_text(s@) == Ok::<Seq<HopView>, RouteErrorView>(route@),
                Err(e) => parse_text(s@) == Err::<Seq<HopView>, RouteErrorView>(e@),
            },
    {
        Self::parse(s)
    }
}

/// A hop that its text form gives back: both names are there, neither holds a `/`, the node name
/// holds no `@`, and no whitespace stands at either end.
pub open spec fn plain_hop(hop: HopView) -> bool {
    &&& hop.node.len() > 0
    &&& hop.link.len() > 0
    &&& !hop.node.contains('/')
    &&& !hop.link.contains('/')
    &&& !hop.node.contains('@')
    &&& !is_white_at_ends(hop)
}

/// Whether the hop's text form would lose whitespace at either end.
pub open spec fn is_white_at_ends(hop: HopView) -> bool {
    crate::text::is_white(hop.node[0]) || crate::text::is_white(hop.link.last())
}

/// Splitting after a separator and a piece without one splits off just that piece.
pub proof fn lemma_split_append(a: Seq<char>, c: char, b: Seq<char>)
    requires
        !b.contains(c),
    ensures
        crate::text::split(a.push(c) + b, c) == crate::text::split(a, c).push(b),
    decreases b.len(),
{
    let whole = a.push(c) + b;
    if b.len() == 0 {
        assert(whole =~= a.push(c));
        assert(whole.drop_last() =~= a);
        assert(b =~= Seq::<char>::empty());
    } else {
        let rest = b.drop_last();
        assert(whole.drop_last() =~= a.push(c) + rest);
        assert(whole.last() == b.last());
        assert forall|x: char| rest.contains(x) implies b.contains(x) by {
            let i = choose|i: int| 0 <= i < rest.len() && rest[i] == x;
            assert(b[i] == x);
        }
        assert(b.contains(b.last()));
        lemma_split_append(a, c, rest);
        let before = crate::text::split(a, c).push(rest);
        assert(before.drop_last() =~= crate::text::split(a, c));
        assert(rest.push(b.last()) =~= b);
    }
}

/// Text without the separator is one piece.
pub proof fn lemma_split_single(b: Seq<char>, c: char)
    requires
        !b.contains(c),
    ensures
        crate::text::split(b, c) == seq![b],
    decreases b.len(),
{
    if b.len() == 0 {
        assert(b =~= Seq::<char>::empty());
    } else {
        let rest = b.drop_last();
        assert forall|x: char| rest.contains(x) implies b.contains(x) by {
            let i = choose|i: int| 0 <= i < rest.len() && rest[i] == x;
            assert(b[i] == x);
        }
        assert(b.contains(b.last()));
        lemma_split_single(rest, c);
        assert(rest.push(b.last()) =~= b);
        assert(seq![rest].drop_last() =~= Seq::<Seq<char>>::empty());
        assert(Seq::<Seq<char>>::empty().push(b) =~= seq![b]);
    }
}

/// A plain hop's text holds no `/`.
proof fn lemma_hop_text_no_slash(hop: HopView)
    requires
        plain_hop(hop),
    ensures
        !hop_text(hop).contains('/'),
{
    let t = hop_text(hop);
    if t.contains('/') {
        let i = choose|i: int| 0 <= i < t.len() && t[i] == '/';
        if i < hop.node.len() {
            assert(hop.node[i] == '/');
        } else if i > hop.node.len() {
            assert(hop.link[i - hop.node.len() - 1] == '/');
        }
    }
}

/// A plain hop's text stands for that hop.
proof fn lemma_hop_round_trip(hop: HopView)
    requires
        plain_hop(hop),
    ensures
        hop_of(hop_text(hop)) == Some(hop),
{
    let t = hop_text(hop);
    assert(t[0] == hop.node[0]);
    assert(t.last() == hop.link.last());
    assert(crate::text::trim(t) == t);
    let at = hop.node.len() as int;
    assert forall|i: int| 0 <= i < at implies t[i] != '@' by {
        assert(hop.node.contains(hop.node[i]));
    }
    crate::text::lemma_find_unique(t, '@', at);
    assert(t.take(at) =~= hop.node);
    assert(t.skip(at + 1) =~= hop.link);
}

/// The parts of a printed route stand for its hops.
proof fn lemma_parts_round_trip(hops: Seq<HopView>)
    requires
        hops.len() > 0,
        forall|i: int| 0 <= i < hops.len() ==> plain_hop(#[trigger] hops[i]),
    ensures
        hops_of(crate::text::split(route_text(hops), '/')) == Ok::<Seq<HopView>, Seq<char>>(hops),
    decreases hops.len(),
{
    let last = hops.last();
    lemma_hop_text_no_slash(last);
    lemma_hop_round_trip(last);
    if hops.len() == 1 {
        lemma_split_single(hop_text(last), '/');
        let parts = seq![hop_text(last)];
        assert(parts.drop_last() =~= Seq::<Seq<char>>::empty());
        assert(hops_of(parts.drop_last()) == Ok::<Seq<HopView>, Seq<char>>(Seq::empty()));
        assert(Seq::<HopView>::empty().push(last) =~= hops);
        assert(hops_of(parts) == Ok::<Seq<HopView>, Seq<char>>(hops));
    } else {
        let front = hops.drop_last();
        lemma_parts_round_trip(front);
        lemma_split_append(route_text(front), '/', hop_text(last));
        let parts = crate::text::split(route_text(front), '/').push(hop_text(last));
        assert(parts.drop_last() =~= crate::text::split(route_text(front), '/'));
        assert(front.push(last) =~= hops);
    }
}

/// Printing a route of plain hops and parsing the text gives the same route back.
pub proof fn law_parse_print_round_trip(hops: Seq<HopView>)
    requires
        1 <= hops.len() <= PacketRoute::MAX_DEPTH,
        forall|i: int| 0 <= i < hops.len() ==> plain_hop(#[trigger] hops[i]),
    ensures
        parse_text(route_text(hops)) == Ok::<Seq<HopView>, RouteErrorView>(hops),
{
    lemma_parts_round_trip(hops);
}

/// Adding a hop in front and popping it gives the route back.
pub proof fn law_pop_undoes_prepend(hops: Seq<HopView>, hop: HopView)
    ensures
        (seq![hop] + hops).drop_first() == hops,
        (seq![hop] + hops)[0] == hop,
{
    assert((seq![hop] + hops).drop_first() =~= hops);
}

} // verus!
