//! Lists of handles without duplicates: membership, copying and leaving members out.

use vstd::prelude::*;

use crate::ids::{LinkId, NodeId};

verus! {

/// A value that is copied freely, compared exactly, and has a place in an order.
pub trait Handle: Copy {
    /// The value's place in the order.
    spec fn place(self) -> u64;

    /// Different values have different places.
    proof fn place_is_unique(a: Self, b: Self)
        requires
            a.place() == b.place(),
        ensures
            a == b,
    ;

    /// Whether the two are the same value.
    fn same(self, other: Self) -> (r: bool)
        ensures
            r == (self == other),
    ;

    /// The value's place in the order.
    fn to_place(self) -> (r: u64)
        ensures
            r == self.place(),
    ;
}

impl Handle for NodeId {
    open spec fn place(self) -> u64 {
        self.rank()
    }

    proof fn place_is_unique(a: Self, b: Self) {
        crate::ids::lemma_node_rank_injective(a, b);
    }

    fn same(self, other: Self) -> (r: bool) {
        self == other
    }

    fn to_place(self) -> (r: u64) {
        self.to_rank()
    }
}

impl Handle for LinkId {
    open spec fn place(self) -> u64 {
        self.rank()
    }

    proof fn place_is_unique(a: Self, b: Self) {
        crate::ids::lemma_link_rank_injective(a, b);
    }

    fn same(self, other: Self) -> (r: bool) {
        self == other
    }

    fn to_place(self) -> (r: u64) {
        self.to_rank()
    }
}

/// `s` without the members of `gone`, in the same order.
pub open spec fn without<T>(s: Seq<T>, gone: Set<T>) -> Seq<T>
    decreases s.len(),
{
    if s.len() == 0 {
        s
    } else if gone.contains(s.last()) {
        without(s.drop_last(), gone)
    } else {
        without(s.drop_last(), gone).push(s.last())
    }
}

/// What is left is exactly what was there and is not gone, still without duplicates.
pub proof fn lemma_without<T>(s: Seq<T>, gone: Set<T>)
    ensures
        forall|x: T| #[trigger] without(s, gone).contains(x) <==> s.contains(x) && !gone.contains(x),
        s.no_duplicates() ==> without(s, gone).no_duplicates(),
        without(s, gone).len() <= s.len(),
    decreases s.len(),
{
    let r = without(s, gone);
    if s.len() > 0 {
        let front = s.drop_last();
        let rf = without(front, gone);
        lemma_without(front, gone);
        assert forall|x: T| #[trigger] r.contains(x) <==> s.contains(x) && !gone.contains(x) by {
            if r.contains(x) {
                let i = choose|i: int| 0 <= i < r.len() && r[i] == x;
                if i < rf.len() {
                    assert(rf.contains(x)) by {
                        assert(rf[i] == x);
                    }
                    let j = choose|j: int| 0 <= j < front.len() && front[j] == x;
                    assert(s[j] == x);
                } else {
                    assert(s[s.len() - 1] == x);
                }
            }
            if s.contains(x) && !gone.contains(x) {
                let j = choose|j: int| 0 <= j < s.len() && s[j] == x;
                if j < front.len() {
                    assert(front[j] == x);
                    assert(rf.contains(x));
                    let i = choose|i: int| 0 <= i < rf.len() && rf[i] == x;
                    assert(r[i] == x);
                } else {
                    assert(r[r.len() - 1] == x);
                }
            }
        }
        if s.no_duplicates() {
            assert(front.no_duplicates());
            if !gone.contains(s.last()) {
                assert forall|i: int, j: int| 0 <= i < r.len() && 0 <= j < r.len() && i != j implies r[i]
                    != r[j] by {
                    if i == r.len() - 1 {
                        assert(rf.contains(rf[j]));
                        let k = choose|k: int| 0 <= k < front.len() && front[k] == rf[j];
                        assert(s[k] == rf[j]);
                    } else if j == r.len() - 1 {
                        assert(rf.contains(rf[i]));
                        let k = choose|k: int| 0 <= k < front.len() && front[k] == rf[i];
                        assert(s[k] == rf[i]);
                    }
                }
            }
        }
    }
}

/// Whether `part` is `all` with some members left out: `places` says where its members are in it.
pub open spec fn picks<T>(part: Seq<T>, all: Seq<T>, places: Seq<int>) -> bool {
    &&& places.len() == part.len()
    &&& forall|i: int|
        0 <= i < places.len() ==> 0 <= #[trigger] places[i] < all.len() && all[places[i]] == part[i]
    &&& forall|i: int, j: int|
        0 <= i < j < places.len() ==> #[trigger] places[i] < #[trigger] places[j]
}

/// Whether the members of `part` are in `all`, and in the same order there.
pub open spec fn in_same_order<T>(part: Seq<T>, all: Seq<T>) -> bool {
    exists|places: Seq<int>| picks(part, all, places)
}

/// What is left keeps its order.
pub proof fn lemma_without_in_order<T>(s: Seq<T>, gone: Set<T>)
    ensures
        in_same_order(without(s, gone), s),
    decreases s.len(),
{
    if s.len() == 0 {
        assert(picks(without(s, gone), s, Seq::empty()));
    } else {
        let front = s.drop_last();
        lemma_without_in_order(front, gone);
        let places = choose|places: Seq<int>| picks(without(front, gone), front, places);
        if gone.contains(s.last()) {
            assert(picks(without(s, gone), s, places));
        } else {
            assert(picks(without(s, gone), s, places.push(s.len() - 1)));
        }
    }
}

/// Leaving out what is not there changes nothing.
pub proof fn lemma_without_none<T>(s: Seq<T>, gone: Set<T>)
    requires
        forall|x: T| s.contains(x) ==> !gone.contains(x),
    ensures
        without(s, gone) == s,
    decreases s.len(),
{
    if s.len() > 0 {
        assert(s.contains(s.last()));
        assert forall|x: T| s.drop_last().contains(x) implies !gone.contains(x) by {
            let i = choose|i: int| 0 <= i < s.drop_last().len() && s.drop_last()[i] == x;
            assert(s[i] == x);
            assert(s.contains(x));
        }
        lemma_without_none(s.drop_last(), gone);
        assert(s.drop_last().push(s.last()) =~= s);
    }
}

/// Leaving out a member that was just added at the end gives the list back.
pub proof fn lemma_without_push<T>(s: Seq<T>, x: T)
    requires
        !s.contains(x),
    ensures
        without(s.push(x), set![x]) == s,
{
    assert(s.push(x).drop_last() =~= s);
    assert forall|y: T| s.contains(y) implies !set![x].contains(y) by {}
    lemma_without_none(s, set![x]);
}

/// A list that has `x` added keeps its members and gains `x`.
pub proof fn lemma_push_contains<T>(s: Seq<T>, x: T)
    ensures
        forall|y: T| #[trigger] s.push(x).contains(y) <==> s.contains(y) || y == x,
        s.no_duplicates() && !s.contains(x) ==> s.push(x).no_duplicates(),
{
    assert forall|y: T| #[trigger] s.push(x).contains(y) <==> s.contains(y) || y == x by {
        if s.push(x).contains(y) {
            let i = choose|i: int| 0 <= i < s.push(x).len() && s.push(x)[i] == y;
            if i < s.len() {
                assert(s[i] == y);
            }
        }
        if s.contains(y) {
            let i = choose|i: int| 0 <= i < s.len() && s[i] == y;
            assert(s.push(x)[i] == y);
        }
        if y == x {
            assert(s.push(x)[s.len() as int] == x);
        }
    }
    if s.no_duplicates() && !s.contains(x) {
        assert forall|i: int, j: int|
            0 <= i < s.push(x).len() && 0 <= j < s.push(x).len() && i != j implies s.push(x)[i]
            != s.push(x)[j] by {
            if i == s.len() {
                assert(s.contains(s[j]));
            } else if j == s.len() {
                assert(s.contains(s[i]));
            }
        }
    }
}

/// Whether `x` is in the list.
pub fn holds<T: Handle>(list: &Vec<T>, x: T) -> (r: bool)
    ensures
        r == list@.contains(x),
{
    let mut i: usize = 0;
    while i < list.len()
        invariant
            i <= list.len(),
            forall|j: int| 0 <= j < i ==> list@[j] != x,
        decreases list.len() - i,
    {
        if list[i].same(x) {
            return true;
        }
        i += 1;
    }
    false
}

/// The list without the members of `gone`.
pub fn leaving_out<T: Handle>(list: &Vec<T>, gone: &Vec<T>) -> (r: Vec<T>)
    ensures
        r@ == without(list@, gone@.to_set()),
{
    let mut out: Vec<T> = Vec::new();
    let mut i: usize = 0;
    while i < list.len()
        invariant
            i <= list.len(),
            out@ == without(list@.take(i as int), gone@.to_set()),
        decreases list.len() - i,
    {
        let x: T = list[i];
        assert(list@.take(i + 1).drop_last() =~= list@.take(i as int));
        if !holds(gone, x) {
            out.push(x);
        }
        i += 1;
    }
    assert(list@.take(i as int) =~= list@);
    out
}

/// The list without `x`.
pub fn leaving_out_one<T: Handle>(list: &Vec<T>, x: T) -> (r: Vec<T>)
    ensures
        r@ == without(list@, set![x]),
{
    let mut out: Vec<T> = Vec::new();
    let mut i: usize = 0;
    while i < list.len()
        invariant
            i <= list.len(),
            out@ == without(list@.take(i as int), set![x]),
        decreases list.len() - i,
    {
        let y: T = list[i];
        assert(list@.take(i + 1).drop_last() =~= list@.take(i as int));
        if !y.same(x) {
            out.push(y);
        }
        i += 1;
    }
    assert(list@.take(i as int) =~= list@);
    out
}

/// A copy of the list.
pub fn copied<T: Handle>(list: &[T]) -> (r: Vec<T>)
    ensures
        r@ == list@,
{
    let mut out: Vec<T> = Vec::new();
    let mut i: usize = 0;
    while i < list.len()
        invariant
            i <= list.len(),
            out@ == list@.take(i as int),
        decreases list.len() - i,
    {
        out.push(list[i]);
        i += 1;
        assert(list@.take(i as int) =~= list@.take(i - 1).push(list@[i - 1]));
    }
    assert(list@.take(i as int) =~= list@);
    out
}

/// `s`, which is in order, with `x` put in its place unless it is there already.
pub open spec fn placed<T: Handle>(s: Seq<T>, x: T) -> Seq<T>
    decreases s.len(),
{
    if s.len() == 0 || s.last().place() < x.place() {
        s.push(x)
    } else if s.last().place() == x.place() {
        s
    } else {
        placed(s.drop_last(), x).push(s.last())
    }
}

/// The members of `s` in order, each once.
pub open spec fn in_order<T: Handle>(s: Seq<T>) -> Seq<T>
    decreases s.len(),
{
    if s.len() == 0 {
        s
    } else {
        placed(in_order(s.drop_last()), s.last())
    }
}

/// Puts `x` in its place in an ordered list, unless it is there already.
pub fn place_in<T: Handle>(list: &mut Vec<T>, x: T)
    ensures
        final(list)@ == placed(old(list)@, x),
{
    let mut i: usize = list.len();
    let ghost all = list@;
    assert(all.take(i as int) =~= all);
    assert(all.skip(i as int) =~= Seq::<T>::empty());
    assert(placed(all, x) =~= placed(all.take(i as int), x) + all.skip(i as int));
    while i > 0 && list[i - 1].to_place() > x.to_place()
        invariant
            i <= list.len(),
            list@ == all,
            placed(all, x) == placed(all.take(i as int), x) + all.skip(i as int),
        decreases i,
    {
        proof {
            let front = all.take(i as int);
            assert(front.drop_last() =~= all.take(i - 1));
            assert(placed(front, x) == placed(all.take(i - 1), x).push(all[i - 1]));
            assert(all.skip(i - 1) =~= seq![all[i - 1]] + all.skip(i as int));
            assert(placed(all.take(i - 1), x).push(all[i - 1]) + all.skip(i as int) =~= placed(
                all.take(i - 1),
                x,
            ) + all.skip(i - 1));
        }
        i -= 1;
    }
    let ghost front = all.take(i as int);
    assert(front + all.skip(i as int) =~= all);
    if i > 0 && list[i - 1].to_place() == x.to_place() {
        assert(front.last() == all[i - 1]);
        assert(placed(front, x) == front);
    } else {
        proof {
            if i > 0 {
                assert(front.last() == all[i - 1]);
            }
            assert(placed(front, x) == front.push(x));
        }
        list.insert(i, x);
        assert(list@ =~= front.push(x) + all.skip(i as int));
    }
}

/// The members of `list` in order, each once.
pub fn ordered<T: Handle>(list: &Vec<T>) -> (r: Vec<T>)
    ensures
        r@ == in_order(list@),
{
    let mut out: Vec<T> = Vec::new();
    let mut i: usize = 0;
    assert(out@ =~= in_order(list@.take(0)));
    while i < list.len()
        invariant
            i <= list.len(),
            out@ == in_order(list@.take(i as int)),
        decreases list.len() - i,
    {
        assert(list@.take(i + 1).drop_last() =~= list@.take(i as int));
        place_in(&mut out, list[i]);
        i += 1;
    }
    assert(list@.take(i as int) =~= list@);
    out
}

/// Whether the places go up along the list.
pub open spec fn ascending<T: Handle>(s: Seq<T>) -> bool {
    forall|i: int, j: int| 0 <= i < j < s.len() ==> (#[trigger] s[i]).place() < (#[trigger] s[
        j
    ]).place()
}

/// Putting a value in its place keeps the order and adds just that value.
pub proof fn lemma_placed<T: Handle>(s: Seq<T>, x: T)
    requires
        ascending(s),
    ensures
        ascending(placed(s, x)),
        forall|y: T| #[trigger] placed(s, x).contains(y) <==> s.contains(y) || y == x,
    decreases s.len(),
{
    let r = placed(s, x);
    if s.len() == 0 || s.last().place() < x.place() {
        lemma_push_contains(s, x);
        assert forall|i: int, j: int| 0 <= i < j < r.len() implies (#[trigger] r[i]).place() < (
        #[trigger] r[j]).place() by {
            if j == s.len() && i < s.len() - 1 {
                assert(s[i].place() < s[s.len() - 1].place());
            }
        }
    } else if s.last().place() == x.place() {
        T::place_is_unique(s.last(), x);
        assert(s.contains(s.last()));
    } else {
        let front = s.drop_last();
        assert(ascending(front));
        lemma_placed(front, x);
        let pf = placed(front, x);
        lemma_push_contains(pf, s.last());
        lemma_push_contains(front, s.last());
        assert(front.push(s.last()) =~= s);
        assert forall|i: int, j: int| 0 <= i < j < r.len() implies (#[trigger] r[i]).place() < (
        #[trigger] r[j]).place() by {
            if j == pf.len() {
                assert(pf.contains(pf[i]));
                if front.contains(pf[i]) {
                    let k = choose|k: int| 0 <= k < front.len() && front[k] == pf[i];
                    assert(s[k].place() < s[s.len() - 1].place());
                }
            } else {
                assert(pf[i].place() < pf[j].place());
            }
        }
    }
}

/// The ordered list is in order and has the same members.
pub proof fn lemma_in_order<T: Handle>(s: Seq<T>)
    ensures
        ascending(in_order(s)),
        forall|y: T| #[trigger] in_order(s).contains(y) <==> s.contains(y),
    decreases s.len(),
{
    if s.len() > 0 {
        lemma_in_order(s.drop_last());
        lemma_placed(in_order(s.drop_last()), s.last());
        lemma_push_contains(s.drop_last(), s.last());
        assert(s.drop_last().push(s.last()) =~= s);
    }
}

} // verus!
