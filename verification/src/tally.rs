//! Counting by handle.

use vstd::prelude::*;

use crate::lists::Handle;

verus! {

/// `s`, which is in order, with one more counted for `x`.
pub open spec fn counted<T: Handle>(s: Seq<(T, u64)>, x: T) -> Seq<(T, u64)>
    decreases s.len(),
{
    if s.len() == 0 || s.last().0.place() < x.place() {
        s.push((x, 1))
    } else if s.last().0.place() == x.place() {
        s.drop_last().push((s.last().0, crate::trace::bump(s.last().1)))
    } else {
        counted(s.drop_last(), x).push(s.last())
    }
}

/// How many were counted for `x`.
pub open spec fn count_of<T: Handle>(s: Seq<(T, u64)>, x: T) -> u64
    decreases s.len(),
{
    if s.len() == 0 {
        0
    } else if s.last().0 == x {
        s.last().1
    } else {
        count_of(s.drop_last(), x)
    }
}

/// Whether the counts are in order of their handles, each handle once.
pub open spec fn in_places<T: Handle>(s: Seq<(T, u64)>) -> bool {
    forall|i: int, j: int| 0 <= i < j < s.len() ==> (#[trigger] s[i]).0.place() < (#[trigger] s[
        j
    ]).0.place()
}

/// Where the highest count is; the first such place.
pub open spec fn busiest<T>(s: Seq<(T, u64)>) -> int
    decreases s.len(),
{
    if s.len() <= 1 {
        0
    } else {
        let b = busiest(s.drop_last());
        if s.last().1 > s[b].1 {
            s.len() - 1
        } else {
            b
        }
    }
}

/// The `n` highest counts, highest first; equal counts in the order they stand in.
pub open spec fn top<T>(s: Seq<(T, u64)>, n: nat) -> Seq<(T, u64)>
    decreases n,
{
    if n == 0 || s.len() == 0 {
        Seq::empty()
    } else {
        seq![s[busiest(s)]] + top(s.remove(busiest(s)), (n - 1) as nat)
    }
}

/// `busiest` is a place in the list, no count is higher than the one there, and none before it is
/// as high.
pub proof fn lemma_busiest<T>(s: Seq<(T, u64)>)
    requires
        s.len() > 0,
    ensures
        0 <= busiest(s) < s.len(),
        forall|i: int| 0 <= i < s.len() ==> (#[trigger] s[i]).1 <= s[busiest(s)].1,
        forall|i: int| 0 <= i < busiest(s) ==> (#[trigger] s[i]).1 < s[busiest(s)].1,
    decreases s.len(),
{
    if s.len() > 1 {
        let front = s.drop_last();
        lemma_busiest(front);
        let b = busiest(front);
        assert(front[b] == s[b]);
        assert forall|i: int| 0 <= i < s.len() implies (#[trigger] s[i]).1 <= s[busiest(s)].1 by {
            if i < front.len() {
                assert(front[i] == s[i]);
            }
        }
        assert forall|i: int| 0 <= i < busiest(s) implies (#[trigger] s[i]).1 < s[busiest(s)].1 by {
            assert(front[i] == s[i]);
        }
    }
}

/// Counts by handle, kept in the handles' order.
#[derive(Debug)]
pub struct Tally<T> {
    counts: Vec<(T, u64)>,
}

impl<T> View for Tally<T> {
    type V = Seq<(T, u64)>;

    closed spec fn view(&self) -> Seq<(T, u64)> {
        self.counts@
    }
}

impl<T: Handle> Tally<T> {
    /// Nothing counted yet.
    pub fn new() -> (r: Self)
        ensures
            r@ == Seq::<(T, u64)>::empty(),
    {
        Tally { counts: Vec::new() }
    }

    /// How many handles have a count.
    pub fn len(&self) -> (r: usize)
        ensures
            r == self@.len(),
    {
        self.counts.len()
    }

    /// The count at place `i` of the order.
    pub fn at(&self, i: usize) -> (r: (T, u64))
        requires
            i < self@.len(),
        ensures
            r == self@[i as int],
    {
        self.counts[i]
    }

    /// Counts one more for `x`.
    pub fn count(&mut self, x: T)
        ensures
            final(self)@ == counted(old(self)@, x),
    {
        let mut i: usize = self.counts.len();
        let ghost all = self.counts@;
        assert(all.take(i as int) =~= all);
        assert(all.skip(i as int) =~= Seq::<(T, u64)>::empty());
        assert(counted(all, x) =~= counted(all.take(i as int), x) + all.skip(i as int));
        while i > 0 && self.counts[i - 1].0.to_place() > x.to_place()
            invariant
                i <= self.counts.len(),
                self.counts@ == all,
                counted(all, x) == counted(all.take(i as int), x) + all.skip(i as int),
            decreases i,
        {
            proof {
                let front = all.take(i as int);
                assert(front.drop_last() =~= all.take(i - 1));
                assert(counted(front, x) == counted(all.take(i - 1), x).push(all[i - 1]));
                assert(all.skip(i - 1) =~= seq![all[i - 1]] + all.skip(i as int));
                assert(counted(all.take(i - 1), x).push(all[i - 1]) + all.skip(i as int) =~= counted(
                    all.take(i - 1),
                    x,
                ) + all.skip(i - 1));
            }
            i -= 1;
        }
        let ghost front = all.take(i as int);
        if i > 0 && self.counts[i - 1].0.to_place() == x.to_place() {
            let (key, n) = self.counts[i - 1];
            let more: u64 = n.saturating_add(1);
            self.counts.set(i - 1, (key, more));
            proof {
                assert(front.last() == all[i - 1]);
                assert(counted(front, x) == front.drop_last().push((key, more)));
                assert(self.counts@ =~= front.drop_last().push((key, more)) + all.skip(i as int));
            }
        } else {
            proof {
                if i > 0 {
                    assert(front.last() == all[i - 1]);
                }
                assert(counted(front, x) == front.push((x, 1u64)));
            }
            self.counts.insert(i, (x, 1));
            assert(self.counts@ =~= front.push((x, 1u64)) + all.skip(i as int));
        }
    }

    /// Forgets every count.
    pub fn clear(&mut self)
        ensures
            final(self)@ == Seq::<(T, u64)>::empty(),
    {
        self.counts.clear();
    }

    /// The `n` highest counts, highest first; equal counts in the order of their handles.
    pub fn highest(&self, n: usize) -> (r: Vec<(T, u64)>)
        ensures
            r@ == top(self@, n as nat),
    {
        let mut left: Vec<(T, u64)> = Vec::new();
        let mut i: usize = 0;
        while i < self.counts.len()
            invariant
                i <= self.counts.len(),
                left@ == self.counts@.take(i as int),
            decreases self.counts.len() - i,
        {
            left.push(self.counts[i]);
            i += 1;
            assert(self.counts@.take(i as int) =~= self.counts@.take(i - 1).push(
                self.counts@[i - 1],
            ));
        }
        assert(left@ =~= self.counts@);
        let mut out: Vec<(T, u64)> = Vec::new();
        let mut more: usize = n;
        assert(out@ + top(left@, more as nat) =~= top(self@, n as nat));
        while more > 0 && left.len() > 0
            invariant
                out@ + top(left@, more as nat) == top(self@, n as nat),
            decreases more,
        {
            let at = Self::busiest_of(&left);
            let ghost was = left@;
            let ghost done = out@;
            proof {
                lemma_busiest(was);
            }
            let next = left.remove(at);
            out.push(next);
            more -= 1;
            assert(out@ + top(left@, more as nat) =~= done + top(was, (more + 1) as nat));
        }
        assert(top(left@, more as nat) =~= Seq::<(T, u64)>::empty());
        assert(out@ =~= top(self@, n as nat));
        out
    }

    fn busiest_of(counts: &Vec<(T, u64)>) -> (r: usize)
        requires
            counts@.len() > 0,
        ensures
            r == busiest(counts@),
            r < counts@.len(),
    {
        let mut best: usize = 0;
        let mut i: usize = 1;
        assert(busiest(counts@.take(1)) == 0);
        while i < counts.len()
            invariant
                1 <= i <= counts.len(),
                best < i,
                best == busiest(counts@.take(i as int)),
            decreases counts.len() - i,
        {
            assert(counts@.take(i + 1).drop_last() =~= counts@.take(i as int));
            if counts[i].1 > counts[best].1 {
                best = i;
            }
            i += 1;
        }
        assert(counts@.take(i as int) =~= counts@);
        best
    }
}

/// Counting keeps the order, and changes the count of just the handle counted.
pub proof fn lemma_counted<T: Handle>(s: Seq<(T, u64)>, x: T)
    requires
        in_places(s),
    ensures
        in_places(counted(s, x)),
        forall|y: T| #[trigger]
            count_of(counted(s, x), y) == (if y == x {
                crate::trace::bump(count_of(s, y))
            } else {
                count_of(s, y)
            }),
    decreases s.len(),
{
    let r = counted(s, x);
    if s.len() == 0 || s.last().0.place() < x.place() {
        lemma_absent(s, x);
        assert(r.drop_last() =~= s);
        assert(r.last() == (x, 1u64));
        assert forall|i: int, j: int| 0 <= i < j < r.len() implies (#[trigger] r[i]).0.place() < (
        #[trigger] r[j]).0.place() by {
            if j == s.len() && i < s.len() - 1 {
                assert(s[i].0.place() < s[s.len() - 1].0.place());
            }
        }
    } else if s.last().0.place() == x.place() {
        T::place_is_unique(s.last().0, x);
        assert(r.drop_last() =~= s.drop_last());
        assert(r.last() == (s.last().0, crate::trace::bump(s.last().1)));
        assert forall|i: int, j: int| 0 <= i < j < r.len() implies (#[trigger] r[i]).0.place() < (
        #[trigger] r[j]).0.place() by {
            assert(s[i].0.place() < s[j].0.place());
        }
    } else {
        let front = s.drop_last();
        assert(in_places(front)) by {
            assert forall|i: int, j: int| 0 <= i < j < front.len() implies (
            #[trigger] front[i]).0.place() < (#[trigger] front[j]).0.place() by {
                assert(s[i].0.place() < s[j].0.place());
            }
        }
        lemma_counted(front, x);
        assert forall|i: int| 0 <= i < front.len() implies (#[trigger] front[i]).0.place()
            < s.last().0.place() by {
            assert(s[i].0.place() < s[s.len() - 1].0.place());
        }
        lemma_counted_below(front, x, s.last().0.place());
        assert(r.drop_last() =~= counted(front, x));
        assert forall|y: T| #[trigger] count_of(r, y) == (if y == x {
            crate::trace::bump(count_of(s, y))
        } else {
            count_of(s, y)
        }) by {
            assert(count_of(counted(front, x), y) == (if y == x {
                crate::trace::bump(count_of(front, y))
            } else {
                count_of(front, y)
            }));
        }
        assert forall|i: int, j: int| 0 <= i < j < r.len() implies (#[trigger] r[i]).0.place() < (
        #[trigger] r[j]).0.place() by {
            if j < r.len() - 1 {
                assert(counted(front, x)[i].0.place() < counted(front, x)[j].0.place());
            }
        }
    }
}

proof fn lemma_absent<T: Handle>(s: Seq<(T, u64)>, x: T)
    requires
        in_places(s),
        s.len() > 0 ==> s.last().0.place() < x.place(),
    ensures
        count_of(s, x) == 0,
    decreases s.len(),
{
    if s.len() > 0 {
        let front = s.drop_last();
        assert(in_places(front)) by {
            assert forall|i: int, j: int| 0 <= i < j < front.len() implies (
            #[trigger] front[i]).0.place() < (#[trigger] front[j]).0.place() by {
                assert(s[i].0.place() < s[j].0.place());
            }
        }
        if front.len() > 0 {
            assert(s[front.len() - 1].0.place() < s[s.len() - 1].0.place());
        }
        lemma_absent(front, x);
    }
}

proof fn lemma_counted_below<T: Handle>(s: Seq<(T, u64)>, x: T, bound: u64)
    requires
        in_places(s),
        x.place() < bound,
        forall|i: int| 0 <= i < s.len() ==> (#[trigger] s[i]).0.place() < bound,
    ensures
        forall|i: int| 0 <= i < counted(s, x).len() ==> (#[trigger] counted(s, x)[i]).0.place()
            < bound,
    decreases s.len(),
{
    if s.len() > 0 && s.last().0.place() > x.place() {
        let front = s.drop_last();
        assert(in_places(front)) by {
            assert forall|i: int, j: int| 0 <= i < j < front.len() implies (
            #[trigger] front[i]).0.place() < (#[trigger] front[j]).0.place() by {
                assert(s[i].0.place() < s[j].0.place());
            }
        }
        lemma_counted_below(front, x, bound);
        let r = counted(s, x);
        assert forall|i: int| 0 <= i < r.len() implies (#[trigger] r[i]).0.place() < bound by {
            if i < r.len() - 1 {
                assert(counted(front, x)[i].0.place() < bound);
            } else {
                assert(s[s.len() - 1].0.place() < bound);
            }
        }
    } else {
        let r = counted(s, x);
        assert forall|i: int| 0 <= i < r.len() implies (#[trigger] r[i]).0.place() < bound by {
            if i < s.len() {
                assert(s[i].0.place() < bound);
            }
        }
    }
}

} // verus!
