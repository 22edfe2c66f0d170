//! What holds of the text that the crate reads and writes.

use vstd::prelude::*;

use crate::route::{HopView, RouteErrorView};

verus! {

/// What the digits stand for.
pub open spec fn number_of(digits: Seq<char>) -> int
    decreases digits.len(),
{
    if digits.len() == 0 {
        0
    } else {
        number_of(digits.drop_last()) * 10 + (digits.last() as int - '0' as int)
    }
}

/// A number is written in digits, with no zero in front unless it is zero, and they stand for it.
pub proof fn law_numbers_are_written_in_decimal(n: nat)
    ensures
        ({
            let digits = crate::text::decimal_text(n);
            &&& number_of(digits) == n
            &&& digits.len() > 0
            &&& forall|i: int| 0 <= i < digits.len() ==> '0' <= #[trigger] digits[i] <= '9'
            &&& digits.len() > 1 ==> digits[0] != '0'
            &&& n > 0 ==> digits[0] != '0'
        }),
    decreases n,
{
    let digits = crate::text::decimal_text(n);
    if n >= 10 {
        law_numbers_are_written_in_decimal(n / 10);
        let front = crate::text::decimal_text(n / 10);
        assert(digits.drop_last() =~= front);
        assert(digits.last() == crate::text::digit_char(n % 10));
        assert(digits[0] == front[0]);
        assert forall|i: int| 0 <= i < digits.len() implies '0' <= #[trigger] digits[i] <= '9' by {
            if i < front.len() {
                assert(front[i] == digits[i]);
            }
        }
    } else {
        assert(digits.drop_last() =~= Seq::<char>::empty());
        assert(number_of(digits.drop_last()) == 0);
        assert(digits.last() == crate::text::digit_char(n));
    }
}

/// Taking the whitespace off a text takes off just that: what is left neither begins nor ends with
/// whitespace, and all that went in front and behind was whitespace.
pub proof fn law_trimming_takes_whitespace_off(s: Seq<char>) -> (r: (int, int))
    ensures
        ({
            let t = crate::text::trim(s);
            &&& 0 <= r.0 <= r.1 <= s.len()
            &&& t == s.subrange(r.0, r.1)
            &&& forall|i: int|
                0 <= i < r.0 || r.1 <= i < s.len() ==> crate::text::is_white(#[trigger] s[i])
            &&& t.len() > 0 ==> !crate::text::is_white(t[0]) && !crate::text::is_white(t.last())
        }),
{
    let lo = lemma_trim_start(s);
    let rest = crate::text::trim_start(s);
    let n = lemma_trim_end(rest);
    let hi = lo + n;
    assert(crate::text::trim(s) =~= s.subrange(lo, hi));
    assert forall|i: int| 0 <= i < lo || hi <= i < s.len() implies crate::text::is_white(
        #[trigger] s[i],
    ) by {
        if i >= hi {
            assert(rest[i - lo] == s[i]);
        }
    }
    let t = crate::text::trim(s);
    if t.len() > 0 {
        assert(t[0] == rest[0]);
    }
    (lo, hi)
}

proof fn lemma_trim_start(s: Seq<char>) -> (lo: int)
    ensures
        0 <= lo <= s.len(),
        crate::text::trim_start(s) == s.skip(lo),
        forall|i: int| 0 <= i < lo ==> crate::text::is_white(#[trigger] s[i]),
        lo < s.len() ==> !crate::text::is_white(s[lo]),
    decreases s.len(),
{
    if s.len() > 0 && crate::text::is_white(s[0]) {
        let rest = s.drop_first();
        let lo = lemma_trim_start(rest);
        assert(rest.skip(lo) =~= s.skip(lo + 1));
        assert forall|i: int| 0 <= i < lo + 1 implies crate::text::is_white(#[trigger] s[i]) by {
            if i > 0 {
                assert(rest[i - 1] == s[i]);
            }
        }
        lo + 1
    } else {
        assert(s.skip(0) =~= s);
        0
    }
}

proof fn lemma_trim_end(s: Seq<char>) -> (n: int)
    ensures
        0 <= n <= s.len(),
        crate::text::trim_end(s) == s.take(n),
        forall|i: int| n <= i < s.len() ==> crate::text::is_white(#[trigger] s[i]),
        n > 0 ==> !crate::text::is_white(s[n - 1]),
    decreases s.len(),
{
    if s.len() > 0 && crate::text::is_white(s.last()) {
        let rest = s.drop_last();
        let n = lemma_trim_end(rest);
        assert(rest.take(n) =~= s.take(n));
        assert forall|i: int| n <= i < s.len() implies crate::text::is_white(#[trigger] s[i]) by {
            if i < rest.len() {
                assert(rest[i] == s[i]);
            }
        }
        n
    } else {
        assert(s.take(s.len() as int) =~= s);
        s.len() as int
    }
}

/// Whitespace counts for nothing around a text that has none at its ends.
proof fn lemma_trim_around(a: Seq<char>, s: Seq<char>, b: Seq<char>)
    requires
        forall|i: int| 0 <= i < a.len() ==> crate::text::is_white(#[trigger] a[i]),
        forall|i: int| 0 <= i < b.len() ==> crate::text::is_white(#[trigger] b[i]),
        s.len() > 0 ==> !crate::text::is_white(s[0]) && !crate::text::is_white(s.last()),
    ensures
        crate::text::trim(a + s + b) == s,
{
    let whole = a + s + b;
    let r = law_trimming_takes_whitespace_off(whole);
    let (lo, hi) = r;
    let t = crate::text::trim(whole);
    if s.len() == 0 {
        if t.len() > 0 {
            assert(t[0] == whole[lo]);
            if lo < a.len() {
                assert(whole[lo] == a[lo]);
            } else {
                assert(whole[lo] == b[lo - a.len()]);
            }
        }
        assert(t =~= s);
    } else {
        let (p, q) = (a.len() as int, a.len() as int + s.len() as int);
        assert(whole[p] == s[0] && whole[q - 1] == s.last());
        assert(lo <= p && hi >= q);
        assert(t[0] == whole[lo] && t.last() == whole[hi - 1]);
        if lo < p {
            assert(whole[lo] == a[lo]);
        }
        if hi > q {
            assert(whole[hi - 1] == b[hi - 1 - q]);
        }
        assert(t =~= s);
    }
}

/// Splitting a text at a character and putting the character between the pieces gives the text
/// back, and no piece holds the character.
pub proof fn law_split_pieces_make_the_text(s: Seq<char>, c: char)
    ensures
        crate::text::join_text(crate::text::split(s, c), seq![c]) == s,
        forall|i: int|
            0 <= i < crate::text::split(s, c).len() ==> !(#[trigger] crate::text::split(
                s,
                c,
            )[i]).contains(c),
    decreases s.len(),
{
    let parts = crate::text::split(s, c);
    crate::text::lemma_split_nonempty(s, c);
    if s.len() == 0 {
        assert(crate::text::join_text(parts, seq![c]) =~= s);
    } else {
        let rest = s.drop_last();
        law_split_pieces_make_the_text(rest, c);
        crate::text::lemma_split_nonempty(rest, c);
        let before = crate::text::split(rest, c);
        let x = s.last();
        assert forall|i: int| 0 <= i < parts.len() implies !(#[trigger] parts[i]).contains(c) by {
            if i < parts.len() - 1 {
                assert(parts[i] == before[i]);
            } else if x != c {
                assert(!before[before.len() - 1].contains(c));
                crate::lists::lemma_push_contains(before.last(), x);
            }
        }
        if x == c {
            assert(parts.drop_last() =~= before);
            assert(crate::text::join_text(parts, seq![c]) =~= rest + seq![c]
                + Seq::<char>::empty());
            assert(rest + seq![c] + Seq::<char>::empty() =~= s);
        } else {
            let last = before.last();
            assert(parts.drop_last() =~= before.drop_last());
            assert(parts.last() == last.push(x));
            if before.len() == 1 {
                assert(parts[0] == last.push(x));
                assert(rest == before[0]);
                assert(last.push(x) =~= s);
            } else {
                let front = crate::text::join_text(before.drop_last(), seq![c]);
                assert(rest == front + seq![c] + last);
                assert(s =~= rest.push(x));
                assert(front + seq![c] + last.push(x) =~= (front + seq![c] + last).push(x));
            }
        }
    }
}

/// How a hop is read: `node@link` is that node on that link, a name by itself is that node on
/// whichever link the packet is on, and whitespace around either counts for nothing. Without a
/// node or without a link after `@` it is no hop.
pub proof fn law_hops_are_read(
    before: Seq<char>,
    node: Seq<char>,
    link: Seq<char>,
    after: Seq<char>,
)
    requires
        !node.contains('@'),
        !node.contains('/'),
        !link.contains('/'),
        !before.contains('/'),
        !after.contains('/'),
        forall|i: int| 0 <= i < before.len() ==> crate::text::is_white(#[trigger] before[i]),
        forall|i: int| 0 <= i < after.len() ==> crate::text::is_white(#[trigger] after[i]),
        node.len() > 0 ==> !crate::text::is_white(node[0]) && !crate::text::is_white(node.last()),
        link.len() > 0 ==> !crate::text::is_white(link[0]) && !crate::text::is_white(link.last()),
    ensures
        ({
            let whole = before + (node.push('@') + link) + after;
            let short = before + node + after;
            &&& node.len() > 0 && link.len() > 0 ==> crate::route::parse_text(whole) == Ok::<
                Seq<HopView>,
                RouteErrorView,
            >(seq![HopView { node, link }])
            &&& node.len() == 0 || link.len() == 0 ==> crate::route::parse_text(whole) == Err::<
                Seq<HopView>,
                RouteErrorView,
            >(RouteErrorView::BadHop(node.push('@') + link))
            &&& node.len() > 0 ==> crate::route::parse_text(short) == Ok::<
                Seq<HopView>,
                RouteErrorView,
            >(seq![HopView { node, link: "?"@ }])
            &&& node.len() == 0 ==> crate::route::parse_text(short) == Err::<
                Seq<HopView>,
                RouteErrorView,
            >(RouteErrorView::BadHop(Seq::empty()))
        }),
{
    let body = node.push('@') + link;
    let whole = before + body + after;
    let short = before + node + after;
    assert('@' as u32 == 0x40);
    assert(!crate::text::is_white('@'));
    assert(body[node.len() as int] == '@');
    assert(body.last() == (if link.len() > 0 {
        link.last()
    } else {
        '@'
    }));
    assert(body[0] == (if node.len() > 0 {
        node[0]
    } else {
        '@'
    }));
    lemma_trim_around(before, body, after);
    lemma_trim_around(before, node, after);
    assert(!body.contains('/')) by {
        if body.contains('/') {
            let i = choose|i: int| 0 <= i < body.len() && body[i] == '/';
            if i < node.len() {
                assert(node[i] == '/');
            } else if i > node.len() {
                assert(link[i - node.len() - 1] == '/');
            }
        }
    }
    lemma_no_slash(before, body, after);
    lemma_no_slash(before, node, after);
    crate::route::lemma_split_single(whole, '/');
    crate::route::lemma_split_single(short, '/');
    assert forall|i: int| 0 <= i < node.len() implies body[i] != '@' && node[i] != '@' by {
        assert(node.contains(node[i]));
        assert(body[i] == node[i]);
    }
    crate::text::lemma_find_unique(body, '@', node.len() as int);
    crate::text::lemma_find_unique(node, '@', node.len() as int);
    assert(body.take(node.len() as int) =~= node);
    assert(body.skip(node.len() as int + 1) =~= link);
    assert(node.take(node.len() as int) =~= node);
    assert(seq![whole].drop_last() =~= Seq::<Seq<char>>::empty());
    assert(seq![short].drop_last() =~= Seq::<Seq<char>>::empty());
    assert(crate::route::hops_of(Seq::<Seq<char>>::empty()) == Ok::<Seq<HopView>, Seq<char>>(
        Seq::<HopView>::empty(),
    ));
    assert(seq![whole].last() == whole && seq![short].last() == short);
    assert(crate::route::hop_of(whole) == (if node.len() > 0 && link.len() > 0 {
        Some(HopView { node, link })
    } else {
        None
    }));
    assert("?"@.len() > 0) by {
        reveal_strlit("?");
    }
    assert(crate::route::hop_of(short) == (if node.len() > 0 {
        Some(HopView { node, link: "?"@ })
    } else {
        None
    }));
    if node.len() == 0 {
        assert(node =~= Seq::<char>::empty());
    }
    assert(Seq::<HopView>::empty().push(HopView { node, link }) =~= seq![HopView { node, link }]);
    assert(Seq::<HopView>::empty().push(HopView { node, link: "?"@ }) =~= seq![
        HopView { node, link: "?"@ },
    ]);
}

proof fn lemma_no_slash(a: Seq<char>, s: Seq<char>, b: Seq<char>)
    requires
        !a.contains('/'),
        !s.contains('/'),
        !b.contains('/'),
    ensures
        !(a + s + b).contains('/'),
{
    let whole = a + s + b;
    if whole.contains('/') {
        let i = choose|i: int| 0 <= i < whole.len() && whole[i] == '/';
        if i < a.len() {
            assert(a[i] == '/');
        } else if i < a.len() + s.len() {
            assert(s[i - a.len()] == '/');
        } else {
            assert(b[i - a.len() - s.len()] == '/');
        }
    }
}

/// A longer route is read hop by hop: a further hop after `/` comes after the hops before it, as
/// long as there are no more than eight.
pub proof fn law_routes_are_read_hop_by_hop(a: Seq<char>, b: Seq<char>)
    requires
        !b.contains('/'),
    ensures
        match (crate::route::parse_text(a), crate::route::parse_text(b)) {
            (Ok(hops), Ok(hop)) => if hops.len() < 8 {
                crate::route::parse_text(a.push('/') + b) == Ok::<Seq<HopView>, RouteErrorView>(
                    hops + hop,
                )
            } else {
                crate::route::parse_text(a.push('/') + b) == Err::<Seq<HopView>, RouteErrorView>(
                    RouteErrorView::TooDeep,
                )
            },
            (Ok(_), Err(e)) => crate::route::parse_text(a.push('/') + b) == Err::<
                Seq<HopView>,
                RouteErrorView,
            >(e),
            (Err(RouteErrorView::BadHop(part)), _) => crate::route::parse_text(a.push('/') + b)
                == Err::<Seq<HopView>, RouteErrorView>(RouteErrorView::BadHop(part)),
            _ => true,
        },
{
    crate::route::lemma_split_append(a, '/', b);
    crate::route::lemma_split_single(b, '/');
    let parts = crate::text::split(a, '/');
    assert(parts.push(b).drop_last() =~= parts);
    assert(seq![b].drop_last() =~= Seq::<Seq<char>>::empty());
    assert(crate::route::hops_of(Seq::<Seq<char>>::empty()) == Ok::<Seq<HopView>, Seq<char>>(
        Seq::<HopView>::empty(),
    ));
    if let Some(hop) = crate::route::hop_of(b) {
        assert(Seq::<HopView>::empty().push(hop) =~= seq![hop]);
        if let Ok(hops) = crate::route::hops_of(parts) {
            assert(hops.push(hop) =~= hops + seq![hop]);
        }
    }
}

/// Padding puts just as many spaces behind a text as it takes, and none where it is long enough.
pub proof fn law_padding_fills_with_spaces(s: Seq<char>, width: nat)
    ensures
        ({
            let t = crate::text::padded(s, width);
            &&& t.len() == if s.len() < width {
                width
            } else {
                s.len()
            }
            &&& t.take(s.len() as int) == s
            &&& forall|i: int| s.len() <= i < t.len() ==> #[trigger] t[i] == ' '
        }),
    decreases width - s.len(),
{
    if s.len() < width {
        law_padding_fills_with_spaces(s.push(' '), width);
        let t = crate::text::padded(s, width);
        let more = s.push(' ');
        assert(t.take(s.len() as int) =~= t.take(more.len() as int).take(s.len() as int));
        assert(more.take(s.len() as int) =~= s);
        assert(t.take(more.len() as int)[s.len() as int] == ' ');
    } else {
        assert(s.take(s.len() as int) =~= s);
    }
}

} // verus!
