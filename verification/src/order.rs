//! The order of subtitles, and what sorting by it means: by the number,
//! then by the start, then by the end, with ties left as they stood.

use crate::subtitle::SubtitleView;
use vstd::prelude::*;

verus! {

/// Whether no subtitle is ordered before one that stands before it.
pub open spec fn sorted(subs: Seq<SubtitleView>) -> bool {
    forall|i: int, j: int| 0 <= i < j < subs.len() ==> !subs[j].before(subs[i])
}

/// The test that a subtitle passes if it ties with `k` in the order.
pub open spec fn ties(k: SubtitleView) -> spec_fn(SubtitleView) -> bool {
    |e: SubtitleView| e.ties_with(k)
}

/// Whether `after` holds the subtitles of `before` with those that tie in
/// the order still in the order in which `before` holds them.
pub open spec fn keeps_ties_in_order(before: Seq<SubtitleView>, after: Seq<SubtitleView>) -> bool {
    forall|k: SubtitleView| #[trigger] after.filter(ties(k)) == before.filter(ties(k))
}

/// Among three subtitles, if neither the second is ordered before the first
/// nor the third before the second, the third is not ordered before the
/// first.
pub proof fn lemma_order_is_transitive(a: SubtitleView, b: SubtitleView, c: SubtitleView)
    requires
        !b.before(a),
        !c.before(b),
    ensures
        !c.before(a),
{
}

/// Of two subtitles exactly one is ordered before the other, unless they
/// tie.
pub proof fn lemma_order_is_total(a: SubtitleView, b: SubtitleView)
    ensures
        a.before(b) || b.before(a) || a.ties_with(b),
        !(a.before(b) && b.before(a)),
        a.ties_with(b) ==> !a.before(b) && !b.before(a),
{
}

/// No subtitle of `s` passes a test that its filtering leaves nothing of.
proof fn lemma_filter_of_none(s: Seq<SubtitleView>, pred: spec_fn(SubtitleView) -> bool)
    requires
        forall|i: int| 0 <= i < s.len() ==> !pred(#[trigger] s[i]),
    ensures
        s.filter(pred) == Seq::<SubtitleView>::empty(),
    decreases s.len(),
{
    reveal(Seq::filter);
    if s.len() > 0 {
        lemma_filter_of_none(s.drop_last(), pred);
    }
}

/// Moving the subtitle at index `i` forward to index `j`, past subtitles
/// that do not tie with it, keeps ties in order.
pub proof fn lemma_move_keeps_ties(s: Seq<SubtitleView>, i: int, j: int)
    requires
        0 <= j <= i < s.len(),
        forall|m: int| j <= m < i ==> !(#[trigger] s[m]).ties_with(s[i]),
    ensures
        keeps_ties_in_order(s, s.remove(i).insert(j, s[i])),
{
    let moved = s.remove(i).insert(j, s[i]);
    let x = seq![s[i]];
    let head = s.take(j);
    let passed = s.subrange(j, i);
    let tail = s.skip(i + 1);
    assert(s =~= head + passed + x + tail);
    assert(moved =~= head + x + passed + tail);
    assert forall|k: SubtitleView| #[trigger] moved.filter(ties(k)) == s.filter(ties(k)) by {
        let p = ties(k);
        Seq::filter_distributes_over_add(head + passed + x, tail, p);
        Seq::filter_distributes_over_add(head + passed, x, p);
        Seq::filter_distributes_over_add(head, passed, p);
        Seq::filter_distributes_over_add(head + x + passed, tail, p);
        Seq::filter_distributes_over_add(head + x, passed, p);
        Seq::filter_distributes_over_add(head, x, p);
        if p(s[i]) {
            assert forall|m: int| 0 <= m < passed.len() implies !p(#[trigger] passed[m]) by {
                assert(passed[m] == s[j + m]);
            }
            lemma_filter_of_none(passed, p);
            assert(head.filter(p) + x.filter(p) + passed.filter(p) =~= head.filter(p)
                + passed.filter(p) + x.filter(p));
        } else {
            lemma_filter_of_none(x, p);
            assert(head.filter(p) + x.filter(p) + passed.filter(p) =~= head.filter(p)
                + passed.filter(p) + x.filter(p));
        }
    }
}

/// The subtitles that pass a test, of a first subtitle and of others behind
/// it: the first if it passes, and then those of the others that pass.
proof fn lemma_filter_front(s: Seq<SubtitleView>, pred: spec_fn(SubtitleView) -> bool)
    requires
        s.len() > 0,
    ensures
        s.filter(pred) == if pred(s[0]) {
            seq![s[0]] + s.skip(1).filter(pred)
        } else {
            s.skip(1).filter(pred)
        },
{
    let first = seq![s[0]];
    let none = Seq::<SubtitleView>::empty();
    assert(s =~= first + s.skip(1));
    Seq::filter_distributes_over_add(first, s.skip(1), pred);
    none.lemma_filter_push(s[0], pred);
    assert(none.push(s[0]) =~= first);
    assert(none.filter(pred) =~= none) by {
        reveal(Seq::filter);
    }
    if pred(s[0]) {
        assert(none.filter(pred).push(s[0]) =~= first);
    } else {
        assert(first.filter(pred) + s.skip(1).filter(pred) =~= s.skip(1).filter(pred));
    }
}

/// Sorting has one result: two sorted sequences that hold the same
/// subtitles with their ties in the same order are the same sequence.
pub proof fn lemma_sorted_is_determined(a: Seq<SubtitleView>, b: Seq<SubtitleView>)
    requires
        sorted(a),
        sorted(b),
        keeps_ties_in_order(a, b),
    ensures
        a == b,
    decreases a.len() + b.len(),
{
    if a.len() == 0 && b.len() == 0 {
        assert(a =~= b);
    } else if a.len() == 0 || b.len() == 0 {
        // Whichever is not empty holds a first subtitle, which the other
        // would hold among those that tie with it.
        let x = if a.len() == 0 {
            b[0]
        } else {
            a[0]
        };
        assert(b.filter(ties(x)) == a.filter(ties(x)));
        if a.len() == 0 {
            lemma_filter_front(b, ties(x));
            lemma_filter_of_none(a, ties(x));
        } else {
            lemma_filter_front(a, ties(x));
            lemma_filter_of_none(b, ties(x));
        }
        assert((seq![x] + a.skip(1).filter(ties(x))).len() > 0);
        assert((seq![x] + b.skip(1).filter(ties(x))).len() > 0);
    } else {
        let x = a[0];
        let y = b[0];
        assert(b.filter(ties(x)) == a.filter(ties(x)));
        assert(b.filter(ties(y)) == a.filter(ties(y)));
        lemma_filter_front(a, ties(x));
        lemma_filter_front(b, ties(y));
        // Each first subtitle stands somewhere in the other sequence, where
        // nothing is ordered before that sequence's first: the two tie.
        let in_b = a.filter(ties(x));
        assert(in_b[0] == x);
        b.lemma_filter_contains_rev(ties(x), x);
        let i = choose|i: int| 0 <= i < b.len() && b[i] == x;
        assert(!b[i].before(b[0]) || i == 0);
        let in_a = b.filter(ties(y));
        assert(in_a[0] == y);
        a.lemma_filter_contains_rev(ties(y), y);
        let j = choose|j: int| 0 <= j < a.len() && a[j] == y;
        assert(!a[j].before(a[0]) || j == 0);
        lemma_order_is_total(x, y);
        assert(x.ties_with(y));
        // So each is the first of those that tie with it, in both.
        lemma_filter_front(b, ties(x));
        assert(b.filter(ties(x))[0] == y);
        assert(x == y);
        let rest_a = a.skip(1);
        let rest_b = b.skip(1);
        assert forall|k: SubtitleView| #[trigger]
            rest_b.filter(ties(k)) == rest_a.filter(ties(k)) by {
            assert(b.filter(ties(k)) == a.filter(ties(k)));
            lemma_filter_front(a, ties(k));
            lemma_filter_front(b, ties(k));
            if ties(k)(x) {
                assert((seq![x] + rest_a.filter(ties(k))).skip(1) =~= rest_a.filter(ties(k)));
                assert((seq![x] + rest_b.filter(ties(k))).skip(1) =~= rest_b.filter(ties(k)));
            }
        }
        assert forall|m: int, n: int| 0 <= m < n < rest_a.len() implies !rest_a[n].before(
            rest_a[m],
        ) by {
            assert(rest_a[m] == a[m + 1] && rest_a[n] == a[n + 1]);
        }
        assert forall|m: int, n: int| 0 <= m < n < rest_b.len() implies !rest_b[n].before(
            rest_b[m],
        ) by {
            assert(rest_b[m] == b[m + 1] && rest_b[n] == b[n + 1]);
        }
        lemma_sorted_is_determined(rest_a, rest_b);
        assert(a =~= seq![x] + rest_a);
        assert(b =~= seq![y] + rest_b);
    }
}

/// Moving the subtitle at index `i` to index `j` leaves the same subtitles,
/// each as many times as before.
pub proof fn lemma_move_keeps_all(s: Seq<SubtitleView>, i: int, j: int)
    requires
        0 <= j <= i < s.len(),
    ensures
        s.remove(i).insert(j, s[i]).to_multiset() == s.to_multiset(),
{
    broadcast use vstd::multiset::group_multiset_axioms;

    vstd::seq_lib::to_multiset_remove(s, i);
    vstd::seq_lib::to_multiset_insert(s.remove(i), j, s[i]);
    s.to_multiset_ensures();
    assert(s.to_multiset().count(s[i]) > 0);
    assert(s.to_multiset().remove(s[i]).insert(s[i]) =~= s.to_multiset());
}

} // verus!
