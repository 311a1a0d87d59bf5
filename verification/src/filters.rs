//! Facts about filtering a sequence that the laws of the tables rest on.

use vstd::prelude::*;
use crate::table::{is_earliest, none_hit};

verus! {

/// A sequence is its prefix without the last element, followed by that element.
proof fn lemma_unfold<V>(s: Seq<V>, g: spec_fn(V) -> bool)
    requires
        s.len() > 0,
    ensures
        s.filter(g) == if g(s.last()) {
            s.drop_last().filter(g).push(s.last())
        } else {
            s.drop_last().filter(g)
        },
{
    assert(s =~= s.drop_last().push(s.last()));
    s.drop_last().lemma_filter_push(s.last(), g);
}

/// Filtering one row more.
pub proof fn lemma_filter_step<V>(rows: Seq<V>, f: spec_fn(V) -> bool, k: int)
    requires
        0 <= k < rows.len(),
    ensures
        rows.take(k + 1).filter(f) == if f(rows[k]) {
            rows.take(k).filter(f).push(rows[k])
        } else {
            rows.take(k).filter(f)
        },
{
    assert(rows.take(k + 1) =~= rows.take(k).push(rows[k]));
    rows.take(k).lemma_filter_push(rows[k], f);
}

/// Filtering the empty sequence leaves it empty.
pub proof fn lemma_filter_empty<V>(g: spec_fn(V) -> bool)
    ensures
        Seq::<V>::empty().filter(g) == Seq::<V>::empty(),
{
    reveal(Seq::filter);
}

/// Where nothing is selected, the filter leaves nothing.
pub proof fn lemma_filter_none<V>(s: Seq<V>, g: spec_fn(V) -> bool)
    requires
        none_hit(s, g),
    ensures
        s.filter(g) == Seq::<V>::empty(),
    decreases s.len(),
{
    if s.len() == 0 {
        reveal(Seq::filter);
    } else {
        lemma_unfold(s, g);
        assert(!g(s[s.len() - 1]));
        assert forall|j: int| 0 <= j < s.drop_last().len() implies !#[trigger] g(
            s.drop_last()[j],
        ) by {
            assert(!g(s[j]));
        }
        lemma_filter_none(s.drop_last(), g);
    }
}

/// Every row that a filter leaves is one that it selects.
pub proof fn lemma_filter_hits<V>(s: Seq<V>, g: spec_fn(V) -> bool)
    ensures
        forall|j: int| 0 <= j < s.filter(g).len() ==> #[trigger] g(s.filter(g)[j]),
    decreases s.len(),
{
    if s.len() == 0 {
        reveal(Seq::filter);
    } else {
        lemma_unfold(s, g);
        lemma_filter_hits(s.drop_last(), g);
    }
}

/// What holds of every row holds of every row that a filter leaves.
pub proof fn lemma_filter_keeps<V>(s: Seq<V>, g: spec_fn(V) -> bool, holds: spec_fn(V) -> bool)
    requires
        forall|j: int| 0 <= j < s.len() ==> #[trigger] holds(s[j]),
    ensures
        forall|j: int| 0 <= j < s.filter(g).len() ==> #[trigger] holds(s.filter(g)[j]),
    decreases s.len(),
{
    if s.len() == 0 {
        reveal(Seq::filter);
    } else {
        lemma_unfold(s, g);
        assert(holds(s[s.len() - 1]));
        assert forall|j: int| 0 <= j < s.drop_last().len() implies #[trigger] holds(
            s.drop_last()[j],
        ) by {
            assert(holds(s[j]));
        }
        lemma_filter_keeps(s.drop_last(), g, holds);
    }
}

/// Where the filter leaves something, some row is the earliest that it selects.
pub proof fn lemma_filter_some<V>(s: Seq<V>, g: spec_fn(V) -> bool)
    requires
        s.filter(g).len() > 0,
    ensures
        exists|i: int| is_earliest(s, g, i),
    decreases s.len(),
{
    if s.len() == 0 {
        reveal(Seq::filter);
    } else {
        lemma_unfold(s, g);
        let t = s.drop_last();
        if t.filter(g).len() > 0 {
            lemma_filter_some(t, g);
            let i = choose|i: int| is_earliest(t, g, i);
            assert(s[i] == t[i]);
            assert forall|j: int| 0 <= j < i implies !#[trigger] g(s[j]) by {
                assert(s[j] == t[j]);
            }
            assert(is_earliest(s, g, i));
        } else {
            let i = s.len() - 1;
            assert forall|j: int| 0 <= j < i implies !#[trigger] g(s[j]) by {
                if g(s[j]) {
                    assert(t[j] == s[j]);
                    assert(t =~= t.take(j + 1) + t.skip(j + 1));
                    Seq::filter_distributes_over_add(t.take(j + 1), t.skip(j + 1), g);
                    lemma_unfold(t.take(j + 1), g);
                }
            }
            assert(is_earliest(s, g, i));
        }
    }
}

/// Deleting the earliest selected row takes the first row from what the filter leaves.
pub proof fn lemma_remove_earliest<V>(s: Seq<V>, g: spec_fn(V) -> bool, i: int)
    requires
        is_earliest(s, g, i),
    ensures
        s.filter(g).len() > 0,
        s.filter(g)[0] == s[i],
        s.remove(i).filter(g) == s.filter(g).drop_first(),
{
    let head = s.take(i);
    let tail = s.skip(i + 1);
    assert forall|j: int| 0 <= j < head.len() implies !#[trigger] g(head[j]) by {
        assert(head[j] == s[j]);
    }
    lemma_filter_none(head, g);
    assert(s =~= head.push(s[i]) + tail);
    assert(s.remove(i) =~= head + tail);
    Seq::filter_distributes_over_add(head.push(s[i]), tail, g);
    Seq::filter_distributes_over_add(head, tail, g);
    head.lemma_filter_push(s[i], g);
    assert(s.filter(g) =~= seq![s[i]] + tail.filter(g));
    assert(s.remove(i).filter(g) =~= tail.filter(g));
    assert(s.filter(g).drop_first() =~= tail.filter(g));
}

/// Deleting a row that a filter does not select changes nothing of what it leaves.
pub proof fn lemma_remove_other<V>(s: Seq<V>, g: spec_fn(V) -> bool, i: int)
    requires
        0 <= i < s.len(),
        !g(s[i]),
    ensures
        s.remove(i).filter(g) == s.filter(g),
{
    let head = s.take(i);
    let tail = s.skip(i + 1);
    assert(s =~= head.push(s[i]) + tail);
    assert(s.remove(i) =~= head + tail);
    Seq::filter_distributes_over_add(head.push(s[i]), tail, g);
    Seq::filter_distributes_over_add(head, tail, g);
    head.lemma_filter_push(s[i], g);
}

/// A filter sees every row it selects through a deletion that keeps them.
pub proof fn lemma_filter_within<V>(s: Seq<V>, keep: spec_fn(V) -> bool, g: spec_fn(V) -> bool)
    requires
        forall|x: V| #[trigger] g(x) ==> keep(x),
    ensures
        s.filter(keep).filter(g) == s.filter(g),
    decreases s.len(),
{
    if s.len() == 0 {
        reveal(Seq::filter);
    } else {
        lemma_unfold(s, keep);
        lemma_unfold(s, g);
        lemma_filter_within(s.drop_last(), keep, g);
        s.drop_last().filter(keep).lemma_filter_push(s.last(), g);
    }
}

/// A filter sees nothing through a deletion that keeps none of the rows it selects.
pub proof fn lemma_filter_without<V>(s: Seq<V>, keep: spec_fn(V) -> bool, g: spec_fn(V) -> bool)
    requires
        forall|x: V| #[trigger] g(x) ==> !keep(x),
    ensures
        s.filter(keep).filter(g) == Seq::<V>::empty(),
    decreases s.len(),
{
    if s.len() == 0 {
        reveal(Seq::filter);
    } else {
        lemma_unfold(s, keep);
        lemma_filter_without(s.drop_last(), keep, g);
        s.drop_last().filter(keep).lemma_filter_push(s.last(), g);
    }
}

/// Where every row is selected, the filter leaves the sequence as it is.
pub proof fn lemma_filter_every<V>(s: Seq<V>, g: spec_fn(V) -> bool)
    requires
        forall|j: int| 0 <= j < s.len() ==> #[trigger] g(s[j]),
    ensures
        s.filter(g) == s,
    decreases s.len(),
{
    if s.len() == 0 {
        reveal(Seq::filter);
    } else {
        lemma_unfold(s, g);
        assert(g(s[s.len() - 1]));
        assert forall|j: int| 0 <= j < s.drop_last().len() implies #[trigger] g(
            s.drop_last()[j],
        ) by {
            assert(g(s[j]));
        }
        lemma_filter_every(s.drop_last(), g);
        assert(s =~= s.drop_last().push(s.last()));
    }
}

/// Where the filter leaves nothing, nothing is selected.
pub proof fn lemma_filter_left_nothing<V>(s: Seq<V>, g: spec_fn(V) -> bool)
    requires
        s.filter(g).len() == 0,
    ensures
        none_hit(s, g),
{
    assert forall|j: int| 0 <= j < s.len() implies !#[trigger] g(s[j]) by {
        if g(s[j]) {
            s.lemma_filter_contains(g, j);
        }
    }
}

/// Two filters may be applied in either order.
pub proof fn lemma_filter_commute<V>(s: Seq<V>, a: spec_fn(V) -> bool, b: spec_fn(V) -> bool)
    ensures
        s.filter(a).filter(b) == s.filter(b).filter(a),
    decreases s.len(),
{
    if s.len() == 0 {
        reveal(Seq::filter);
    } else {
        lemma_unfold(s, a);
        lemma_unfold(s, b);
        lemma_filter_commute(s.drop_last(), a, b);
        s.drop_last().filter(a).lemma_filter_push(s.last(), b);
        s.drop_last().filter(b).lemma_filter_push(s.last(), a);
    }
}

/// A change of rows that a filter cannot tell from no change commutes with it.
pub proof fn lemma_filter_map<V>(s: Seq<V>, m: spec_fn(V) -> V, g: spec_fn(V) -> bool)
    requires
        forall|x: V| #[trigger] g(m(x)) == g(x),
    ensures
        s.map_values(m).filter(g) == s.filter(g).map_values(m),
    decreases s.len(),
{
    if s.len() == 0 {
        reveal(Seq::filter);
        assert(s.map_values(m) =~= Seq::<V>::empty());
        assert(s.filter(g).map_values(m) =~= Seq::<V>::empty());
    } else {
        let t = s.drop_last();
        let x = s.last();
        lemma_unfold(s, g);
        lemma_filter_map(t, m, g);
        assert(s.map_values(m) =~= t.map_values(m).push(m(x)));
        t.map_values(m).lemma_filter_push(m(x), g);
        assert(g(m(x)) == g(x));
        if g(x) {
            assert(t.filter(g).push(x).map_values(m) =~= t.filter(g).map_values(m).push(m(x)));
        }
    }
}

} // verus!
