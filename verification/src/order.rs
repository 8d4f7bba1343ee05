//! Lexicographic order, stable sorting and removal of repeated items, as mathematics.

use vstd::prelude::*;

verus! {

/// `before` is a strict total order.
pub open spec fn strict_total_order<T>(before: spec_fn(T, T) -> bool) -> bool {
    &&& forall|a: T| !#[trigger] before(a, a)
    &&& forall|a: T, b: T| #[trigger] before(a, b) || a == b || before(b, a)
    &&& forall|a: T, b: T, c: T| #[trigger]
        before(a, b) && #[trigger] before(b, c) ==> before(a, c)
}

/// `before` is a strict weak order: it ranks its arguments, and several may share a rank.
pub open spec fn strict_weak_order<T>(before: spec_fn(T, T) -> bool) -> bool {
    &&& forall|a: T| !#[trigger] before(a, a)
    &&& forall|a: T, b: T, c: T| #[trigger]
        before(a, b) && #[trigger] before(b, c) ==> before(a, c)
    &&& forall|a: T, b: T, c: T|
        !#[trigger] before(a, b) && !#[trigger] before(b, c) ==> !before(a, c)
}

/// Whether sequence `a` comes before sequence `b` in the lexicographic order over `before`.
pub open spec fn lex_before<T>(a: Seq<T>, b: Seq<T>, before: spec_fn(T, T) -> bool) -> bool
    decreases a.len(),
{
    if b.len() == 0 {
        false
    } else if a.len() == 0 {
        true
    } else if a[0] != b[0] {
        before(a[0], b[0])
    } else {
        lex_before(a.drop_first(), b.drop_first(), before)
    }
}

proof fn lex_irreflexive<T>(a: Seq<T>, before: spec_fn(T, T) -> bool)
    ensures
        !lex_before(a, a, before),
    decreases a.len(),
{
    if a.len() > 0 {
        lex_irreflexive(a.drop_first(), before);
    }
}

proof fn lex_total<T>(a: Seq<T>, b: Seq<T>, before: spec_fn(T, T) -> bool)
    requires
        strict_total_order(before),
    ensures
        lex_before(a, b, before) || a == b || lex_before(b, a, before),
    decreases a.len(),
{
    if a.len() > 0 && b.len() > 0 {
        if a[0] == b[0] {
            lex_total(a.drop_first(), b.drop_first(), before);
            if a.drop_first() == b.drop_first() {
                assert(a =~= seq![a[0]] + a.drop_first());
                assert(b =~= seq![b[0]] + b.drop_first());
            }
        } else {
            assert(before(a[0], b[0]) || before(b[0], a[0]));
        }
    } else if a.len() == 0 && b.len() == 0 {
        assert(a =~= b);
    }
}

proof fn lex_transitive<T>(a: Seq<T>, b: Seq<T>, c: Seq<T>, before: spec_fn(T, T) -> bool)
    requires
        strict_total_order(before),
        lex_before(a, b, before),
        lex_before(b, c, before),
    ensures
        lex_before(a, c, before),
    decreases a.len(),
{
    if a.len() > 0 {
        if a[0] == b[0] && b[0] == c[0] {
            lex_transitive(a.drop_first(), b.drop_first(), c.drop_first(), before);
        } else if a[0] != b[0] && b[0] != c[0] {
            assert(before(a[0], b[0]) && before(b[0], c[0]));
            assert(before(a[0], c[0]));
            assert(a[0] != c[0]) by {
                assert(!before(a[0], a[0]));
            }
        }
    }
}

/// The lexicographic order over a strict total order is a strict total order.
pub proof fn lex_is_strict_total_order<T>(before: spec_fn(T, T) -> bool)
    requires
        strict_total_order(before),
    ensures
        strict_total_order(|a: Seq<T>, b: Seq<T>| lex_before(a, b, before)),
{
    let lex = |a: Seq<T>, b: Seq<T>| lex_before(a, b, before);
    assert forall|a: Seq<T>| !#[trigger] lex(a, a) by {
        lex_irreflexive(a, before);
    }
    assert forall|a: Seq<T>, b: Seq<T>| #[trigger] lex(a, b) || a == b || lex(b, a) by {
        lex_total(a, b, before);
    }
    assert forall|a: Seq<T>, b: Seq<T>, c: Seq<T>| #[trigger]
        lex(a, b) && #[trigger] lex(b, c) implies lex(a, c) by {
        lex_transitive(a, b, c, before);
    }
}

/// A common beginning does not matter for the lexicographic order.
pub proof fn lex_skip_common<T>(a: Seq<T>, b: Seq<T>, n: int, before: spec_fn(T, T) -> bool)
    requires
        0 <= n <= a.len(),
        n <= b.len(),
        forall|i: int| 0 <= i < n ==> a[i] == b[i],
    ensures
        lex_before(a, b, before) == lex_before(a.skip(n), b.skip(n), before),
    decreases n,
{
    if n == 0 {
        assert(a.skip(0) =~= a);
        assert(b.skip(0) =~= b);
    } else {
        lex_skip_common(a.drop_first(), b.drop_first(), n - 1, before);
        assert(a.drop_first().skip(n - 1) =~= a.skip(n));
        assert(b.drop_first().skip(n - 1) =~= b.skip(n));
    }
}

/// `positions` lists each of the first `n` positions once.
pub open spec fn is_permutation(positions: Seq<int>, n: nat) -> bool {
    &&& positions.len() == n
    &&& forall|i: int| 0 <= i < n ==> 0 <= #[trigger] positions[i] < n
    &&& forall|i: int, j: int| 0 <= i < j < n ==> positions[i] != positions[j]
    &&& forall|v: int| 0 <= v < n ==> #[trigger] positions.contains(v)
}

/// `output` lists the items of `input` in the order given by `positions`, which is the order of
/// `before`; items of one rank keep the order that they have in `input`.
pub open spec fn arranged_by<T>(
    input: Seq<T>,
    output: Seq<T>,
    before: spec_fn(T, T) -> bool,
    positions: Seq<int>,
) -> bool {
    &&& is_permutation(positions, input.len())
    &&& output.len() == input.len()
    &&& forall|i: int| 0 <= i < output.len() ==> #[trigger] output[i] == input[positions[i]]
    &&& forall|i: int, j: int|
        0 <= i < j < output.len() ==> before(#[trigger] output[i], #[trigger] output[j]) || (
        !before(output[j], output[i]) && positions[i] < positions[j])
}

/// `output` is `input` sorted by `before`, items of one rank in the order that they had.
pub open spec fn stable_sort_of<T>(
    input: Seq<T>,
    output: Seq<T>,
    before: spec_fn(T, T) -> bool,
) -> bool {
    exists|positions: Seq<int>| arranged_by(input, output, before, positions)
}

/// No item of `items` comes before an earlier one.
pub open spec fn sorted_by<T>(items: Seq<T>, before: spec_fn(T, T) -> bool) -> bool {
    forall|i: int, j: int|
        0 <= i < j < items.len() ==> !before(#[trigger] items[j], #[trigger] items[i])
}

/// `items` without each item that occurs earlier already.
pub open spec fn first_occurrences<T>(items: Seq<T>) -> Seq<T>
    decreases items.len(),
{
    if items.len() == 0 {
        items
    } else if items.drop_last().contains(items.last()) {
        first_occurrences(items.drop_last())
    } else {
        first_occurrences(items.drop_last()).push(items.last())
    }
}

proof fn arranged_positions_agree<T>(
    input: Seq<T>,
    a: Seq<T>,
    b: Seq<T>,
    before: spec_fn(T, T) -> bool,
    p: Seq<int>,
    q: Seq<int>,
    n: int,
)
    requires
        strict_weak_order(before),
        arranged_by(input, a, before, p),
        arranged_by(input, b, before, q),
        0 <= n <= input.len(),
    ensures
        forall|i: int| 0 <= i < n ==> p[i] == q[i],
    decreases n,
{
    if n > 0 {
        arranged_positions_agree(input, a, b, before, p, q, n - 1);
        let m = n - 1;
        if p[m] != q[m] {
            assert(q.contains(p[m]));
            assert(p.contains(q[m]));
            let s = choose|s: int| 0 <= s < q.len() && q[s] == p[m];
            let t = choose|t: int| 0 <= t < p.len() && p[t] == q[m];
            if s < m {
                assert(p[s] == q[s]);
                assert(false);
            }
            if t < m {
                assert(p[t] == q[t]);
                assert(false);
            }
            assert(a[m] == input[p[m]] && a[t] == input[q[m]]);
            assert(b[m] == input[q[m]] && b[s] == input[p[m]]);
            assert(before(a[m], a[t]) || (!before(a[t], a[m]) && p[m] < p[t]));
            assert(before(b[m], b[s]) || (!before(b[s], b[m]) && q[m] < q[s]));
            if before(a[m], a[t]) && before(a[t], a[m]) {
                assert(before(a[m], a[m]));
            }
            assert(false);
        }
    }
}

/// A sequence has one stable sort.
pub proof fn stable_sort_is_unique<T>(
    input: Seq<T>,
    a: Seq<T>,
    b: Seq<T>,
    before: spec_fn(T, T) -> bool,
)
    requires
        strict_weak_order(before),
        stable_sort_of(input, a, before),
        stable_sort_of(input, b, before),
    ensures
        a == b,
{
    let p = choose|p: Seq<int>| arranged_by(input, a, before, p);
    let q = choose|q: Seq<int>| arranged_by(input, b, before, q);
    arranged_positions_agree(input, a, b, before, p, q, input.len() as int);
    assert(a =~= b);
}

/// A stable sort is sorted.
pub proof fn stable_sort_is_sorted<T>(input: Seq<T>, output: Seq<T>, before: spec_fn(T, T) -> bool)
    requires
        strict_weak_order(before),
        stable_sort_of(input, output, before),
    ensures
        sorted_by(output, before),
{
    let p = choose|p: Seq<int>| arranged_by(input, output, before, p);
    assert forall|i: int, j: int| 0 <= i < j < output.len() implies !before(
        #[trigger] output[j],
        #[trigger] output[i],
    ) by {
        if before(output[j], output[i]) {
            assert(before(output[i], output[j]));
            assert(before(output[i], output[i]));
        }
    }
}

/// A stable sort has the items of its input, and no others.
pub proof fn stable_sort_keeps_items<T>(
    input: Seq<T>,
    output: Seq<T>,
    before: spec_fn(T, T) -> bool,
)
    requires
        stable_sort_of(input, output, before),
    ensures
        forall|item: T| #[trigger] output.contains(item) == input.contains(item),
{
    let p = choose|p: Seq<int>| arranged_by(input, output, before, p);
    assert forall|item: T| #[trigger] output.contains(item) == input.contains(item) by {
        if output.contains(item) {
            let i = choose|i: int| 0 <= i < output.len() && output[i] == item;
            assert(input[p[i]] == item);
        }
        if input.contains(item) {
            let k = choose|k: int| 0 <= k < input.len() && input[k] == item;
            assert(p.contains(k));
            let i = choose|i: int| 0 <= i < p.len() && p[i] == k;
            assert(output[i] == item);
        }
    }
}

/// Sorting a sorted sequence changes nothing.
pub proof fn stable_sort_of_sorted<T>(items: Seq<T>, before: spec_fn(T, T) -> bool)
    requires
        sorted_by(items, before),
    ensures
        stable_sort_of(items, items, before),
{
    let p = Seq::new(items.len(), |i: int| i);
    assert forall|v: int| 0 <= v < items.len() implies #[trigger] p.contains(v) by {
        assert(p[v] == v);
    }
    assert(arranged_by(items, items, before, p));
}

/// The first occurrences are the items, each of them once.
pub proof fn first_occurrences_properties<T>(items: Seq<T>)
    ensures
        first_occurrences(items).no_duplicates(),
        forall|item: T| #[trigger] first_occurrences(items).contains(item) == items.contains(item),
    decreases items.len(),
{
    if items.len() > 0 {
        let shorter = items.drop_last();
        let last = items.last();
        let rest = first_occurrences(shorter);
        let result = first_occurrences(items);
        first_occurrences_properties(shorter);
        assert(items =~= shorter.push(last));
        push_contains(shorter, last);
        if !shorter.contains(last) {
            assert(!rest.contains(last));
            push_contains(rest, last);
        }
        assert forall|item: T| #[trigger] result.contains(item) == items.contains(item) by {
            assert(rest.contains(item) == shorter.contains(item));
        }
    }
}

/// A sequence with one more item holds that item too.
pub proof fn push_contains<T>(items: Seq<T>, last: T)
    ensures
        forall|item: T| #[trigger]
            items.push(last).contains(item) == (items.contains(item) || item == last),
{
    assert forall|item: T| #[trigger] items.push(last).contains(item) == (items.contains(item)
        || item == last) by {
        if items.contains(item) {
            let i = choose|i: int| 0 <= i < items.len() && items[i] == item;
            assert(items.push(last)[i] == item);
        }
        assert(items.push(last)[items.len() as int] == last);
    }
}

/// A sequence without repeated items is left as it is.
pub proof fn first_occurrences_of_unique<T>(items: Seq<T>)
    requires
        items.no_duplicates(),
    ensures
        first_occurrences(items) == items,
    decreases items.len(),
{
    if items.len() > 0 {
        let shorter = items.drop_last();
        first_occurrences_of_unique(shorter);
        if shorter.contains(items.last()) {
            let i = choose|i: int| 0 <= i < shorter.len() && shorter[i] == items.last();
            assert(items[i] == items[items.len() - 1]);
        }
        assert(first_occurrences(items) =~= items);
    }
}

/// Each position of the result comes from a position of `items`, in the same order: the first one
/// that holds the item.
pub proof fn first_occurrences_sources<T>(items: Seq<T>) -> (sources: Seq<int>)
    ensures
        sources.len() == first_occurrences(items).len(),
        forall|i: int|
            0 <= i < sources.len() ==> 0 <= #[trigger] sources[i] < items.len()
                && first_occurrences(items)[i] == items[sources[i]],
        forall|i: int, m: int|
            0 <= i < sources.len() && 0 <= m < sources[i] ==> #[trigger] items[m]
                != items[#[trigger] sources[i]],
        forall|i: int, j: int| 0 <= i < j < sources.len() ==> sources[i] < sources[j],
    decreases items.len(),
{
    if items.len() == 0 {
        Seq::empty()
    } else {
        let rest = items.drop_last();
        let shorter = first_occurrences_sources(rest);
        let sources = if rest.contains(items.last()) {
            shorter
        } else {
            shorter.push(items.len() - 1)
        };
        assert forall|i: int, m: int|
            0 <= i < sources.len() && 0 <= m < sources[i] implies #[trigger] items[m]
            != items[#[trigger] sources[i]] by {
            assert(rest[m] == items[m]);
            if i < shorter.len() {
                assert(rest[m] != rest[shorter[i]]);
            }
        }
        sources
    }
}

/// Removal of repeated items keeps a sequence sorted.
pub proof fn first_occurrences_keep_sorted<T>(items: Seq<T>, before: spec_fn(T, T) -> bool)
    requires
        sorted_by(items, before),
    ensures
        sorted_by(first_occurrences(items), before),
{
    let sources = first_occurrences_sources(items);
    let result = first_occurrences(items);
    assert forall|i: int, j: int| 0 <= i < j < result.len() implies !before(
        #[trigger] result[j],
        #[trigger] result[i],
    ) by {
        assert(sources[i] < sources[j]);
        assert(result[i] == items[sources[i]]);
        assert(result[j] == items[sources[j]]);
    }
}

} // verus!
