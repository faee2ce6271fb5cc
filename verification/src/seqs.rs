//! Sequences: models of vectors, duplicates, concatenation.

use vstd::prelude::*;

verus! {

/// The models of the items of a sequence.
pub open spec fn views<T: View>(s: Seq<T>) -> Seq<T::V> {
    Seq::new(s.len(), |i: int| s[i]@)
}

/// The model of an item that may be missing.
pub open spec fn opt_view<T: View>(o: Option<T>) -> Option<T::V> {
    match o {
        Some(x) => Some(x@),
        None => None,
    }
}

/// The first item of which `f` holds.
pub open spec fn first_where<A>(s: Seq<A>, f: spec_fn(A) -> bool) -> Option<A>
    decreases s.len(),
{
    if s.len() == 0 {
        None
    } else if f(s[0]) {
        Some(s[0])
    } else {
        first_where(s.skip(1), f)
    }
}

/// The item at `i`, where `f` holds of it and of none before it, is the first
/// of which `f` holds.
pub proof fn lemma_first_where<A>(s: Seq<A>, f: spec_fn(A) -> bool, i: int)
    requires
        0 <= i <= s.len(),
        forall|k: int| 0 <= k < i ==> !f(#[trigger] s[k]),
        i < s.len() ==> f(s[i]),
    ensures
        first_where(s, f) == if i < s.len() {
            Some(s[i])
        } else {
            None
        },
    decreases i,
{
    if i > 0 {
        assert(!f(s[0]));
        assert forall|k: int| 0 <= k < i - 1 implies !f(#[trigger] s.skip(1)[k]) by {
            assert(s.skip(1)[k] == s[k + 1]);
        }
        lemma_first_where(s.skip(1), f, i - 1);
    }
}

/// `f` holds of the first item of which it holds; if there is none, it holds of
/// no item.
pub proof fn lemma_first_where_holds<A>(s: Seq<A>, f: spec_fn(A) -> bool)
    ensures
        match first_where(s, f) {
            Some(x) => f(x) && s.contains(x),
            None => forall|k: int| 0 <= k < s.len() ==> !f(#[trigger] s[k]),
        },
    decreases s.len(),
{
    if s.len() > 0 && !f(s[0]) {
        lemma_first_where_holds(s.skip(1), f);
        match first_where(s, f) {
            Some(x) => {
                let k = choose|k: int| 0 <= k < s.skip(1).len() && s.skip(1)[k] == x;
                assert(s[k + 1] == x);
            },
            None => {
                assert forall|k: int| 0 <= k < s.len() implies !f(#[trigger] s[k]) by {
                    if k > 0 {
                        assert(s[k] == s.skip(1)[k - 1]);
                    }
                }
            },
        }
    }
}

// ---------------------------------------------------------------------
// Arrivals

/// What is for number `i`.
pub open spec fn is_for<A>(i: int) -> spec_fn((usize, A)) -> bool {
    |e: (usize, A)| e.0 == i
}

/// What arrived for number `i`, where things arrive in any order, each with the
/// number that it is for; of two for one number the first counts.
pub open spec fn arrived<A>(arrivals: Seq<(usize, A)>, i: int) -> Option<A> {
    match first_where(arrivals, is_for(i)) {
        Some(e) => Some(e.1),
        None => None,
    }
}

/// Nothing arrived twice for one number.
pub open spec fn numbers_distinct<A>(arrivals: Seq<(usize, A)>) -> bool {
    forall|i: int, j: int|
        0 <= i < j < arrivals.len() ==> (#[trigger] arrivals[i]).0 != (#[trigger] arrivals[j]).0
}

/// The same things arrived, in whatever order.
pub open spec fn same_arrivals<A>(a: Seq<(usize, A)>, b: Seq<(usize, A)>) -> bool {
    &&& numbers_distinct(a)
    &&& numbers_distinct(b)
    &&& forall|e: (usize, A)| #[trigger] a.contains(e) <==> b.contains(e)
}

/// What arrived for a number is what is there for it.
proof fn lemma_arrived<A>(arrivals: Seq<(usize, A)>, e: (usize, A))
    requires
        numbers_distinct(arrivals),
        arrivals.contains(e),
    ensures
        arrived(arrivals, e.0 as int) == Some(e.1),
{
    let f = is_for::<A>(e.0 as int);
    let k = choose|k: int| 0 <= k < arrivals.len() && arrivals[k] == e;
    assert forall|j: int| 0 <= j < k implies !f(#[trigger] arrivals[j]) by {}
    lemma_first_where(arrivals, f, k);
}

/// In what order things arrive does not matter.
pub proof fn law_arrival_order<A>(a: Seq<(usize, A)>, b: Seq<(usize, A)>, i: int)
    requires
        same_arrivals(a, b),
    ensures
        arrived(a, i) == arrived(b, i),
{
    let f = is_for::<A>(i);
    lemma_first_where_holds(a, f);
    lemma_first_where_holds(b, f);
    if let Some(e) = first_where(a, f) {
        assert(b.contains(e));
        lemma_arrived(b, e);
    }
    if let Some(e) = first_where(b, f) {
        assert(a.contains(e));
        lemma_arrived(a, e);
    }
}

/// The position of what arrived first for number `i`, or the number of arrivals
/// if nothing did.
pub fn find_arrival<A>(arrivals: &Vec<(usize, A)>, i: usize) -> (r: usize)
    ensures
        r <= arrivals@.len(),
        r < arrivals@.len() ==> arrivals@[r as int].0 == i,
        forall|k: int| 0 <= k < r ==> (#[trigger] arrivals@[k]).0 != i,
{
    let mut k: usize = 0;
    while k < arrivals.len() && arrivals[k].0 != i
        invariant
            k <= arrivals@.len(),
            forall|j: int| 0 <= j < k ==> (#[trigger] arrivals@[j]).0 != i,
        decreases arrivals.len() - k,
    {
        k += 1;
    }
    k
}

// ---------------------------------------------------------------------
// Filters and duplicates

/// A filter that lets no item through leaves nothing.
pub proof fn lemma_filter_none<A>(s: Seq<A>, f: spec_fn(A) -> bool)
    requires
        forall|k: int| 0 <= k < s.len() ==> !f(#[trigger] s[k]),
    ensures
        s.filter(f) == Seq::<A>::empty(),
    decreases s.len(),
{
    reveal(Seq::filter);
    if s.len() > 0 {
        lemma_filter_none(s.drop_last(), f);
    }
}

/// What a filter lets through was there.
pub proof fn lemma_filter_from<A>(s: Seq<A>, f: spec_fn(A) -> bool, i: int)
    requires
        0 <= i < s.filter(f).len(),
    ensures
        exists|k: int| 0 <= k < s.len() && #[trigger] s[k] == s.filter(f)[i],
    decreases s.len(),
{
    reveal(Seq::filter);
    let rest = s.drop_last().filter(f);
    if i < rest.len() {
        lemma_filter_from(s.drop_last(), f, i);
        let k = choose|k: int|
            0 <= k < s.drop_last().len() && #[trigger] s.drop_last()[k] == rest[i];
        assert(s[k] == s.filter(f)[i]);
    } else {
        assert(s[s.len() - 1] == s.filter(f)[i]);
    }
}

/// Filtering one item after the other.
pub proof fn lemma_filter_push<A>(s: Seq<A>, x: A, f: spec_fn(A) -> bool)
    ensures
        s.push(x).filter(f) == if f(x) {
            s.filter(f).push(x)
        } else {
            s.filter(f)
        },
{
    reveal(Seq::filter);
    assert(s.push(x).drop_last() =~= s);
}

/// The items of `s`, each where it first occurs.
pub open spec fn distinct<A>(s: Seq<A>) -> Seq<A>
    decreases s.len(),
{
    if s.len() == 0 {
        s
    } else {
        let d = distinct(s.drop_last());
        if d.contains(s.last()) {
            d
        } else {
            d.push(s.last())
        }
    }
}

/// `distinct` has no duplicates, and the items of the sequence.
pub proof fn lemma_distinct<A>(s: Seq<A>)
    ensures
        distinct(s).no_duplicates(),
        forall|x: A| #[trigger] distinct(s).contains(x) <==> s.contains(x),
    decreases s.len(),
{
    if s.len() > 0 {
        let d = distinct(s.drop_last());
        lemma_distinct(s.drop_last());
        assert forall|x: A| #[trigger] distinct(s).contains(x) <==> s.contains(x) by {
            assert(s.drop_last().push(s.last()) =~= s);
            if s.contains(x) {
                let i = choose|i: int| 0 <= i < s.len() && s[i] == x;
                if i < s.len() - 1 {
                    assert(s.drop_last()[i] == x);
                    assert(s.drop_last().contains(x));
                    assert(d.contains(x));
                    let k = choose|k: int| 0 <= k < d.len() && d[k] == x;
                    assert(distinct(s)[k] == x);
                } else if !d.contains(x) {
                    assert(distinct(s)[d.len() as int] == x);
                }
            }
            if distinct(s).contains(x) {
                let k = choose|k: int| 0 <= k < distinct(s).len() && distinct(s)[k] == x;
                if k < d.len() {
                    assert(d[k] == x);
                    assert(d.contains(x));
                    assert(s.drop_last().contains(x));
                    let i = choose|i: int| 0 <= i < s.drop_last().len() && s.drop_last()[i] == x;
                    assert(s[i] == x);
                } else {
                    assert(s[s.len() - 1] == x);
                }
            }
        }
    }
}

/// `distinct` of a sequence with items added at the end.
pub proof fn lemma_distinct_push<A>(s: Seq<A>, x: A)
    ensures
        distinct(s.push(x)) == if distinct(s).contains(x) {
            distinct(s)
        } else {
            distinct(s).push(x)
        },
{
    assert(s.push(x).drop_last() =~= s);
}

/// What is distinct keeps its order: each item stands where it first occurs, so
/// that the distinct items of a sequence come before those that follow it.
pub proof fn law_distinct_order<A>(a: Seq<A>, b: Seq<A>)
    ensures
        distinct(a).len() <= distinct(a + b).len(),
        distinct(a + b).take(distinct(a).len() as int) == distinct(a),
        a.no_duplicates() ==> distinct(a) == a,
    decreases b.len(),
{
    if b.len() == 0 {
        assert(a + b =~= a);
        assert(distinct(a).take(distinct(a).len() as int) =~= distinct(a));
    } else {
        assert((a + b).drop_last() =~= a + b.drop_last());
        law_distinct_order(a, b.drop_last());
        let before = distinct(a + b.drop_last());
        assert(distinct(a + b).take(distinct(a).len() as int) =~= before.take(
            distinct(a).len() as int,
        ));
    }
    if a.no_duplicates() {
        lemma_no_duplicates_distinct(a);
    }
}

/// A sequence without duplicates is distinct as it is.
proof fn lemma_no_duplicates_distinct<A>(a: Seq<A>)
    requires
        a.no_duplicates(),
    ensures
        distinct(a) == a,
    decreases a.len(),
{
    if a.len() > 0 {
        lemma_no_duplicates_distinct(a.drop_last());
        assert(!a.drop_last().contains(a.last()));
        assert(a.drop_last().push(a.last()) =~= a);
    }
}

/// The models of a sequence are those of its items, one for one and in order.
pub proof fn law_views<T: View>(s: Seq<T>, o: Option<T>, i: int)
    ensures
        views(s).len() == s.len(),
        0 <= i < s.len() ==> views(s)[i] == s[i]@,
        o is Some ==> opt_view(o) == Some(o->0@),
        o is None ==> opt_view(o) is None,
{
}

} // verus!
