//! Searching and sorting sequences.

use vstd::prelude::*;

verus! {

/// The first position at or after `from` whose element satisfies `p`.
pub open spec fn first_where<A>(s: Seq<A>, p: spec_fn(A) -> bool, from: int) -> Option<int>
    decreases s.len() - from,
{
    if from < 0 || from >= s.len() {
        None
    } else if p(s[from]) {
        Some(from)
    } else {
        first_where(s, p, from + 1)
    }
}

/// What a search finds is the first element of its kind.
pub proof fn lemma_first_where<A>(s: Seq<A>, p: spec_fn(A) -> bool, from: int)
    requires
        0 <= from,
    ensures
        match first_where(s, p, from) {
            Some(i) => from <= i < s.len() && p(s[i]) && forall|j: int|
                from <= j < i ==> !#[trigger] p(s[j]),
            None => forall|j: int| from <= j < s.len() ==> !#[trigger] p(s[j]),
        },
    decreases s.len() - from,
{
    if from < s.len() && !p(s[from]) {
        lemma_first_where(s, p, from + 1);
    }
}

/// `s` with `x` behind the last element that may stand before it.
pub open spec fn inserted<A>(s: Seq<A>, x: A, le: spec_fn(A, A) -> bool) -> Seq<A>
    decreases s.len(),
{
    if s.len() == 0 || le(s.last(), x) {
        s.push(x)
    } else {
        inserted(s.drop_last(), x, le).push(s.last())
    }
}

/// `s` in order; elements that may stand either way keep their order.
pub open spec fn sorted<A>(s: Seq<A>, le: spec_fn(A, A) -> bool) -> Seq<A>
    decreases s.len(),
{
    if s.len() == 0 {
        s
    } else {
        inserted(sorted(s.drop_last(), le), s.last(), le)
    }
}

/// Whether every element may stand before all that follow it.
pub open spec fn in_order<A>(s: Seq<A>, le: spec_fn(A, A) -> bool) -> bool {
    forall|i: int, j: int| 0 <= i < j < s.len() ==> le(#[trigger] s[i], #[trigger] s[j])
}

/// Whether `le` is an order in which any two values compare.
pub open spec fn total<A>(le: spec_fn(A, A) -> bool) -> bool {
    &&& forall|a: A, b: A| #[trigger] le(a, b) || le(b, a)
    &&& forall|a: A, b: A, c: A| #[trigger] le(a, b) && #[trigger] le(b, c) ==> le(a, c)
}

/// Inserting adds one element and loses none.
pub proof fn lemma_inserted_len<A>(s: Seq<A>, x: A, le: spec_fn(A, A) -> bool)
    ensures
        inserted(s, x, le).len() == s.len() + 1,
        inserted(s, x, le).to_multiset() == s.to_multiset().insert(x),
    decreases s.len(),
{
    broadcast use vstd::seq_lib::group_to_multiset_ensures;

    if s.len() == 0 || le(s.last(), x) {
    } else {
        lemma_inserted_len(s.drop_last(), x, le);
        assert(s == s.drop_last().push(s.last()));
        assert(s.to_multiset() == s.drop_last().to_multiset().insert(s.last()));
        assert(inserted(s, x, le).to_multiset() =~= s.to_multiset().insert(x));
    }
}

/// Sorting keeps every element.
pub proof fn lemma_sorted_permutes<A>(s: Seq<A>, le: spec_fn(A, A) -> bool)
    ensures
        sorted(s, le).len() == s.len(),
        sorted(s, le).to_multiset() == s.to_multiset(),
    decreases s.len(),
{
    broadcast use vstd::seq_lib::group_to_multiset_ensures;

    if s.len() > 0 {
        lemma_sorted_permutes(s.drop_last(), le);
        lemma_inserted_len(sorted(s.drop_last(), le), s.last(), le);
        assert(s == s.drop_last().push(s.last()));
    }
}

proof fn lemma_in_order_front<A>(s: Seq<A>, le: spec_fn(A, A) -> bool)
    requires
        s.len() > 0,
        in_order(s, le),
    ensures
        in_order(s.drop_last(), le),
{
    let p = s.drop_last();
    assert forall|i: int, j: int| 0 <= i < j < p.len() implies le(
        #[trigger] p[i],
        #[trigger] p[j],
    ) by {
        assert(le(s[i], s[j]));
    }
}

proof fn lemma_inserted_in_order<A>(s: Seq<A>, x: A, le: spec_fn(A, A) -> bool)
    requires
        total(le),
        in_order(s, le),
    ensures
        in_order(inserted(s, x, le), le),
        forall|i: int|
            0 <= i < inserted(s, x, le).len() ==> (#[trigger] inserted(s, x, le)[i] == x
                || s.contains(inserted(s, x, le)[i])),
    decreases s.len(),
{
    let t = inserted(s, x, le);
    if s.len() == 0 {
    } else if le(s.last(), x) {
        assert forall|i: int, j: int| 0 <= i < j < t.len() implies le(
            #[trigger] t[i],
            #[trigger] t[j],
        ) by {
            if j == s.len() && i < s.len() - 1 {
                assert(le(s[i], s[s.len() - 1]));
            }
        }
        assert forall|i: int| 0 <= i < t.len() implies (#[trigger] t[i] == x || s.contains(t[i])) by {
            if i < s.len() {
                assert(t[i] == s[i]);
            }
        }
    } else {
        let p = s.drop_last();
        lemma_in_order_front(s, le);
        lemma_inserted_in_order(p, x, le);
        lemma_inserted_len(p, x, le);
        let q = inserted(p, x, le);
        assert(t == q.push(s.last()));
        assert forall|i: int| 0 <= i < q.len() implies le(#[trigger] q[i], s.last()) by {
            if q[i] == x {
                assert(le(x, s.last()) || le(s.last(), x));
            } else {
                let k = choose|k: int| 0 <= k < p.len() && p[k] == q[i];
                assert(le(s[k], s[s.len() - 1]));
            }
        }
        assert forall|i: int, j: int| 0 <= i < j < t.len() implies le(
            #[trigger] t[i],
            #[trigger] t[j],
        ) by {
            if j < q.len() {
                assert(le(q[i], q[j]));
            } else {
                assert(le(q[i], s.last()));
            }
        }
        assert forall|i: int| 0 <= i < t.len() implies (#[trigger] t[i] == x || s.contains(t[i])) by {
            if i < q.len() {
                assert(t[i] == q[i]);
                if q[i] != x {
                    let k = choose|k: int| 0 <= k < p.len() && p[k] == q[i];
                    assert(s[k] == t[i]);
                }
            } else {
                assert(s[s.len() - 1] == t[i]);
            }
        }
    }
}

/// A sorted list is in order.
pub proof fn lemma_sorted_in_order<A>(s: Seq<A>, le: spec_fn(A, A) -> bool)
    requires
        total(le),
    ensures
        in_order(sorted(s, le), le),
    decreases s.len(),
{
    if s.len() > 0 {
        lemma_sorted_in_order(s.drop_last(), le);
        lemma_inserted_in_order(sorted(s.drop_last(), le), s.last(), le);
    }
}

/// Elements of one rank, in the order in which they stand.
pub open spec fn of_rank<A>(s: Seq<A>, k: A, le: spec_fn(A, A) -> bool) -> Seq<A> {
    s.filter(|x: A| le(x, k) && le(k, x))
}

proof fn lemma_inserted_keeps_rank<A>(s: Seq<A>, x: A, k: A, le: spec_fn(A, A) -> bool)
    requires
        total(le),
        in_order(s, le),
    ensures
        of_rank(inserted(s, x, le), k, le) == of_rank(s.push(x), k, le),
    decreases s.len(),
{
    broadcast use Seq::lemma_filter_push;

    let f = |y: A| le(y, k) && le(k, y);
    if s.len() == 0 || le(s.last(), x) {
    } else {
        let p = s.drop_last();
        let l = s.last();
        lemma_in_order_front(s, le);
        lemma_inserted_keeps_rank(p, x, k, le);
        assert(s == p.push(l));
        assert(!(f(l) && f(x))) by {
            if f(l) && f(x) {
                assert(le(l, k) && le(k, x));
                assert(le(l, x));
            }
        }
        let q = inserted(p, x, le);
        assert(q.push(l).filter(f) == if f(l) {
            q.filter(f).push(l)
        } else {
            q.filter(f)
        });
        assert(p.push(x).filter(f) == if f(x) {
            p.filter(f).push(x)
        } else {
            p.filter(f)
        });
        assert(p.push(l).filter(f) == if f(l) {
            p.filter(f).push(l)
        } else {
            p.filter(f)
        });
        assert(s.push(x).filter(f) == if f(x) {
            s.filter(f).push(x)
        } else {
            s.filter(f)
        });
    }
}

/// Sorting is stable: elements of one rank come out in the order they went in.
pub proof fn lemma_sorted_stable<A>(s: Seq<A>, k: A, le: spec_fn(A, A) -> bool)
    requires
        total(le),
    ensures
        of_rank(sorted(s, le), k, le) == of_rank(s, k, le),
    decreases s.len(),
{
    broadcast use Seq::lemma_filter_push;

    if s.len() > 0 {
        let p = s.drop_last();
        lemma_sorted_stable(p, k, le);
        lemma_sorted_in_order(p, le);
        lemma_inserted_keeps_rank(sorted(p, le), s.last(), k, le);
        assert(s == p.push(s.last()));
        let f = |y: A| le(y, k) && le(k, y);
        assert(sorted(p, le).push(s.last()).filter(f) == if f(s.last()) {
            sorted(p, le).filter(f).push(s.last())
        } else {
            sorted(p, le).filter(f)
        });
        assert(p.push(s.last()).filter(f) == if f(s.last()) {
            p.filter(f).push(s.last())
        } else {
            p.filter(f)
        });
    }
}

/// Sorting images is the image of sorting, where the orders agree on the elements
/// that `dom` admits.
pub proof fn lemma_sorted_map<A, B>(
    s: Seq<A>,
    le: spec_fn(A, A) -> bool,
    f: spec_fn(A) -> B,
    lf: spec_fn(B, B) -> bool,
    dom: spec_fn(A) -> bool,
)
    requires
        forall|i: int| 0 <= i < s.len() ==> dom(#[trigger] s[i]),
        forall|a: A, b: A|
            dom(a) && dom(b) ==> #[trigger] le(a, b) == lf(f(a), f(b)),
    ensures
        sorted(s.map_values(f), lf) == sorted(s, le).map_values(f),
        forall|i: int| 0 <= i < sorted(s, le).len() ==> dom(#[trigger] sorted(s, le)[i]),
    decreases s.len(),
{
    if s.len() == 0 {
        assert(s.map_values(f) =~= Seq::empty());
        assert(sorted(s, le).map_values(f) =~= Seq::empty());
    } else {
        let p = s.drop_last();
        assert forall|i: int| 0 <= i < p.len() implies dom(#[trigger] p[i]) by {
            assert(dom(s[i]));
        }
        lemma_sorted_map(p, le, f, lf, dom);
        assert(s.map_values(f).drop_last() =~= p.map_values(f));
        assert(dom(s[s.len() - 1]));
        lemma_inserted_map(sorted(p, le), s.last(), le, f, lf, dom);
    }
}

proof fn lemma_inserted_map<A, B>(
    s: Seq<A>,
    x: A,
    le: spec_fn(A, A) -> bool,
    f: spec_fn(A) -> B,
    lf: spec_fn(B, B) -> bool,
    dom: spec_fn(A) -> bool,
)
    requires
        dom(x),
        forall|i: int| 0 <= i < s.len() ==> dom(#[trigger] s[i]),
        forall|a: A, b: A|
            dom(a) && dom(b) ==> #[trigger] le(a, b) == lf(f(a), f(b)),
    ensures
        inserted(s.map_values(f), f(x), lf) == inserted(s, x, le).map_values(f),
        forall|i: int|
            0 <= i < inserted(s, x, le).len() ==> dom(#[trigger] inserted(s, x, le)[i]),
    decreases s.len(),
{
    if s.len() > 0 {
        assert(dom(s[s.len() - 1]));
        assert(s.map_values(f).last() == f(s.last()));
        assert(le(s.last(), x) == lf(f(s.last()), f(x)));
    }
    if s.len() == 0 || le(s.last(), x) {
        assert(s.push(x).map_values(f) =~= s.map_values(f).push(f(x)));
    } else {
        let p = s.drop_last();
        assert forall|i: int| 0 <= i < p.len() implies dom(#[trigger] p[i]) by {
            assert(dom(s[i]));
        }
        lemma_inserted_map(p, x, le, f, lf, dom);
        assert(s.map_values(f).drop_last() =~= p.map_values(f));
        let q = inserted(p, x, le);
        assert(q.push(s.last()).map_values(f) =~= q.map_values(f).push(f(s.last())));
    }
}

proof fn lemma_inserted_at<A>(s: Seq<A>, x: A, n: int, le: spec_fn(A, A) -> bool)
    requires
        0 <= n <= s.len(),
        n > 0 ==> le(s[n - 1], x),
        forall|j: int| n <= j < s.len() ==> !le(#[trigger] s[j], x),
    ensures
        inserted(s, x, le) == s.insert(n, x),
    decreases s.len(),
{
    if s.len() > n {
        assert(!le(s[s.len() - 1], x));
        lemma_inserted_at(s.drop_last(), x, n, le);
        assert(s.drop_last().insert(n, x).push(s.last()) =~= s.insert(n, x));
    } else {
        assert(s.insert(n, x) =~= s.push(x));
    }
}

/// Values with a way of saying which of two may stand first.
pub trait Ranked: Sized {
    /// Whether `self` may stand before `other` in a sorted list.
    spec fn le(&self, other: &Self) -> bool;

    /// Tests the order.
    fn at_most(&self, other: &Self) -> (r: bool)
        ensures
            r == self.le(other),
    ;
}

/// The order of ranked values.
pub open spec fn order<A: Ranked>() -> spec_fn(A, A) -> bool {
    |a: A, b: A| a.le(&b)
}

/// Sorts `v`, keeping the order of elements that may stand either way.
pub fn sort<A: Ranked>(v: &mut Vec<A>)
    ensures
        final(v)@ == sorted(old(v)@, order::<A>()),
{
    let ghost s = v@;
    let ghost le = order::<A>();
    let n: usize = v.len();
    let mut i: usize = 0;
    assert(s.skip(0) == s && s.take(0) == Seq::<A>::empty());
    assert(sorted(s.take(0), le) + s.skip(0) =~= s);
    while i < n
        invariant
            i <= n,
            n == s.len(),
            le == order::<A>(),
            v@ == sorted(s.take(i as int), le) + s.skip(i as int),
        decreases n - i,
    {
        proof {
            lemma_sorted_permutes(s.take(i as int), le);
        }
        let ghost front = sorted(s.take(i as int), le);
        assert(v@.len() == n);
        assert(v@[i as int] == s[i as int]);
        let mut k: usize = i;
        while k > 0 && !v[k - 1].at_most(&v[i])
            invariant
                k <= i < n,
                v@.len() == n,
                front.len() == i,
                v@ == front + s.skip(i as int),
                n == s.len(),
                le == order::<A>(),
                v@[i as int] == s[i as int],
                forall|j: int| k <= j < i ==> !le(#[trigger] front[j], s[i as int]),
            decreases k,
        {
            assert(v@[k - 1] == front[k - 1]);
            k -= 1;
        }
        assert(k > 0 ==> v@[k - 1] == front[k - 1]);
        let x = v.remove(i);
        v.insert(k, x);
        proof {
            lemma_inserted_at(front, s[i as int], k as int, le);
            assert(s.take(i + 1).drop_last() == s.take(i as int));
            assert(s.take(i + 1).last() == s[i as int]);
            assert(v@ =~= front.insert(k as int, s[i as int]) + s.skip(i + 1));
        }
        i += 1;
    }
    assert(s.take(n as int) == s);
    assert(v@ =~= sorted(s, le));
}

} // verus!
