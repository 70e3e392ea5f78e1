//! Searching a sequence for the last element that satisfies a predicate.

use vstd::prelude::*;

verus! {

/// The index of the last element of `s` that satisfies `p`, or -1 where no
/// element does.
pub open spec fn last_where<A>(s: Seq<A>, p: spec_fn(A) -> bool) -> int
    decreases s.len(),
{
    if s.len() == 0 {
        -1
    } else if p(s.last()) {
        s.len() - 1
    } else {
        last_where(s.drop_last(), p)
    }
}

/// `last_where` is in range, points at an element that satisfies the
/// predicate, and no later element satisfies it.
pub proof fn lemma_last_where<A>(s: Seq<A>, p: spec_fn(A) -> bool)
    ensures
        -1 <= last_where(s, p) < s.len(),
        last_where(s, p) >= 0 ==> p(s[last_where(s, p)]),
        forall|i: int| last_where(s, p) < i < s.len() ==> !p(#[trigger] s[i]),
    decreases s.len(),
{
    if s.len() > 0 && !p(s.last()) {
        lemma_last_where(s.drop_last(), p);
        assert forall|i: int| last_where(s, p) < i < s.len() implies !p(#[trigger] s[i]) by {
            if i < s.len() - 1 {
                assert(s[i] == s.drop_last()[i]);
            }
        }
    }
}

/// Extending the searched prefix by one element.
pub proof fn lemma_last_where_step<A>(s: Seq<A>, p: spec_fn(A) -> bool, i: int)
    requires
        0 <= i < s.len(),
    ensures
        last_where(s.take(i + 1), p) == if p(s[i]) {
            i
        } else {
            last_where(s.take(i), p)
        },
{
    assert(s.take(i + 1).drop_last() =~= s.take(i));
    assert(s.take(i + 1).last() == s[i]);
}

/// Two sequences whose elements agree on the predicate, index by index,
/// have the same `last_where`.
pub proof fn lemma_last_where_agree<A>(a: Seq<A>, b: Seq<A>, p: spec_fn(A) -> bool)
    requires
        a.len() == b.len(),
        forall|i: int| 0 <= i < a.len() ==> p(#[trigger] a[i]) == p(b[i]),
    ensures
        last_where(a, p) == last_where(b, p),
    decreases a.len(),
{
    if a.len() > 0 {
        assert(p(a[a.len() - 1]) == p(b[a.len() - 1]));
        assert forall|i: int| 0 <= i < a.drop_last().len() implies p(#[trigger] a.drop_last()[i])
            == p(b.drop_last()[i]) by {
            assert(p(a[i]) == p(b[i]));
        }
        lemma_last_where_agree(a.drop_last(), b.drop_last(), p);
    }
}

/// The index of the first element of `s` that satisfies `p`, or the length
/// of `s` where no element does.
pub open spec fn first_where<A>(s: Seq<A>, p: spec_fn(A) -> bool) -> int
    decreases s.len(),
{
    if s.len() == 0 {
        0
    } else if first_where(s.drop_last(), p) < s.len() - 1 {
        first_where(s.drop_last(), p)
    } else if p(s.last()) {
        s.len() - 1
    } else {
        s.len() as int
    }
}

/// `first_where` is in range, points at an element that satisfies the
/// predicate where it points at one, and no earlier element satisfies it.
pub proof fn lemma_first_where<A>(s: Seq<A>, p: spec_fn(A) -> bool)
    ensures
        0 <= first_where(s, p) <= s.len(),
        first_where(s, p) < s.len() ==> p(s[first_where(s, p)]),
        forall|i: int| 0 <= i < first_where(s, p) ==> !p(#[trigger] s[i]),
    decreases s.len(),
{
    if s.len() > 0 {
        lemma_first_where(s.drop_last(), p);
        assert forall|i: int| 0 <= i < first_where(s, p) implies !p(#[trigger] s[i]) by {
            if i < s.len() - 1 {
                assert(s[i] == s.drop_last()[i]);
            }
        }
        if first_where(s.drop_last(), p) < s.len() - 1 {
            assert(s[first_where(s, p)] == s.drop_last()[first_where(s, p)]);
        }
    }
}

/// An index whose element satisfies the predicate, with none before it that
/// does, is `first_where`; and where no element satisfies it, `first_where`
/// is the length.
pub proof fn lemma_first_where_is<A>(s: Seq<A>, p: spec_fn(A) -> bool, at: int)
    requires
        0 <= at <= s.len(),
        at < s.len() ==> p(s[at]),
        forall|i: int| 0 <= i < at ==> !p(#[trigger] s[i]),
    ensures
        first_where(s, p) == at,
{
    lemma_first_where(s, p);
    let f = first_where(s, p);
    if f < at {
        assert(!p(s[f]));
    }
}

/// The indices of the elements of `s` that satisfy `p`, in ascending order.
pub open spec fn indices_where<A>(s: Seq<A>, p: spec_fn(A) -> bool) -> Seq<int>
    decreases s.len(),
{
    if s.len() == 0 {
        Seq::<int>::empty()
    } else if p(s.last()) {
        indices_where(s.drop_last(), p).push(s.len() - 1)
    } else {
        indices_where(s.drop_last(), p)
    }
}

/// Extending the filtered prefix by one element.
pub proof fn lemma_indices_where_step<A>(s: Seq<A>, p: spec_fn(A) -> bool, i: int)
    requires
        0 <= i < s.len(),
    ensures
        indices_where(s.take(i + 1), p) == if p(s[i]) {
            indices_where(s.take(i), p).push(i)
        } else {
            indices_where(s.take(i), p)
        },
{
    assert(s.take(i + 1).drop_last() =~= s.take(i));
    assert(s.take(i + 1).last() == s[i]);
}

/// `indices_where` lists exactly the indices of the elements that satisfy
/// the predicate, each once and in ascending order.
pub proof fn lemma_indices_where<A>(s: Seq<A>, p: spec_fn(A) -> bool)
    ensures
        forall|j: int|
            0 <= j < indices_where(s, p).len() ==> 0 <= #[trigger] indices_where(s, p)[j] < s.len()
                && p(s[indices_where(s, p)[j]]),
        forall|j1: int, j2: int|
            0 <= j1 < j2 < indices_where(s, p).len() ==> #[trigger] indices_where(s, p)[j1]
                < #[trigger] indices_where(s, p)[j2],
        forall|i: int|
            0 <= i < s.len() && p(s[i]) ==> exists|j: int|
                0 <= j < indices_where(s, p).len() && #[trigger] indices_where(s, p)[j] == i,
    decreases s.len(),
{
    if s.len() > 0 {
        let front = s.drop_last();
        lemma_indices_where(front, p);
        let before = indices_where(front, p);
        let now = indices_where(s, p);
        assert forall|j: int| 0 <= j < now.len() implies 0 <= #[trigger] now[j] < s.len() && p(
            s[now[j]],
        ) by {
            if j < before.len() {
                assert(s[before[j]] == front[before[j]]);
            }
        }
        assert forall|i: int| 0 <= i < s.len() && p(s[i]) implies exists|j: int|
            0 <= j < now.len() && #[trigger] now[j] == i by {
            if i < s.len() - 1 {
                assert(front[i] == s[i]);
                let j = choose|j: int| 0 <= j < before.len() && #[trigger] before[j] == i;
                assert(now[j] == i);
            } else {
                assert(now[now.len() - 1] == i);
            }
        }
    }
}

} // verus!
