//! Facts about filtering a sequence that the layout proofs share.

use vstd::prelude::*;

verus! {

/// The predicate "is not in `list`".
pub open spec fn outside<A>(list: Seq<A>) -> spec_fn(A) -> bool {
    |x: A| !list.contains(x)
}

/// The predicate "is in `list`".
pub open spec fn inside<A>(list: Seq<A>) -> spec_fn(A) -> bool {
    |x: A| list.contains(x)
}

/// The predicate "is not `item`".
pub open spec fn differs<A>(item: A) -> spec_fn(A) -> bool {
    |x: A| x != item
}

/// Being in a list with one more item is being in the list or being the
/// item.
pub proof fn lemma_contains_push<A>(list: Seq<A>, item: A)
    ensures
        forall|x: A| #[trigger] list.push(item).contains(x) <==> list.contains(x) || x == item,
{
    let longer = list.push(item);
    assert forall|x: A| #[trigger] longer.contains(x) <==> list.contains(x) || x == item by {
        if longer.contains(x) {
            let i = choose|i: int| 0 <= i < longer.len() && longer[i] == x;
            if i < list.len() {
                assert(list[i] == x);
            }
        }
        if list.contains(x) {
            let i = choose|i: int| 0 <= i < list.len() && list[i] == x;
            assert(longer[i] == x);
        }
        if x == item {
            assert(longer[list.len() as int] == x);
        }
    }
}

/// Two predicates that agree on every item of a sequence filter it alike.
pub proof fn lemma_filter_agree<A>(s: Seq<A>, p: spec_fn(A) -> bool, q: spec_fn(A) -> bool)
    requires
        forall|i: int| 0 <= i < s.len() ==> p(#[trigger] s[i]) == q(s[i]),
    ensures
        s.filter(p) == s.filter(q),
    decreases s.len(),
{
    reveal(Seq::filter);
    if s.len() > 0 {
        let front = s.drop_last();
        assert forall|i: int| 0 <= i < front.len() implies p(#[trigger] front[i]) == q(
            front[i],
        ) by {
            assert(front[i] == s[i]);
        }
        lemma_filter_agree(front, p, q);
    }
}

/// A predicate that holds of every item filters nothing out.
pub proof fn lemma_filter_all<A>(s: Seq<A>, p: spec_fn(A) -> bool)
    requires
        forall|i: int| 0 <= i < s.len() ==> p(#[trigger] s[i]),
    ensures
        s.filter(p) == s,
    decreases s.len(),
{
    reveal(Seq::filter);
    if s.len() > 0 {
        let front = s.drop_last();
        assert forall|i: int| 0 <= i < front.len() implies p(#[trigger] front[i]) by {
            assert(front[i] == s[i]);
        }
        lemma_filter_all(front, p);
        assert(front.push(s.last()) =~= s);
    }
}

/// A predicate that holds of no item filters everything out.
pub proof fn lemma_filter_none<A>(s: Seq<A>, p: spec_fn(A) -> bool)
    requires
        forall|i: int| 0 <= i < s.len() ==> !p(#[trigger] s[i]),
    ensures
        s.filter(p) == Seq::<A>::empty(),
    decreases s.len(),
{
    reveal(Seq::filter);
    if s.len() > 0 {
        let front = s.drop_last();
        assert forall|i: int| 0 <= i < front.len() implies !p(#[trigger] front[i]) by {
            assert(front[i] == s[i]);
        }
        lemma_filter_none(front, p);
    } else {
        assert(s =~= Seq::<A>::empty());
    }
}

/// Filtering by `p` and then by `q` is filtering by both.
pub proof fn lemma_filter_twice<A>(
    s: Seq<A>,
    p: spec_fn(A) -> bool,
    q: spec_fn(A) -> bool,
    both: spec_fn(A) -> bool,
)
    requires
        forall|x: A| #[trigger] both(x) == (p(x) && q(x)),
    ensures
        s.filter(p).filter(q) == s.filter(both),
    decreases s.len(),
{
    reveal(Seq::filter);
    if s.len() > 0 {
        let front = s.drop_last();
        lemma_filter_twice(front, p, q, both);
        if p(s.last()) {
            front.filter(p).lemma_filter_push(s.last(), q);
        }
    }
}

/// In a sequence without duplicates, taking out the item at `k` is keeping
/// the items that differ from it.
pub proof fn lemma_remove_is_filter<A>(s: Seq<A>, k: int)
    requires
        s.no_duplicates(),
        0 <= k < s.len(),
    ensures
        s.remove(k) == s.filter(differs(s[k])),
    decreases s.len(),
{
    reveal(Seq::filter);
    let p = differs(s[k]);
    let front = s.drop_last();
    if k == s.len() - 1 {
        assert forall|i: int| 0 <= i < front.len() implies p(#[trigger] front[i]) by {
            assert(front[i] == s[i]);
        }
        lemma_filter_all(front, p);
        assert(s.remove(k) =~= front);
    } else {
        assert(front[k] == s[k]);
        lemma_remove_is_filter(front, k);
        assert(s.last() == s[s.len() - 1]);
        assert(p(s.last()));
        assert(s.remove(k) =~= front.remove(k).push(s.last()));
    }
}

/// An item of a sequence that meets the predicate is in the filtered
/// sequence, and nothing else is.
pub proof fn lemma_filter_member<A>(s: Seq<A>, p: spec_fn(A) -> bool)
    ensures
        forall|x: A| #[trigger] s.filter(p).contains(x) <==> s.contains(x) && p(x),
    decreases s.len(),
{
    reveal(Seq::filter);
    if s.len() > 0 {
        let front = s.drop_last();
        lemma_filter_member(front, p);
        assert(front.push(s.last()) =~= s);
        lemma_contains_push(front, s.last());
        lemma_contains_push(front.filter(p), s.last());
    }
}

} // verus!
