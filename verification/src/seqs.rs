//! Sequence operations that the contracts are written in.

use vstd::prelude::*;

verus! {

/// `i` is the first position of `s` whose item satisfies `p`.
pub open spec fn is_first_where<A>(s: Seq<A>, p: spec_fn(A) -> bool, i: int) -> bool {
    &&& 0 <= i < s.len()
    &&& p(s[i])
    &&& forall|j: int| 0 <= j < i ==> !p(#[trigger] s[j])
}

/// The first position of `s` whose item satisfies `p`, if any does.
pub open spec fn first_where<A>(s: Seq<A>, p: spec_fn(A) -> bool) -> Option<int> {
    if exists|i: int| is_first_where(s, p, i) {
        Some(choose|i: int| is_first_where(s, p, i))
    } else {
        None
    }
}

/// A position that is first is the one that `first_where` names.
pub proof fn lemma_first_where_is<A>(s: Seq<A>, p: spec_fn(A) -> bool, i: int)
    requires
        is_first_where(s, p, i),
    ensures
        first_where(s, p) == Some(i),
{
    let c = choose|k: int| is_first_where(s, p, k);
    assert(is_first_where(s, p, c));
    if c < i {
        assert(!p(s[c]));
    }
    if i < c {
        assert(!p(s[i]));
    }
}

/// Where no item satisfies `p` there is no first position.
pub proof fn lemma_first_where_none<A>(s: Seq<A>, p: spec_fn(A) -> bool)
    requires
        forall|j: int| 0 <= j < s.len() ==> !p(#[trigger] s[j]),
    ensures
        first_where(s, p) is None,
{
}

/// Where some item satisfies `p`, the first position exists and is at or before it.
pub proof fn lemma_first_where_some<A>(s: Seq<A>, p: spec_fn(A) -> bool, k: int)
    requires
        0 <= k < s.len(),
        p(s[k]),
    ensures
        first_where(s, p) is Some,
        is_first_where(s, p, first_where(s, p)->0),
        first_where(s, p)->0 <= k,
    decreases k,
{
    if exists|j: int| 0 <= j < k && p(#[trigger] s[j]) {
        let j = choose|j: int| 0 <= j < k && p(#[trigger] s[j]);
        lemma_first_where_some(s, p, j);
    } else {
        assert(is_first_where(s, p, k));
        lemma_first_where_is(s, p, k);
    }
}

/// The sequences that `f` gives for the items of `s`, one after the other.
pub open spec fn concat_map<A, B>(s: Seq<A>, f: spec_fn(A) -> Seq<B>) -> Seq<B>
    decreases s.len(),
{
    if s.len() == 0 {
        Seq::empty()
    } else {
        concat_map(s.drop_last(), f) + f(s.last())
    }
}

/// One more item adds what `f` gives for it at the end.
pub proof fn lemma_concat_map_push<A, B>(s: Seq<A>, f: spec_fn(A) -> Seq<B>, a: A)
    ensures
        concat_map(s.push(a), f) == concat_map(s, f) + f(a),
{
    assert(s.push(a).drop_last() == s);
}

/// What stands in `concat_map` stands in what `f` gives for some item.
pub proof fn lemma_concat_map_source<A, B>(s: Seq<A>, f: spec_fn(A) -> Seq<B>, b: B) -> (i: int)
    requires
        concat_map(s, f).contains(b),
    ensures
        0 <= i < s.len(),
        f(s[i]).contains(b),
    decreases s.len(),
{
    let k = concat_map(s, f).index_of(b);
    let front = concat_map(s.drop_last(), f);
    if k < front.len() {
        assert(front[k] == b);
        lemma_concat_map_source(s.drop_last(), f, b)
    } else {
        assert(f(s.last())[k - front.len()] == b);
        s.len() - 1
    }
}

/// What `f` gives for an item of `s` stands in `concat_map`.
pub proof fn lemma_concat_map_target<A, B>(s: Seq<A>, f: spec_fn(A) -> Seq<B>, i: int, b: B)
    requires
        0 <= i < s.len(),
        f(s[i]).contains(b),
    ensures
        concat_map(s, f).contains(b),
    decreases s.len(),
{
    let front = concat_map(s.drop_last(), f);
    let back = f(s.last());
    if i == s.len() - 1 {
        let k = back.index_of(b);
        assert((front + back)[front.len() + k] == b);
    } else {
        lemma_concat_map_target(s.drop_last(), f, i, b);
        let k = front.index_of(b);
        assert((front + back)[k] == b);
    }
}

/// Filtering a prefix that is one item longer.
pub proof fn lemma_filter_take<A>(s: Seq<A>, p: spec_fn(A) -> bool, i: int)
    requires
        0 <= i < s.len(),
    ensures
        s.take(i + 1).filter(p) == if p(s[i]) {
            s.take(i).filter(p).push(s[i])
        } else {
            s.take(i).filter(p)
        },
{
    reveal(Seq::filter);
    assert(s.take(i + 1).drop_last() == s.take(i));
}

/// The first position is the one whose item satisfies `p` while none before it does. There
/// is one exactly where some item satisfies `p`.
pub proof fn law_the_first_position_comes_first<A>(s: Seq<A>, p: spec_fn(A) -> bool)
    ensures
        match first_where(s, p) {
            Some(i) => 0 <= i < s.len() && p(s[i]) && forall|j: int|
                0 <= j < i ==> !p(#[trigger] s[j]),
            None => forall|j: int| 0 <= j < s.len() ==> !p(#[trigger] s[j]),
        },
{
    if exists|j: int| 0 <= j < s.len() && p(#[trigger] s[j]) {
        let j = choose|j: int| 0 <= j < s.len() && p(#[trigger] s[j]);
        lemma_first_where_some(s, p, j);
    } else {
        lemma_first_where_none(s, p);
    }
}

/// What is put together from two sequences is put together from the first and then from the
/// second, an empty sequence gives nothing, and one item gives what `f` gives for it.
pub proof fn law_parts_are_put_together_in_order<A, B>(
    s: Seq<A>,
    t: Seq<A>,
    a: A,
    f: spec_fn(A) -> Seq<B>,
)
    ensures
        concat_map(Seq::<A>::empty(), f) == Seq::<B>::empty(),
        concat_map(seq![a], f) == f(a),
        concat_map(s + t, f) == concat_map(s, f) + concat_map(t, f),
    decreases t.len(),
{
    assert(seq![a] =~= Seq::empty().push(a));
    lemma_concat_map_push(Seq::empty(), f, a);
    assert(concat_map(seq![a], f) =~= f(a));
    if t.len() == 0 {
        assert(s + t =~= s);
        assert(concat_map(s, f) + concat_map(t, f) =~= concat_map(s, f));
    } else {
        law_parts_are_put_together_in_order(s, t.drop_last(), a, f);
        assert((s + t).drop_last() =~= s + t.drop_last());
        assert(concat_map(s + t, f) =~= concat_map(s, f) + concat_map(t, f));
    }
}

} // verus!
