//! Tag identifiers and the insertion-ordered sets that hold them.

use indexmap::IndexSet;
use vstd::prelude::*;

verus! {

/// Identifies a tag.
pub type TagId = u32;

/// The insertion-ordered set of the `indexmap` crate, declared as it stands.
#[verifier::external_type_specification]
#[verifier::external_body]
#[verifier::reject_recursive_types(T)]
#[verifier::reject_recursive_types(S)]
pub struct ExIndexSet<T, S>(indexmap::IndexSet<T, S>);

/// The tags that a set holds, in the order in which it hands them out.
pub uninterp spec fn tag_seq(set: IndexSet<u32>) -> Seq<u32>;

/// The items of `s` without repetitions, each where it occurs first.
pub open spec fn distinct(s: Seq<u32>) -> Seq<u32>
    decreases s.len(),
{
    if s.len() == 0 {
        Seq::empty()
    } else {
        let front = distinct(s.drop_last());
        if front.contains(s.last()) {
            front
        } else {
            front.push(s.last())
        }
    }
}

/// Leaving out repetitions neither adds nor loses an item.
pub proof fn lemma_distinct_contains(s: Seq<u32>, tag: u32)
    ensures
        distinct(s).contains(tag) <==> s.contains(tag),
    decreases s.len(),
{
    if s.len() > 0 {
        let last = s.last();
        let front = distinct(s.drop_last());
        lemma_distinct_contains(s.drop_last(), tag);
        assert(s =~= s.drop_last().push(last));
        assert(s.contains(tag) <==> s.drop_last().contains(tag) || tag == last) by {
            if s.drop_last().contains(tag) {
                let k = s.drop_last().index_of(tag);
                assert(s[k] == tag);
            }
            if tag == last {
                assert(s[s.len() - 1] == tag);
            }
            if s.contains(tag) {
                let k = s.index_of(tag);
                if k < s.len() - 1 {
                    assert(s.drop_last()[k] == tag);
                }
            }
        }
        assert(front.push(last).contains(tag) <==> front.contains(tag) || tag == last) by {
            if front.contains(tag) {
                let k = front.index_of(tag);
                assert(front.push(last)[k] == tag);
            }
            assert(front.push(last)[front.len() as int] == last);
        }
    }
}

/// Collects tags into an `IndexSet` through its `FromIterator`: the set holds
/// each tag once, in the order of first occurrence.
#[verifier::external_body]
fn collect_tags(ids: &Vec<u32>) -> (set: IndexSet<u32>)
    ensures
        tag_seq(set) == distinct(ids@),
{
    IndexSet::from_iter(ids.iter().copied())
}

/// The first item of `IndexSet::intersection`: the first tag of `a`, in the
/// order of `a`, that `b` holds too, or `None` where the two share no tag.
#[verifier::external_body]
fn first_common_tag(a: &IndexSet<u32>, b: &IndexSet<u32>) -> (tag: Option<u32>)
    ensures
        match tag {
            Some(t) => exists|i: int|
                #![trigger tag_seq(*a)[i]]
                0 <= i < tag_seq(*a).len() && tag_seq(*a)[i] == t && tag_seq(*b).contains(t)
                    && forall|j: int|
                    0 <= j < i ==> !tag_seq(*b).contains(#[trigger] tag_seq(*a)[j]),
            None => forall|i: int|
                0 <= i < tag_seq(*a).len() ==> !tag_seq(*b).contains(#[trigger] tag_seq(*a)[i]),
        },
{
    a.intersection(b).next().copied()
}

/// Two collections of tags have a tag in common.
pub open spec fn share_tag(a: Seq<u32>, b: Seq<u32>) -> bool {
    exists|t: u32| a.contains(t) && b.contains(t)
}

/// The focused tags of an output, ready to be compared with those of its windows.
pub struct FocusedTags {
    set: IndexSet<u32>,
}

impl FocusedTags {
    /// The tags held, in order and without repetitions.
    pub closed spec fn view(&self) -> Seq<u32> {
        tag_seq(self.set)
    }

    /// Gathers the focused tags.
    pub fn new(ids: &Vec<TagId>) -> (r: FocusedTags)
        ensures
            r@ == distinct(ids@),
    {
        FocusedTags { set: collect_tags(ids) }
    }

    /// Whether one of `tags` is focused.
    pub fn shows(&self, tags: &IndexSet<TagId>) -> (r: bool)
        ensures
            r == share_tag(tag_seq(*tags), self@),
    {
        let common = first_common_tag(tags, &self.set);
        proof {
            match common {
                Some(t) => {
                    assert(tag_seq(*tags).contains(t));
                },
                None => {
                    assert forall|t: u32| tag_seq(*tags).contains(t) implies !self@.contains(t) by {
                        let i = tag_seq(*tags).index_of(t);
                        assert(tag_seq(*tags)[i] == t);
                    }
                },
            }
        }
        common.is_some()
    }
}

/// Gathered tags are held once each.
pub proof fn law_gathered_tags_are_held_once(s: Seq<u32>)
    ensures
        forall|i: int, j: int|
            0 <= i < j < distinct(s).len() ==> #[trigger] distinct(s)[i] != #[trigger] distinct(s)[j],
        forall|i: int| 0 <= i < distinct(s).len() ==> s.contains(#[trigger] distinct(s)[i]),
        forall|i: int| 0 <= i < s.len() ==> distinct(s).contains(#[trigger] s[i]),
    decreases s.len(),
{
    if s.len() > 0 {
        law_gathered_tags_are_held_once(s.drop_last());
        let front = distinct(s.drop_last());
        assert forall|i: int, j: int| 0 <= i < j < distinct(s).len() implies #[trigger] distinct(
            s,
        )[i] != #[trigger] distinct(s)[j] by {
            assert(distinct(s)[i] == front[i]);
            if j < front.len() {
                assert(distinct(s)[j] == front[j]);
            } else {
                assert(front.contains(front[i]));
            }
        }
    }
    assert forall|i: int| 0 <= i < distinct(s).len() implies s.contains(
        #[trigger] distinct(s)[i],
    ) by {
        assert(distinct(s).contains(distinct(s)[i]));
        lemma_distinct_contains(s, distinct(s)[i]);
    }
    assert forall|i: int| 0 <= i < s.len() implies distinct(s).contains(#[trigger] s[i]) by {
        lemma_distinct_contains(s, s[i]);
    }
}

/// Two collections share a tag exactly where some position of the one holds what some
/// position of the other holds.
pub proof fn law_a_shared_tag_stands_in_both(a: Seq<u32>, b: Seq<u32>)
    ensures
        share_tag(a, b) <==> exists|i: int, j: int|
            0 <= i < a.len() && 0 <= j < b.len() && #[trigger] a[i] == #[trigger] b[j],
        share_tag(a, b) == share_tag(b, a),
{
    if share_tag(a, b) {
        let t = choose|t: u32| a.contains(t) && b.contains(t);
        assert(a[a.index_of(t)] == b[b.index_of(t)]);
        assert(b.contains(t) && a.contains(t));
    }
    if share_tag(b, a) {
        let t = choose|t: u32| b.contains(t) && a.contains(t);
        assert(a.contains(t) && b.contains(t));
    }
    if exists|i: int, j: int|
        0 <= i < a.len() && 0 <= j < b.len() && #[trigger] a[i] == #[trigger] b[j] {
        let (i, j) = choose|i: int, j: int|
            0 <= i < a.len() && 0 <= j < b.len() && #[trigger] a[i] == #[trigger] b[j];
        assert(a.contains(a[i]) && b.contains(a[i]));
    }
}

} // verus!
