//! Stable sorting by a total preorder.

use vstd::prelude::*;

verus! {

/// A type whose values can be brought into an order in which ties are possible.
pub trait Ranked: Sized {
    /// `self` may stand before `other`.
    spec fn at_most(self, other: Self) -> bool;

    /// Of two values one may stand before the other.
    proof fn total(a: Self, b: Self)
        ensures
            a.at_most(b) || b.at_most(a),
    ;

    /// Standing before passes along.
    proof fn transitive(a: Self, b: Self, c: Self)
        requires
            a.at_most(b),
            b.at_most(c),
        ensures
            a.at_most(c),
    ;

    /// Tells whether `self` may stand before `other`.
    fn is_at_most(&self, other: &Self) -> (r: bool)
        ensures
            r == self.at_most(*other),
    ;
}

/// Neither value has to stand before the other.
pub open spec fn same_rank<T: Ranked>(a: T, b: T) -> bool {
    a.at_most(b) && b.at_most(a)
}

/// The elements of `s` that tie with `x`, in the order in which `s` has them.
pub open spec fn ties<T: Ranked>(s: Seq<T>, x: T) -> Seq<T> {
    s.filter(|y: T| same_rank(x, y))
}

/// Each element of `s` may stand before all that follow it.
pub open spec fn is_sorted<T: Ranked>(s: Seq<T>) -> bool {
    forall|i: int, j: int| 0 <= i < j < s.len() ==> (#[trigger] s[i]).at_most(#[trigger] s[j])
}

/// `r` is `s` sorted, with tied elements left in the order in which they stood.
pub open spec fn is_stable_sort<T: Ranked>(s: Seq<T>, r: Seq<T>) -> bool {
    &&& is_sorted(r)
    &&& forall|x: T| #[trigger] ties(r, x) == ties(s, x)
}

pub proof fn lemma_ties_add<T: Ranked>(a: Seq<T>, b: Seq<T>, x: T)
    ensures
        ties(a + b, x) == ties(a, x) + ties(b, x),
{
    Seq::filter_distributes_over_add(a, b, |y: T| same_rank(x, y));
}

pub proof fn lemma_ties_one<T: Ranked>(e: T, x: T)
    ensures
        ties(seq![e], x) == (if same_rank(x, e) {
            seq![e]
        } else {
            Seq::empty()
        }),
{
    reveal_with_fuel(Seq::filter, 2);
    assert(seq![e].drop_last() =~= Seq::<T>::empty());
    assert(ties(seq![e], x) =~= (if same_rank(x, e) {
        seq![e]
    } else {
        Seq::empty()
    }));
}

/// Where nothing in `s` ties with `x`, the ties are empty.
pub proof fn lemma_no_ties<T: Ranked>(s: Seq<T>, x: T)
    requires
        forall|i: int| 0 <= i < s.len() ==> !same_rank(x, #[trigger] s[i]),
    ensures
        ties(s, x) == Seq::<T>::empty(),
    decreases s.len(),
{
    reveal(Seq::filter);
    if s.len() > 0 {
        assert(!same_rank(x, s[s.len() - 1]));
        assert forall|i: int| 0 <= i < s.drop_last().len() implies !same_rank(
            x,
            #[trigger] s.drop_last()[i],
        ) by {
            assert(s.drop_last()[i] == s[i]);
        }
        lemma_no_ties(s.drop_last(), x);
    }
    assert(ties(s, x) =~= Seq::<T>::empty());
}

/// Merges two sorted lists; where elements tie, those of `left` come first.
fn merge<T: Ranked>(left: Vec<T>, right: Vec<T>) -> (r: Vec<T>)
    requires
        is_sorted(left@),
        is_sorted(right@),
    ensures
        is_stable_sort(left@ + right@, r@),
        r@.len() == left@.len() + right@.len(),
{
    let ghost a0 = left@;
    let ghost b0 = right@;
    let mut a: Vec<T> = left;
    let mut b: Vec<T> = right;
    // The merged elements from the last to the first.
    let mut out: Vec<T> = Vec::new();
    proof {
        assert forall|x: T|
            #[trigger] ties(a@, x) + ties(b@, x) + ties(out@.reverse(), x) == ties(a0, x) + ties(
                b0,
                x,
            ) by {
            assert(out@.reverse() =~= Seq::<T>::empty());
            lemma_no_ties(Seq::<T>::empty(), x);
            assert(ties(a0, x) + ties(b0, x) + Seq::<T>::empty() =~= ties(a0, x) + ties(b0, x));
        }
    }
    while a.len() > 0 || b.len() > 0
        invariant
            is_sorted(a@),
            is_sorted(b@),
            is_sorted(out@.reverse()),
            a@.len() + b@.len() + out@.len() == a0.len() + b0.len(),
            forall|i: int, j: int|
                0 <= i < a@.len() && 0 <= j < out@.len() ==> (#[trigger] a@[i]).at_most(
                    #[trigger] out@[j],
                ),
            forall|i: int, j: int|
                0 <= i < b@.len() && 0 <= j < out@.len() ==> (#[trigger] b@[i]).at_most(
                    #[trigger] out@[j],
                ),
            forall|x: T|
                #[trigger] ties(a@, x) + ties(b@, x) + ties(out@.reverse(), x) == ties(a0, x)
                    + ties(b0, x),
        decreases a.len() + b.len(),
    {
        let from_right: bool = if a.len() == 0 {
            true
        } else if b.len() == 0 {
            false
        } else {
            a[a.len() - 1].is_at_most(&b[b.len() - 1])
        };
        let ghost (a1, b1, out1) = (a@, b@, out@);
        if from_right {
            if let Some(e) = b.pop() {
                out.push(e);
                proof {
                    assert(b1 =~= b@ + seq![e]);
                    assert(out@.reverse() =~= seq![e] + out1.reverse());
                    assert forall|x: T|
                        #[trigger] ties(a@, x) + ties(b@, x) + ties(out@.reverse(), x) == ties(
                            a0,
                            x,
                        ) + ties(b0, x) by {
                        lemma_ties_add(b@, seq![e], x);
                        lemma_ties_add(seq![e], out1.reverse(), x);
                        assert(ties(a@, x) + ties(b@, x) + (ties(seq![e], x) + ties(
                            out1.reverse(),
                            x,
                        )) =~= ties(a1, x) + (ties(b@, x) + ties(seq![e], x)) + ties(
                            out1.reverse(),
                            x,
                        ));
                    }
                    assert forall|i: int| 0 <= i < a@.len() implies (#[trigger] a@[i]).at_most(
                        e,
                    ) by {
                        let l = a@.len() - 1;
                        assert(a@[l].at_most(b1[b1.len() - 1]));
                        if i < l {
                            assert(a@[i].at_most(a@[l]));
                            T::transitive(a@[i], a@[l], e);
                        }
                    }
                    assert forall|i: int| 0 <= i < b@.len() implies (#[trigger] b@[i]).at_most(
                        e,
                    ) by {
                        assert(b@[i] == b1[i]);
                    }
                    assert forall|i: int, j: int|
                        0 <= i < j < out@.reverse().len() implies (#[trigger] out@.reverse()[i]).at_most(
                        #[trigger] out@.reverse()[j],
                    ) by {
                        let tail = out1.reverse();
                        if i == 0 {
                            assert(b1[b1.len() - 1].at_most(out1[out1.len() - j]));
                        } else {
                            assert(tail[i - 1].at_most(tail[j - 1]));
                        }
                    }
                }
            }
        } else {
            if let Some(e) = a.pop() {
                out.push(e);
                proof {
                    assert(a1 =~= a@ + seq![e]);
                    assert(out@.reverse() =~= seq![e] + out1.reverse());
                    assert forall|i: int| 0 <= i < b@.len() implies !e.at_most(b@[i]) && (
                    #[trigger] b@[i]).at_most(e) by {
                        let l = b@.len() - 1;
                        if e.at_most(b@[i]) {
                            if i < l {
                                assert(b@[i].at_most(b@[l]));
                                T::transitive(e, b@[i], b@[l]);
                            }
                            assert(false);
                        }
                        T::total(e, b@[i]);
                    }
                    assert forall|i: int| 0 <= i < a@.len() implies (#[trigger] a@[i]).at_most(
                        e,
                    ) by {
                        assert(a@[i] == a1[i]);
                    }
                    assert forall|x: T|
                        #[trigger] ties(a@, x) + ties(b@, x) + ties(out@.reverse(), x) == ties(
                            a0,
                            x,
                        ) + ties(b0, x) by {
                        lemma_ties_add(a@, seq![e], x);
                        lemma_ties_add(seq![e], out1.reverse(), x);
                        lemma_ties_one(e, x);
                        if same_rank(x, e) {
                            assert forall|i: int| 0 <= i < b@.len() implies !same_rank(
                                x,
                                #[trigger] b@[i],
                            ) by {
                                if same_rank(x, b@[i]) {
                                    T::transitive(e, x, b@[i]);
                                }
                            }
                            lemma_no_ties(b@, x);
                        }
                        assert(ties(a@, x) + ties(b@, x) + (ties(seq![e], x) + ties(
                            out1.reverse(),
                            x,
                        )) =~= (ties(a@, x) + ties(seq![e], x)) + ties(b@, x) + ties(
                            out1.reverse(),
                            x,
                        ));
                    }
                    assert forall|i: int, j: int|
                        0 <= i < j < out@.reverse().len() implies (#[trigger] out@.reverse()[i]).at_most(
                        #[trigger] out@.reverse()[j],
                    ) by {
                        let tail = out1.reverse();
                        if i == 0 {
                            assert(a1[a1.len() - 1].at_most(out1[out1.len() - j]));
                        } else {
                            assert(tail[i - 1].at_most(tail[j - 1]));
                        }
                    }
                }
            }
        }
    }
    let ghost merged = out@.reverse();
    let mut r: Vec<T> = Vec::new();
    while out.len() > 0
        invariant
            r@ + out@.reverse() == merged,
        decreases out.len(),
    {
        let ghost out1 = out@;
        if let Some(e) = out.pop() {
            proof {
                assert(out1.reverse() =~= seq![e] + out@.reverse());
                assert(r@ + out1.reverse() =~= r@.push(e) + out@.reverse());
            }
            r.push(e);
        }
    }
    proof {
        assert(r@ =~= merged);
        assert(a@ =~= Seq::<T>::empty() && b@ =~= Seq::<T>::empty());
        assert forall|x: T| #[trigger] ties(r@, x) == ties(a0 + b0, x) by {
            lemma_ties_add(a0, b0, x);
            lemma_no_ties(Seq::<T>::empty(), x);
            assert(ties(a@, x) + ties(b@, x) + ties(merged, x) == ties(a0, x) + ties(b0, x));
            assert(ties(a@, x) + ties(b@, x) + ties(merged, x) =~= ties(merged, x));
        }
    }
    r
}

/// Sorts `v`; elements that tie keep the order in which they stand.
pub fn stable_sort<T: Ranked>(v: Vec<T>) -> (r: Vec<T>)
    ensures
        is_stable_sort(v@, r@),
        r@.len() == v@.len(),
    decreases v.len(),
{
    if v.len() <= 1 {
        return v;
    }
    let ghost all = v@;
    let mut left: Vec<T> = v;
    let half: usize = left.len() / 2;
    let right: Vec<T> = left.split_off(half);
    assert(all =~= left@ + right@);
    let ghost (l0, r0) = (left@, right@);
    let l: Vec<T> = stable_sort(left);
    let r: Vec<T> = stable_sort(right);
    let merged: Vec<T> = merge(l, r);
    proof {
        assert forall|x: T| #[trigger] ties(merged@, x) == ties(all, x) by {
            assert(ties(merged@, x) == ties(l@ + r@, x));
            lemma_ties_add(l@, r@, x);
            lemma_ties_add(l0, r0, x);
            assert(ties(l@, x) == ties(l0, x));
            assert(ties(r@, x) == ties(r0, x));
        }
    }
    merged
}

/// How often `x` occurs in `s` is how often it occurs among its own ties.
proof fn lemma_count_among_ties<T: Ranked>(s: Seq<T>, x: T)
    ensures
        s.to_multiset().count(x) == ties(s, x).to_multiset().count(x),
    decreases s.len(),
{
    broadcast use vstd::seq_lib::group_to_multiset_ensures;

    reveal(Seq::filter);
    if s.len() > 0 {
        let front = s.drop_last();
        lemma_count_among_ties(front, x);
        assert(s =~= front.push(s.last()));
        T::total(x, x);
        if same_rank(x, s.last()) {
            assert(ties(s, x) =~= ties(front, x).push(s.last()));
        } else {
            assert(ties(s, x) =~= ties(front, x));
        }
    } else {
        assert(ties(s, x) =~= s);
    }
}

/// Sorting neither drops nor adds nor changes an element.
pub proof fn law_sort_permutes<T: Ranked>(s: Seq<T>, r: Seq<T>)
    requires
        is_stable_sort(s, r),
    ensures
        r.to_multiset() == s.to_multiset(),
        r.len() == s.len(),
{
    broadcast use vstd::seq_lib::group_to_multiset_ensures;

    assert forall|x: T| r.to_multiset().count(x) == s.to_multiset().count(x) by {
        lemma_count_among_ties(s, x);
        lemma_count_among_ties(r, x);
        assert(ties(r, x) == ties(s, x));
    }
    assert(r.to_multiset() =~= s.to_multiset());
    assert(r.to_multiset().len() == r.len());
    assert(s.to_multiset().len() == s.len());
}

proof fn lemma_ties_contain<T: Ranked>(s: Seq<T>, x: T, i: int)
    requires
        0 <= i < s.len(),
        same_rank(x, s[i]),
    ensures
        ties(s, x).len() > 0,
    decreases s.len(),
{
    reveal(Seq::filter);
    if i < s.len() - 1 {
        assert(s.drop_last()[i] == s[i]);
        lemma_ties_contain(s.drop_last(), x, i);
    }
}

/// Some element of `s` ties with `x` if the ties are not empty.
proof fn lemma_ties_witness<T: Ranked>(s: Seq<T>, x: T) -> (i: int)
    requires
        ties(s, x).len() > 0,
    ensures
        0 <= i < s.len(),
        same_rank(x, s[i]),
    decreases s.len(),
{
    reveal(Seq::filter);
    if same_rank(x, s.last()) {
        s.len() - 1
    } else {
        lemma_ties_witness(s.drop_last(), x)
    }
}

/// A list has one stably sorted form.
pub proof fn law_sorted_form_is_unique<T: Ranked>(a: Seq<T>, b: Seq<T>)
    requires
        is_sorted(a),
        is_sorted(b),
        forall|x: T| #[trigger] ties(a, x) == ties(b, x),
    ensures
        a == b,
    decreases a.len(),
{
    if a.len() == 0 {
        if b.len() > 0 {
            T::total(b[0], b[0]);
            lemma_ties_contain(b, b[0], 0);
            assert(ties(a, b[0]) == ties(b, b[0]));
            let i = lemma_ties_witness(a, b[0]);
        }
        assert(a =~= b);
    } else {
        T::total(a[0], a[0]);
        lemma_ties_contain(a, a[0], 0);
        assert(ties(a, a[0]) == ties(b, a[0]));
        let k = lemma_ties_witness(b, a[0]);
        T::total(b[0], b[0]);
        lemma_ties_contain(b, b[0], 0);
        assert(ties(a, b[0]) == ties(b, b[0]));
        let l = lemma_ties_witness(a, b[0]);
        // Each first element may stand before the other.
        if k > 0 {
            assert(b[0].at_most(b[k]));
            T::transitive(b[0], b[k], a[0]);
        }
        if l > 0 {
            assert(a[0].at_most(a[l]));
            T::transitive(a[0], a[l], b[0]);
        }
        assert(same_rank(a[0], b[0]));
        let (ta, tb) = (a.drop_first(), b.drop_first());
        assert(a =~= seq![a[0]] + ta);
        assert(b =~= seq![b[0]] + tb);
        lemma_ties_add(seq![a[0]], ta, a[0]);
        lemma_ties_add(seq![b[0]], tb, a[0]);
        lemma_ties_one(a[0], a[0]);
        lemma_ties_one(b[0], a[0]);
        assert(ties(a, a[0])[0] == a[0]);
        assert(ties(b, a[0])[0] == b[0]);
        assert forall|x: T| #[trigger] ties(ta, x) == ties(tb, x) by {
            lemma_ties_add(seq![a[0]], ta, x);
            lemma_ties_add(seq![b[0]], tb, x);
            assert(ties(a, x) == ties(b, x));
            let head = ties(seq![a[0]], x);
            assert((head + ties(ta, x)).skip(head.len() as int) =~= ties(ta, x));
            assert((head + ties(tb, x)).skip(head.len() as int) =~= ties(tb, x));
        }
        assert(is_sorted(ta)) by {
            assert forall|i: int, j: int| 0 <= i < j < ta.len() implies (
            #[trigger] ta[i]).at_most(#[trigger] ta[j]) by {
                assert(a[i + 1].at_most(a[j + 1]));
            }
        }
        assert(is_sorted(tb)) by {
            assert forall|i: int, j: int| 0 <= i < j < tb.len() implies (
            #[trigger] tb[i]).at_most(#[trigger] tb[j]) by {
                assert(b[i + 1].at_most(b[j + 1]));
            }
        }
        law_sorted_form_is_unique(ta, tb);
    }
}

/// Two elements of `s` tie only if they are one and the same.
pub open spec fn ranks_are_distinct<T: Ranked>(s: Seq<T>) -> bool {
    forall|i: int, j: int|
        0 <= i < s.len() && 0 <= j < s.len() && i != j ==> !same_rank(
            #[trigger] s[i],
            #[trigger] s[j],
        )
}

proof fn lemma_distinct_ties<T: Ranked>(s: Seq<T>, x: T, i: int)
    requires
        ranks_are_distinct(s),
        0 <= i < s.len(),
        same_rank(x, s[i]),
    ensures
        ties(s, x) == seq![s[i]],
{
    let (front, back) = (s.take(i), s.skip(i + 1));
    assert(s =~= front + seq![s[i]] + back);
    lemma_ties_add(front + seq![s[i]], back, x);
    lemma_ties_add(front, seq![s[i]], x);
    lemma_ties_one(s[i], x);
    assert forall|j: int| 0 <= j < front.len() implies !same_rank(x, #[trigger] front[j]) by {
        if same_rank(x, s[j]) {
            T::transitive(s[j], x, s[i]);
            T::transitive(s[i], x, s[j]);
            assert(same_rank(s[j], s[i]));
        }
    }
    assert forall|j: int| 0 <= j < back.len() implies !same_rank(x, #[trigger] back[j]) by {
        if same_rank(x, s[i + 1 + j]) {
            T::transitive(s[i + 1 + j], x, s[i]);
            T::transitive(s[i], x, s[i + 1 + j]);
            assert(same_rank(s[i + 1 + j], s[i]));
        }
    }
    lemma_no_ties(front, x);
    lemma_no_ties(back, x);
    assert(ties(s, x) =~= seq![s[i]]);
}

/// Where no two elements tie, every permutation of a sorted list sorts back to that list.
pub proof fn law_sort_undoes_permutation<T: Ranked>(sorted: Seq<T>, shuffled: Seq<T>, r: Seq<T>)
    requires
        is_sorted(sorted),
        ranks_are_distinct(sorted),
        shuffled.to_multiset() == sorted.to_multiset(),
        is_stable_sort(shuffled, r),
    ensures
        r == sorted,
{
    broadcast use vstd::seq_lib::group_to_multiset_ensures;

    law_sort_permutes(shuffled, r);
    let m = sorted.to_multiset();
    assert(ranks_are_distinct(r)) by {
        assert forall|i: int, j: int|
            0 <= i < r.len() && 0 <= j < r.len() && i != j implies !same_rank(
            #[trigger] r[i],
            #[trigger] r[j],
        ) by {
            if same_rank(r[i], r[j]) {
                assert(r.to_multiset().contains(r[i]));
                assert(r.to_multiset().contains(r[j]));
                assert(sorted.contains(r[i]) && sorted.contains(r[j]));
                let a = sorted.index_of(r[i]);
                let b = sorted.index_of(r[j]);
                assert(sorted[a] == r[i] && sorted[b] == r[j]);
                assert(a == b);
                assert(r[i] == r[j]);
                lemma_twice_counts_two(r, i, j);
                lemma_distinct_counts_one(sorted, a);
            }
        }
    }
    assert forall|x: T| #[trigger] ties(r, x) == ties(sorted, x) by {
        if ties(r, x).len() > 0 {
            let i = lemma_ties_witness(r, x);
            lemma_distinct_ties(r, x, i);
            assert(r.to_multiset().contains(r[i]));
            assert(sorted.contains(r[i]));
            lemma_distinct_ties(sorted, x, sorted.index_of(r[i]));
        } else if ties(sorted, x).len() > 0 {
            let i = lemma_ties_witness(sorted, x);
            assert(sorted.to_multiset().contains(sorted[i]));
            assert(r.contains(sorted[i]));
            lemma_ties_contain(r, x, r.index_of(sorted[i]));
        } else {
            assert(ties(r, x) =~= ties(sorted, x));
        }
    }
    law_sorted_form_is_unique(r, sorted);
}

proof fn lemma_twice_counts_two<T>(s: Seq<T>, i: int, j: int)
    requires
        0 <= i < s.len(),
        0 <= j < s.len(),
        i != j,
        s[i] == s[j],
    ensures
        s.to_multiset().count(s[i]) >= 2,
{
    broadcast use vstd::seq_lib::group_to_multiset_ensures;

    let rest = s.remove(i);
    assert(s.to_multiset().remove(s[i]) =~= rest.to_multiset());
    let k = if j < i {
        j
    } else {
        j - 1
    };
    assert(rest[k] == s[i]);
    assert(rest.contains(s[i]));
    assert(rest.to_multiset().count(s[i]) > 0);
}

proof fn lemma_distinct_counts_one<T: Ranked>(s: Seq<T>, i: int)
    requires
        ranks_are_distinct(s),
        0 <= i < s.len(),
    ensures
        s.to_multiset().count(s[i]) == 1,
{
    broadcast use vstd::seq_lib::group_to_multiset_ensures;

    let rest = s.remove(i);
    assert(s.to_multiset().remove(s[i]) =~= rest.to_multiset());
    T::total(s[i], s[i]);
    if rest.contains(s[i]) {
        let k = rest.index_of(s[i]);
        let j = if k < i {
            k
        } else {
            k + 1
        };
        assert(s[j] == s[i]);
        assert(same_rank(s[j], s[i]));
    }
    assert(rest.to_multiset().count(s[i]) == 0);
    assert(s.contains(s[i]));
    assert(s.to_multiset().count(s[i]) > 0);
}

} // verus!
