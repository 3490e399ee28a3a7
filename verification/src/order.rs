//! Three-way comparison as a mathematical object, and its lexicographic extension to sequences.

use vstd::prelude::*;

verus! {

/// The sign of `a - b`: negative, zero or positive as `a` comes before, with or after `b`.
pub open spec fn int_order(a: int, b: int) -> int {
    if a < b {
        -1
    } else if a == b {
        0
    } else {
        1
    }
}

/// The order of bytes by value.
pub open spec fn byte_order() -> spec_fn(u8, u8) -> int {
    |a: u8, b: u8| int_order(a as int, b as int)
}

/// The order of characters by code point.
pub open spec fn char_order() -> spec_fn(char, char) -> int {
    |a: char, b: char| int_order(a as int, b as int)
}

/// `rel` is a total order: it answers -1, 0 or 1, answers 0 exactly on equal values, swaps its
/// sign with its arguments, and is transitive.
pub open spec fn is_total_order<A>(rel: spec_fn(A, A) -> int) -> bool {
    &&& forall|a: A, b: A| -1 <= #[trigger] rel(a, b) <= 1
    &&& forall|a: A, b: A| #[trigger] rel(a, b) == 0 <==> a == b
    &&& forall|a: A, b: A| #[trigger] rel(a, b) == -rel(b, a)
    &&& forall|a: A, b: A, c: A| #[trigger] rel(a, b) <= 0 && #[trigger] rel(b, c) <= 0 ==> rel(a, c) <= 0
}

/// The lexicographic order on sequences that `rel` on the elements gives: the first difference
/// decides, and a proper prefix comes before what it is a prefix of.
pub open spec fn lex<A>(rel: spec_fn(A, A) -> int, a: Seq<A>, b: Seq<A>) -> int
    decreases a.len(),
{
    if a.len() == 0 && b.len() == 0 {
        0
    } else if a.len() == 0 {
        -1
    } else if b.len() == 0 {
        1
    } else if rel(a[0], b[0]) != 0 {
        rel(a[0], b[0])
    } else {
        lex(rel, a.drop_first(), b.drop_first())
    }
}

/// The lexicographic extension of `rel` as a comparison of its own.
pub open spec fn lex_order<A>(rel: spec_fn(A, A) -> int) -> spec_fn(Seq<A>, Seq<A>) -> int {
    |a: Seq<A>, b: Seq<A>| lex(rel, a, b)
}

/// `p` is an initial segment of `s`, possibly all of it.
pub open spec fn begins_with<A>(s: Seq<A>, p: Seq<A>) -> bool {
    p.len() <= s.len() && s.take(p.len() as int) == p
}

pub proof fn lemma_lex_range<A>(rel: spec_fn(A, A) -> int, a: Seq<A>, b: Seq<A>)
    requires
        is_total_order(rel),
    ensures
        -1 <= lex(rel, a, b) <= 1,
        lex(rel, a, b) == -lex(rel, b, a),
    decreases a.len(),
{
    if a.len() > 0 && b.len() > 0 {
        assert(rel(a[0], b[0]) == -rel(b[0], a[0]));
        lemma_lex_range(rel, a.drop_first(), b.drop_first());
    }
}

pub proof fn lemma_lex_zero<A>(rel: spec_fn(A, A) -> int, a: Seq<A>, b: Seq<A>)
    requires
        is_total_order(rel),
    ensures
        lex(rel, a, b) == 0 <==> a == b,
    decreases a.len(),
{
    if a.len() > 0 && b.len() > 0 {
        lemma_lex_zero(rel, a.drop_first(), b.drop_first());
        assert(rel(a[0], b[0]) == 0 <==> a[0] == b[0]);
        if lex(rel, a, b) == 0 {
            assert(a =~= seq![a[0]] + a.drop_first());
            assert(b =~= seq![b[0]] + b.drop_first());
        }
    } else if a.len() == 0 && b.len() == 0 {
        assert(a =~= b);
    }
}

pub proof fn lemma_lex_transitive<A>(
    rel: spec_fn(A, A) -> int,
    a: Seq<A>,
    b: Seq<A>,
    c: Seq<A>,
)
    requires
        is_total_order(rel),
        lex(rel, a, b) <= 0,
        lex(rel, b, c) <= 0,
    ensures
        lex(rel, a, c) <= 0,
    decreases a.len(),
{
    if a.len() > 0 && b.len() > 0 && c.len() > 0 {
        let (x, y, z) = (a[0], b[0], c[0]);
        assert(rel(x, y) <= 0 && rel(y, z) <= 0);
        assert(rel(x, z) <= 0);
        if rel(x, z) == 0 {
            assert(x == z);
            assert(rel(z, y) == -rel(y, z));
            assert(rel(x, y) == 0);
            lemma_lex_transitive(rel, a.drop_first(), b.drop_first(), c.drop_first());
        }
    }
}

/// The lexicographic extension of a total order is a total order.
pub proof fn lemma_lex_is_total_order<A>(rel: spec_fn(A, A) -> int)
    requires
        is_total_order(rel),
    ensures
        is_total_order(lex_order(rel)),
{
    let wide = lex_order(rel);
    assert forall|a: Seq<A>, b: Seq<A>| -1 <= #[trigger] wide(a, b) <= 1 by {
        lemma_lex_range(rel, a, b);
    }
    assert forall|a: Seq<A>, b: Seq<A>| #[trigger] wide(a, b) == 0 <==> a == b by {
        lemma_lex_zero(rel, a, b);
    }
    assert forall|a: Seq<A>, b: Seq<A>| #[trigger] wide(a, b) == -wide(b, a) by {
        lemma_lex_range(rel, a, b);
    }
    assert forall|a: Seq<A>, b: Seq<A>, c: Seq<A>|
        #[trigger] wide(a, b) <= 0 && #[trigger] wide(b, c) <= 0 implies wide(a, c) <= 0 by {
        lemma_lex_transitive(rel, a, b, c);
    }
}

pub proof fn lemma_byte_order()
    ensures
        is_total_order(byte_order()),
{
}

pub proof fn lemma_char_order()
    ensures
        is_total_order(char_order()),
{
}

/// A sequence comes before everything else that begins with it.
pub proof fn lemma_prefix_comes_first<A>(rel: spec_fn(A, A) -> int, p: Seq<A>, s: Seq<A>)
    requires
        is_total_order(rel),
        begins_with(s, p),
        s != p,
    ensures
        lex(rel, p, s) < 0,
    decreases p.len(),
{
    if p.len() == 0 {
        if s.len() == 0 {
            assert(s =~= p);
        }
    } else {
        assert(s.take(p.len() as int)[0] == p[0]);
        assert(rel(p[0], s[0]) == 0);
        let (q, t) = (p.drop_first(), s.drop_first());
        assert(t.take(q.len() as int) =~= s.take(p.len() as int).drop_first());
        if t == q {
            assert(s =~= seq![s[0]] + t);
            assert(p =~= seq![p[0]] + q);
        }
        lemma_prefix_comes_first(rel, q, t);
    }
}

/// What lies between a sequence and one that begins with it begins with it too: in
/// lexicographic order the extensions of `p` are contiguous and start at `p`.
pub proof fn lemma_extensions_are_contiguous<A>(
    rel: spec_fn(A, A) -> int,
    p: Seq<A>,
    m: Seq<A>,
    s: Seq<A>,
)
    requires
        is_total_order(rel),
        lex(rel, p, m) <= 0,
        lex(rel, m, s) <= 0,
        begins_with(s, p),
    ensures
        begins_with(m, p),
    decreases p.len(),
{
    if p.len() == 0 {
        assert(m.take(0) =~= p);
    } else {
        assert(s.take(p.len() as int)[0] == p[0]);
        assert(s[0] == p[0]);
        if m.len() == 0 {
            assert(false);
        }
        assert(rel(p[0], m[0]) <= 0);
        assert(rel(m[0], s[0]) <= 0);
        assert(rel(m[0], p[0]) == -rel(p[0], m[0]));
        assert(rel(p[0], m[0]) == 0);
        assert(p[0] == m[0]);
        assert(rel(m[0], s[0]) == 0);
        assert(s.drop_first().take(p.len() - 1) =~= s.take(p.len() as int).drop_first());
        lemma_extensions_are_contiguous(rel, p.drop_first(), m.drop_first(), s.drop_first());
        assert(m.take(p.len() as int) =~= p) by {
            assert(m.drop_first().take(p.len() - 1) =~= p.drop_first());
            assert forall|i: int| 0 <= i < p.len() implies m.take(p.len() as int)[i] == p[i] by {
                if i > 0 {
                    assert(m[i] == m.drop_first().take(p.len() - 1)[i - 1]);
                    assert(p[i] == p.drop_first()[i - 1]);
                }
            }
        }
    }
}

/// The first place at which two lists differ decides, whatever follows it and however long they are.
/// A list comes before every longer one that begins with it. `k` is a place up to which the two
/// agree.
pub proof fn law_first_difference_decides<A>(
    rel: spec_fn(A, A) -> int,
    a: Seq<A>,
    b: Seq<A>,
    k: int,
)
    requires
        is_total_order(rel),
        0 <= k <= a.len(),
        k <= b.len(),
        forall|i: int| 0 <= i < k ==> #[trigger] a[i] == b[i],
    ensures
        k < a.len() && k < b.len() && a[k] != b[k] ==> lex(rel, a, b) == rel(a[k], b[k]),
        k == a.len() && k < b.len() ==> lex(rel, a, b) == -1,
        k < a.len() && k == b.len() ==> lex(rel, a, b) == 1,
        k == a.len() && k == b.len() ==> lex(rel, a, b) == 0,
    decreases k,
{
    if k > 0 {
        assert(a[0] == b[0]);
        assert(rel(a[0], b[0]) == 0);
        let (p, q) = (a.drop_first(), b.drop_first());
        assert forall|i: int| 0 <= i < k - 1 implies #[trigger] p[i] == q[i] by {
            assert(a[i + 1] == b[i + 1]);
        }
        law_first_difference_decides(rel, p, q, k - 1);
    }
}

/// Byte strings compare by the first byte in which they differ, as numbers from 0 to 255.
pub proof fn law_bytes_compare_by_the_first_difference(a: Seq<u8>, b: Seq<u8>, k: int)
    requires
        0 <= k <= a.len(),
        k <= b.len(),
        forall|i: int| 0 <= i < k ==> #[trigger] a[i] == b[i],
    ensures
        k < a.len() && k < b.len() && a[k] < b[k] ==> lex(byte_order(), a, b) == -1,
        k < a.len() && k < b.len() && a[k] > b[k] ==> lex(byte_order(), a, b) == 1,
        k == a.len() && k < b.len() ==> lex(byte_order(), a, b) == -1,
        k < a.len() && k == b.len() ==> lex(byte_order(), a, b) == 1,
        k == a.len() && k == b.len() ==> lex(byte_order(), a, b) == 0,
{
    lemma_byte_order();
    law_first_difference_decides(byte_order(), a, b, k);
}

/// Texts compare by the first character in which they differ, as code points.
pub proof fn law_texts_compare_by_the_first_difference(a: Seq<char>, b: Seq<char>, k: int)
    requires
        0 <= k <= a.len(),
        k <= b.len(),
        forall|i: int| 0 <= i < k ==> #[trigger] a[i] == b[i],
    ensures
        k < a.len() && k < b.len() && a[k] < b[k] ==> lex(char_order(), a, b)
            == -1,
        k < a.len() && k < b.len() && a[k] > b[k] ==> lex(char_order(), a, b)
            == 1,
        k == a.len() && k < b.len() ==> lex(char_order(), a, b) == -1,
        k < a.len() && k == b.len() ==> lex(char_order(), a, b) == 1,
        k == a.len() && k == b.len() ==> lex(char_order(), a, b) == 0,
{
    lemma_char_order();
    law_first_difference_decides(char_order(), a, b, k);
}

/// A list begins with another exactly if that one is no longer and they agree in all its places.
pub proof fn law_beginning_agrees_place_by_place<A>(s: Seq<A>, p: Seq<A>)
    ensures
        begins_with(s, p) <==> p.len() <= s.len() && forall|i: int|
            0 <= i < p.len() ==> #[trigger] s[i] == p[i],
{
    if p.len() <= s.len() {
        let front = s.take(p.len() as int);
        assert(forall|i: int| 0 <= i < p.len() ==> #[trigger] front[i] == s[i]);
        if begins_with(s, p) {
            assert forall|i: int| 0 <= i < p.len() implies #[trigger] s[i] == p[i] by {
                assert(front[i] == s[i]);
            }
        }
        if forall|i: int| 0 <= i < p.len() ==> #[trigger] s[i] == p[i] {
            assert(front =~= p);
        }
    }
}

/// Compares two byte strings lexicographically.
pub fn compare_bytes(a: &[u8], b: &[u8]) -> (r: i8)
    ensures
        r as int == lex(byte_order(), a@, b@),
{
    let mut i: usize = 0;
    proof {
        lemma_byte_order();
        assert(a@.skip(0) =~= a@);
        assert(b@.skip(0) =~= b@);
    }
    while i < a.len() && i < b.len()
        invariant
            i <= a@.len(),
            i <= b@.len(),
            is_total_order(byte_order()),
            lex(byte_order(), a@, b@) == lex(byte_order(), a@.skip(i as int), b@.skip(i as int)),
        decreases a.len() - i,
    {
        let x: u8 = a[i];
        let y: u8 = b[i];
        assert(a@.skip(i as int)[0] == x && b@.skip(i as int)[0] == y);
        if x < y {
            return -1;
        }
        if x > y {
            return 1;
        }
        assert(a@.skip(i as int).drop_first() =~= a@.skip(i + 1));
        assert(b@.skip(i as int).drop_first() =~= b@.skip(i + 1));
        i = i + 1;
    }
    if i < b.len() {
        -1
    } else if i < a.len() {
        1
    } else {
        0
    }
}

/// The order of pairs: the first members decide, and where they agree the second ones.
pub open spec fn pair_order() -> spec_fn((int, int), (int, int)) -> int {
    |a: (int, int), b: (int, int)|
        if a.0 != b.0 {
            int_order(a.0, b.0)
        } else {
            int_order(a.1, b.1)
        }
}

pub proof fn lemma_pair_order()
    ensures
        is_total_order(pair_order()),
{
}

/// Compares two strings by the code points of their characters.
pub fn compare_text(a: &str, b: &str) -> (r: i8)
    ensures
        r as int == lex(char_order(), a@, b@),
{
    let mut left = a.chars();
    let mut right = b.chars();
    proof {
        lemma_char_order();
    }
    loop
        invariant
            is_total_order(char_order()),
            vstd::std_specs::iter::IteratorSpec::decrease(&left) is Some,
            lex(char_order(), a@, b@) == lex(char_order(), vstd::std_specs::iter::IteratorSpec::remaining(&left), vstd::std_specs::iter::IteratorSpec::remaining(&right)),
        decreases vstd::std_specs::iter::IteratorSpec::decrease(&left)->0,
    {
        let ghost (l0, r0) = (vstd::std_specs::iter::IteratorSpec::remaining(&left), vstd::std_specs::iter::IteratorSpec::remaining(&right));
        match (left.next(), right.next()) {
            (None, None) => {
                return 0;
            },
            (None, Some(_)) => {
                return -1;
            },
            (Some(_), None) => {
                return 1;
            },
            (Some(x), Some(y)) => {
                assert(l0[0] == x && r0[0] == y);
                if x < y {
                    return -1;
                }
                if x > y {
                    return 1;
                }
                assert(char_order()(l0[0], r0[0]) == 0);
            },
        }
    }
}

} // verus!
