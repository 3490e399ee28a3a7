//! Windows per-file metadata as repository nodes carry it: a map from attribute names to values.
//!
//! | Key | Value |
//! |---|---|
//! | `windows.security_descriptor` | text: base64 of the self-relative security descriptor |
//! | `windows.file_attributes`     | number: the `FILE_ATTRIBUTE_*` bits |
//! | `windows.creation_time`       | the two halves of the creation `FILETIME` |
//! | `windows.sparse_extents`      | offset and length of each allocated extent |
//! | `windows.reparse_point`       | reparse tag, and base64 of the reparse data |

use std::cmp::Ordering;

use vstd::prelude::*;

use crate::order::{
    char_order, compare_text, int_order, is_total_order, law_first_difference_decides,
    law_texts_compare_by_the_first_difference, lemma_char_order, lemma_lex_is_total_order,
    lemma_pair_order, lex, lex_order, pair_order,
};

verus! {

/// One value of the map.
#[derive(Debug, PartialEq, Eq, Hash, Ord)]
pub enum GenericAttributeValue {
    /// When the file was created.
    CreationTime(WindowsFiletime),
    /// The `FILE_ATTRIBUTE_*` bits.
    U32(u32),
    /// The base64 text of a security descriptor.
    String(String),
    /// Offset and length of each allocated extent.
    SparseExtents(Vec<[i64; 2]>),
    /// A captured reparse point.
    ReparsePoint(ReparseBlob),
}

/// The two halves of a 64-bit `FILETIME`.
#[derive(Clone, Copy, Debug, PartialEq, Eq, Hash, Ord)]
pub struct WindowsFiletime {
    /// High-order 32 bits of the 64-bit value.
    pub high_date_time: u32,
    /// Low-order 32 bits of the 64-bit value.
    pub low_date_time: u32,
}

/// A captured reparse point: its tag, and the base64 text of the data behind the fixed header.
#[derive(Debug, PartialEq, Eq, Hash, PartialOrd, Ord)]
pub struct ReparseBlob {
    /// The reparse tag.
    pub tag: u32,
    /// The base64 text of the reparse data.
    pub data: String,
}

/// What an attribute value holds.
pub enum ValueModel {
    /// A time, as the count of its ticks.
    CreationTime(int),
    /// A number.
    U32(u32),
    /// A text.
    String(Seq<char>),
    /// Offset and length of each extent.
    SparseExtents(Seq<(int, int)>),
    /// Tag and base64 text.
    ReparsePoint(u32, Seq<char>),
}

impl WindowsFiletime {
    /// The 64-bit value that the two halves make up.
    pub open spec fn ticks(self) -> int {
        self.high_date_time as int * 0x1_0000_0000 + self.low_date_time as int
    }

    /// The order in time of two values.
    pub fn compare(&self, other: &WindowsFiletime) -> (r: i8)
        ensures
            r as int == int_order(self.ticks(), other.ticks()),
    {
        if self.high_date_time < other.high_date_time {
            -1
        } else if self.high_date_time > other.high_date_time {
            1
        } else if self.low_date_time < other.low_date_time {
            -1
        } else if self.low_date_time > other.low_date_time {
            1
        } else {
            0
        }
    }
}

impl View for GenericAttributeValue {
    type V = ValueModel;

    open spec fn view(&self) -> ValueModel {
        match *self {
            GenericAttributeValue::CreationTime(t) => ValueModel::CreationTime(t.ticks()),
            GenericAttributeValue::U32(n) => ValueModel::U32(n),
            GenericAttributeValue::String(s) => ValueModel::String(s@),
            GenericAttributeValue::SparseExtents(e) => ValueModel::SparseExtents(extents_model(e@)),
            GenericAttributeValue::ReparsePoint(b) => ValueModel::ReparsePoint(b.tag, b.data@),
        }
    }
}

impl Clone for ReparseBlob {
    fn clone(&self) -> (r: ReparseBlob)
        ensures
            r == *self,
    {
        ReparseBlob { tag: self.tag, data: self.data.clone() }
    }
}

impl Clone for GenericAttributeValue {
    fn clone(&self) -> (r: GenericAttributeValue)
        ensures
            r@ == self@,
    {
        match self {
            GenericAttributeValue::CreationTime(t) => GenericAttributeValue::CreationTime(*t),
            GenericAttributeValue::U32(n) => GenericAttributeValue::U32(*n),
            GenericAttributeValue::String(s) => GenericAttributeValue::String(s.clone()),
            GenericAttributeValue::SparseExtents(e) => {
                let mut copy: Vec<[i64; 2]> = Vec::new();
                let mut i: usize = 0;
                while i < e.len()
                    invariant
                        i <= e@.len(),
                        copy@ == e@.take(i as int),
                    decreases e.len() - i,
                {
                    copy.push(e[i]);
                    assert(copy@ =~= e@.take(i + 1));
                    i = i + 1;
                }
                assert(copy@ =~= e@);
                GenericAttributeValue::SparseExtents(copy)
            },
            GenericAttributeValue::ReparsePoint(b) => {
                GenericAttributeValue::ReparsePoint(b.clone())
            },
        }
    }
}

/// Extents as pairs of offset and length.
pub open spec fn extents_model(e: Seq<[i64; 2]>) -> Seq<(int, int)> {
    e.map_values(|x: [i64; 2]| (x[0] as int, x[1] as int))
}

/// The place of a value's kind among the kinds.
pub open spec fn kind_rank(v: ValueModel) -> int {
    match v {
        ValueModel::CreationTime(_) => 0,
        ValueModel::U32(_) => 1,
        ValueModel::String(_) => 2,
        ValueModel::SparseExtents(_) => 3,
        ValueModel::ReparsePoint(_, _) => 4,
    }
}

/// Values compare by kind first, and within one kind by content.
pub open spec fn value_order() -> spec_fn(ValueModel, ValueModel) -> int {
    |a: ValueModel, b: ValueModel|
        match (a, b) {
            (ValueModel::CreationTime(x), ValueModel::CreationTime(y)) => int_order(x, y),
            (ValueModel::U32(x), ValueModel::U32(y)) => int_order(x as int, y as int),
            (ValueModel::String(x), ValueModel::String(y)) => lex(char_order(), x, y),
            (ValueModel::SparseExtents(x), ValueModel::SparseExtents(y)) => lex(
                pair_order(),
                x,
                y,
            ),
            (ValueModel::ReparsePoint(s, x), ValueModel::ReparsePoint(t, y)) => if s != t {
                int_order(s as int, t as int)
            } else {
                lex(char_order(), x, y)
            },
            _ => int_order(kind_rank(a), kind_rank(b)),
        }
}

/// The order of values is total, and ties only equal values.
pub proof fn law_value_order_is_total()
    ensures
        is_total_order(value_order()),
{
    lemma_char_order();
    lemma_pair_order();
    lemma_lex_is_total_order(char_order());
    lemma_lex_is_total_order(pair_order());
    let rel = value_order();
    let texts = lex_order(char_order());
    let lists = lex_order(pair_order());
    assert forall|a: ValueModel, b: ValueModel| -1 <= #[trigger] rel(a, b) <= 1 by {
        lemma_value_pair(a, b);
    }
    assert forall|a: ValueModel, b: ValueModel| #[trigger] rel(a, b) == 0 <==> a == b by {
        lemma_value_pair(a, b);
    }
    assert forall|a: ValueModel, b: ValueModel| #[trigger] rel(a, b) == -rel(b, a) by {
        lemma_value_pair(a, b);
    }
    assert forall|a: ValueModel, b: ValueModel, c: ValueModel|
        #[trigger] rel(a, b) <= 0 && #[trigger] rel(b, c) <= 0 implies rel(a, c) <= 0 by {
        match (a, b, c) {
            (ValueModel::String(x), ValueModel::String(y), ValueModel::String(z)) => {
                assert(texts(x, y) <= 0 && texts(y, z) <= 0);
            },
            (
                ValueModel::SparseExtents(x),
                ValueModel::SparseExtents(y),
                ValueModel::SparseExtents(z),
            ) => {
                assert(lists(x, y) <= 0 && lists(y, z) <= 0);
            },
            (
                ValueModel::ReparsePoint(r, x),
                ValueModel::ReparsePoint(s, y),
                ValueModel::ReparsePoint(t, z),
            ) => {
                if r == s && s == t {
                    assert(texts(x, y) <= 0 && texts(y, z) <= 0);
                }
            },
            _ => {},
        }
    }
}

proof fn lemma_value_pair(a: ValueModel, b: ValueModel)
    ensures
        -1 <= value_order()(a, b) <= 1,
        value_order()(a, b) == 0 <==> a == b,
        value_order()(a, b) == -value_order()(b, a),
{
    lemma_char_order();
    lemma_pair_order();
    lemma_lex_is_total_order(char_order());
    lemma_lex_is_total_order(pair_order());
    let texts = lex_order(char_order());
    let lists = lex_order(pair_order());
    match (a, b) {
        (ValueModel::String(x), ValueModel::String(y)) => {
            assert(-1 <= texts(x, y) <= 1);
            assert(texts(x, y) == -texts(y, x));
        },
        (ValueModel::SparseExtents(x), ValueModel::SparseExtents(y)) => {
            assert(-1 <= lists(x, y) <= 1);
            assert(lists(x, y) == -lists(y, x));
        },
        (ValueModel::ReparsePoint(_, x), ValueModel::ReparsePoint(_, y)) => {
            assert(-1 <= texts(x, y) <= 1);
            assert(texts(x, y) == -texts(y, x));
        },
        _ => {},
    }
}

/// The order in time is the order by high half, then low half.
pub proof fn law_filetime_order_is_chronological(a: WindowsFiletime, b: WindowsFiletime)
    ensures
        a.ticks() < b.ticks() <==> (a.high_date_time < b.high_date_time || (a.high_date_time
            == b.high_date_time && a.low_date_time < b.low_date_time)),
        a.ticks() == b.ticks() <==> a == b,
{
}

/// Values of different kinds compare by kind: times, numbers, texts, extents, reparse points.
pub proof fn law_kinds_of_values_are_in_order(a: GenericAttributeValue, b: GenericAttributeValue)
    ensures
        a is CreationTime && !(b is CreationTime) ==> value_order()(a@, b@) == -1,
        a is U32 && (b is String || b is SparseExtents || b is ReparsePoint) ==> value_order()(
            a@,
            b@,
        ) == -1,
        a is String && (b is SparseExtents || b is ReparsePoint) ==> value_order()(a@, b@) == -1,
        a is SparseExtents && b is ReparsePoint ==> value_order()(a@, b@) == -1,
        b is CreationTime && !(a is CreationTime) ==> value_order()(a@, b@) == 1,
        b is U32 && (a is String || a is SparseExtents || a is ReparsePoint) ==> value_order()(
            a@,
            b@,
        ) == 1,
        b is String && (a is SparseExtents || a is ReparsePoint) ==> value_order()(a@, b@) == 1,
        b is SparseExtents && a is ReparsePoint ==> value_order()(a@, b@) == 1,
{
}

/// Times compare by high half, then low half, and numbers by size.
pub proof fn law_times_and_numbers_compare_by_size(
    s: WindowsFiletime,
    t: WindowsFiletime,
    m: u32,
    n: u32,
)
    ensures
        ({
            let sign = value_order()(
                GenericAttributeValue::CreationTime(s)@,
                GenericAttributeValue::CreationTime(t)@,
            );
            &&& s.high_date_time < t.high_date_time ==> sign == -1
            &&& s.high_date_time > t.high_date_time ==> sign == 1
            &&& s.high_date_time == t.high_date_time && s.low_date_time < t.low_date_time ==> sign
                == -1
            &&& s.high_date_time == t.high_date_time && s.low_date_time > t.low_date_time ==> sign
                == 1
            &&& s.high_date_time == t.high_date_time && s.low_date_time == t.low_date_time ==> sign
                == 0
        }),
        ({
            let sign = value_order()(
                GenericAttributeValue::U32(m)@,
                GenericAttributeValue::U32(n)@,
            );
            &&& m < n ==> sign == -1
            &&& m > n ==> sign == 1
            &&& m == n ==> sign == 0
        }),
{
}

/// Texts compare by the first character in which they differ, and one comes before all longer ones
/// that begin with it. Reparse points compare by tag, and with one tag by their texts in this way.
/// The two texts agree in `k` characters.
pub proof fn law_texts_and_reparse_points_compare_by_the_first_difference(
    s: String,
    t: String,
    a: u32,
    b: u32,
    k: int,
)
    requires
        0 <= k <= s@.len(),
        k <= t@.len(),
        forall|i: int| 0 <= i < k ==> #[trigger] s@[i] == t@[i],
    ensures
        ({
            let texts = value_order()(
                GenericAttributeValue::String(s)@,
                GenericAttributeValue::String(t)@,
            );
            let points = value_order()(
                GenericAttributeValue::ReparsePoint(ReparseBlob { tag: a, data: s })@,
                GenericAttributeValue::ReparsePoint(ReparseBlob { tag: b, data: t })@,
            );
            &&& k < s@.len() && k < t@.len() && s@[k] < t@[k] ==> texts == -1
            &&& k < s@.len() && k < t@.len() && s@[k] > t@[k] ==> texts == 1
            &&& k == s@.len() && k < t@.len() ==> texts == -1
            &&& k < s@.len() && k == t@.len() ==> texts == 1
            &&& k == s@.len() && k == t@.len() ==> texts == 0
            &&& a < b ==> points == -1
            &&& a > b ==> points == 1
            &&& a == b ==> points == texts
        }),
{
    law_texts_compare_by_the_first_difference(s@, t@, k);
}

/// Lists of extents compare by the first extent in which they differ: by its offset and, where the
/// offsets agree, by its length. The two lists agree in `k` extents.
pub proof fn law_extents_compare_by_the_first_difference(
    a: Vec<[i64; 2]>,
    b: Vec<[i64; 2]>,
    k: int,
)
    requires
        0 <= k <= a@.len(),
        k <= b@.len(),
        forall|i: int|
            0 <= i < k ==> (#[trigger] a@[i])[0] == b@[i][0] && a@[i][1] == b@[i][1],
    ensures
        ({
            let sign = value_order()(
                GenericAttributeValue::SparseExtents(a)@,
                GenericAttributeValue::SparseExtents(b)@,
            );
            &&& k < a@.len() && k < b@.len() ==> {
                &&& a@[k][0] < b@[k][0] ==> sign == -1
                &&& a@[k][0] > b@[k][0] ==> sign == 1
                &&& a@[k][0] == b@[k][0] && a@[k][1] < b@[k][1] ==> sign == -1
                &&& a@[k][0] == b@[k][0] && a@[k][1] > b@[k][1] ==> sign == 1
            }
            &&& k == a@.len() && k < b@.len() ==> sign == -1
            &&& k < a@.len() && k == b@.len() ==> sign == 1
            &&& k == a@.len() && k == b@.len() ==> sign == 0
        }),
{
    lemma_pair_order();
    let (p, q) = (extents_model(a@), extents_model(b@));
    assert forall|i: int| 0 <= i < k implies #[trigger] p[i] == q[i] by {
        assert(a@[i][0] == b@[i][0]);
    }
    if k < a@.len() && k < b@.len() {
        assert(p[k] == (a@[k][0] as int, a@[k][1] as int));
        assert(q[k] == (b@[k][0] as int, b@[k][1] as int));
    }
    law_first_difference_decides(pair_order(), p, q, k);
}

fn compare_extents(a: &Vec<[i64; 2]>, b: &Vec<[i64; 2]>) -> (r: i8)
    ensures
        r as int == lex(pair_order(), extents_model(a@), extents_model(b@)),
{
    let mut i: usize = 0;
    let ghost (ma, mb) = (extents_model(a@), extents_model(b@));
    proof {
        assert(ma.skip(0) =~= ma);
        assert(mb.skip(0) =~= mb);
    }
    while i < a.len() && i < b.len()
        invariant
            ma == extents_model(a@),
            mb == extents_model(b@),
            i <= a@.len(),
            i <= b@.len(),
            lex(pair_order(), ma, mb) == lex(pair_order(), ma.skip(i as int), mb.skip(i as int)),
        decreases a.len() - i,
    {
        let (x, y): ([i64; 2], [i64; 2]) = (a[i], b[i]);
        assert(ma.skip(i as int)[0] == (x[0] as int, x[1] as int));
        assert(mb.skip(i as int)[0] == (y[0] as int, y[1] as int));
        if x[0] < y[0] {
            return -1;
        }
        if x[0] > y[0] {
            return 1;
        }
        if x[1] < y[1] {
            return -1;
        }
        if x[1] > y[1] {
            return 1;
        }
        assert(ma.skip(i as int).drop_first() =~= ma.skip(i + 1));
        assert(mb.skip(i as int).drop_first() =~= mb.skip(i + 1));
        i = i + 1;
    }
    if i < b.len() {
        -1
    } else if i < a.len() {
        1
    } else {
        0
    }
}

impl GenericAttributeValue {
    fn rank(&self) -> (r: u8)
        ensures
            r as int == kind_rank(self@),
    {
        match self {
            GenericAttributeValue::CreationTime(_) => 0,
            GenericAttributeValue::U32(_) => 1,
            GenericAttributeValue::String(_) => 2,
            GenericAttributeValue::SparseExtents(_) => 3,
            GenericAttributeValue::ReparsePoint(_) => 4,
        }
    }

    /// Compares by kind first, then by content: negative, zero or positive as `self` comes
    /// before, with or after `other`.
    pub fn compare(&self, other: &GenericAttributeValue) -> (r: i8)
        ensures
            r as int == value_order()(self@, other@),
    {
        let (m, n): (u8, u8) = (self.rank(), other.rank());
        if m < n {
            return -1;
        }
        if m > n {
            return 1;
        }
        match (self, other) {
            (GenericAttributeValue::CreationTime(a), GenericAttributeValue::CreationTime(b)) => {
                a.compare(b)
            },
            (GenericAttributeValue::U32(a), GenericAttributeValue::U32(b)) => if *a < *b {
                -1
            } else if *a > *b {
                1
            } else {
                0
            },
            (GenericAttributeValue::String(a), GenericAttributeValue::String(b)) => {
                compare_text(a.as_str(), b.as_str())
            },
            (GenericAttributeValue::SparseExtents(a), GenericAttributeValue::SparseExtents(b)) => {
                compare_extents(a, b)
            },
            (GenericAttributeValue::ReparsePoint(a), GenericAttributeValue::ReparsePoint(b)) => {
                if a.tag < b.tag {
                    -1
                } else if a.tag > b.tag {
                    1
                } else {
                    compare_text(a.data.as_str(), b.data.as_str())
                }
            },
            _ => 0,
        }
    }
}

/// The outcome of a comparison for its sign.
pub open spec fn sign_ordering(sign: int) -> Ordering {
    if sign < 0 {
        Ordering::Less
    } else if sign == 0 {
        Ordering::Equal
    } else {
        Ordering::Greater
    }
}

fn ordering_of(sign: i8) -> (r: Ordering)
    ensures
        r == sign_ordering(sign + 0),
{
    if sign < 0 {
        Ordering::Less
    } else if sign == 0 {
        Ordering::Equal
    } else {
        Ordering::Greater
    }
}

/// The outcome of comparing two times.
pub open spec fn filetime_ordering(a: WindowsFiletime, b: WindowsFiletime) -> Ordering {
    sign_ordering(int_order(a.ticks(), b.ticks()))
}

/// The outcome of comparing two values.
pub open spec fn value_ordering(a: ValueModel, b: ValueModel) -> Ordering {
    sign_ordering(value_order()(a, b))
}

/// A comparison comes out as less, equal or greater by its sign.
pub proof fn law_outcomes_follow_the_sign(
    a: ValueModel,
    b: ValueModel,
    s: WindowsFiletime,
    t: WindowsFiletime,
)
    ensures
        value_order()(a, b) == -1 ==> value_ordering(a, b) == Ordering::Less,
        value_order()(a, b) == 0 ==> value_ordering(a, b) == Ordering::Equal,
        value_order()(a, b) == 1 ==> value_ordering(a, b) == Ordering::Greater,
        filetime_ordering(s, t) == Ordering::Less <==> s.high_date_time < t.high_date_time || (
        s.high_date_time == t.high_date_time && s.low_date_time < t.low_date_time),
        filetime_ordering(s, t) == Ordering::Equal <==> s == t,
{
}

impl WindowsFiletime {
    /// The order in time of two values.
    pub fn cmp(&self, other: &WindowsFiletime) -> (r: Ordering)
        ensures
            r == filetime_ordering(*self, *other),
    {
        ordering_of(self.compare(other))
    }
}

impl GenericAttributeValue {
    /// Compares by kind first, then by content.
    pub fn cmp(&self, other: &GenericAttributeValue) -> (r: Ordering)
        ensures
            r == value_ordering(self@, other@),
    {
        ordering_of(self.compare(other))
    }
}

impl PartialOrd for WindowsFiletime {
    fn partial_cmp(&self, other: &WindowsFiletime) -> (r: Option<Ordering>) {
        Some(ordering_of(self.compare(other)))
    }
}

impl vstd::std_specs::cmp::PartialOrdSpecImpl for WindowsFiletime {
    open spec fn obeys_partial_cmp_spec() -> bool {
        true
    }

    open spec fn partial_cmp_spec(&self, other: &WindowsFiletime) -> Option<Ordering> {
        Some(filetime_ordering(*self, *other))
    }
}

impl PartialOrd for GenericAttributeValue {
    fn partial_cmp(&self, other: &GenericAttributeValue) -> (r: Option<Ordering>) {
        Some(ordering_of(self.compare(other)))
    }
}

impl vstd::std_specs::cmp::PartialOrdSpecImpl for GenericAttributeValue {
    open spec fn obeys_partial_cmp_spec() -> bool {
        true
    }

    open spec fn partial_cmp_spec(&self, other: &GenericAttributeValue) -> Option<Ordering> {
        Some(value_ordering(self@, other@))
    }
}

/// What a value holds is what its field holds, extent by extent.
pub proof fn law_value_model_is_the_value(v: GenericAttributeValue)
    ensures
        v matches GenericAttributeValue::CreationTime(t) ==> v@ == ValueModel::CreationTime(
            t.high_date_time * 0x1_0000_0000 + t.low_date_time,
        ),
        v matches GenericAttributeValue::U32(n) ==> v@ == ValueModel::U32(n),
        v matches GenericAttributeValue::String(s) ==> v@ == ValueModel::String(s@),
        v matches GenericAttributeValue::ReparsePoint(b) ==> v@ == ValueModel::ReparsePoint(
            b.tag,
            b.data@,
        ),
        v matches GenericAttributeValue::SparseExtents(e) ==> (
        v@ matches ValueModel::SparseExtents(list) && list.len() == e@.len() && forall|i: int|
            0 <= i < e@.len() ==> (#[trigger] list[i]).0 == e@[i][0] && list[i].1 == e@[i][1]),
{
}

} // verus!
