//! Filesystem paths as the walk sees them: a text and the components it falls into.

use vstd::prelude::*;

use crate::order::{
    begins_with, byte_order, compare_bytes, int_order, is_total_order,
    law_beginning_agrees_place_by_place, law_bytes_compare_by_the_first_difference,
    law_first_difference_decides, lemma_byte_order, lemma_lex_is_total_order, lemma_lex_zero, lex,
    lex_order,
};

verus! {

/// One component of a path, with names in the platform's own encoding.
#[derive(Debug)]
pub enum PathPart {
    /// A drive or share prefix.
    Prefix(Vec<u8>),
    /// The root directory.
    RootDir,
    /// The current directory, `.`.
    CurDir,
    /// The parent directory, `..`.
    ParentDir,
    /// The name of a file or directory.
    Normal(Vec<u8>),
}

/// What a component is, as far as comparison goes: its kind and its name.
pub type PartModel = (int, Seq<u8>);

impl View for PathPart {
    type V = PartModel;

    open spec fn view(&self) -> PartModel {
        match *self {
            PathPart::Prefix(name) => (0, name@),
            PathPart::RootDir => (1, Seq::empty()),
            PathPart::CurDir => (2, Seq::empty()),
            PathPart::ParentDir => (3, Seq::empty()),
            PathPart::Normal(name) => (4, name@),
        }
    }
}

/// Components compare by kind, and within one kind by the bytes of their names.
pub open spec fn part_order() -> spec_fn(PartModel, PartModel) -> int {
    |a: PartModel, b: PartModel|
        if a.0 != b.0 {
            int_order(a.0, b.0)
        } else {
            lex(byte_order(), a.1, b.1)
        }
}

/// Paths compare component by component.
pub open spec fn path_order(a: Seq<PartModel>, b: Seq<PartModel>) -> int {
    lex(part_order(), a, b)
}

/// `p` lies in the tree that `top` heads, below `top` itself.
pub open spec fn strictly_under(p: Seq<PartModel>, top: Seq<PartModel>) -> bool {
    begins_with(p, top) && p != top
}

pub proof fn lemma_part_order()
    ensures
        is_total_order(part_order()),
{
    lemma_byte_order();
    lemma_lex_is_total_order(byte_order());
    let rel = part_order();
    let names = lex_order(byte_order());
    assert forall|a: PartModel, b: PartModel| -1 <= #[trigger] rel(a, b) <= 1 by {
        assert(-1 <= names(a.1, b.1) <= 1);
    }
    assert forall|a: PartModel, b: PartModel| #[trigger] rel(a, b) == 0 <==> a == b by {
        assert(names(a.1, b.1) == 0 <==> a.1 == b.1);
    }
    assert forall|a: PartModel, b: PartModel| #[trigger] rel(a, b) == -rel(b, a) by {
        assert(names(a.1, b.1) == -names(b.1, a.1));
    }
    assert forall|a: PartModel, b: PartModel, c: PartModel|
        #[trigger] rel(a, b) <= 0 && #[trigger] rel(b, c) <= 0 implies rel(a, c) <= 0 by {
        if a.0 == b.0 && b.0 == c.0 {
            assert(names(a.1, b.1) <= 0 && names(b.1, c.1) <= 0);
        }
    }
}

/// The order of paths is total.
pub proof fn lemma_path_order()
    ensures
        is_total_order(lex_order(part_order())),
        forall|a: Seq<PartModel>, b: Seq<PartModel>|
            #[trigger] path_order(a, b) == lex_order(part_order())(a, b),
{
    lemma_part_order();
    lemma_lex_is_total_order(part_order());
}

/// The name that a component carries, if it is of a kind that carries one.
pub open spec fn name_of(part: PathPart) -> Option<Seq<u8>> {
    match part {
        PathPart::Prefix(name) => Some(name@),
        PathPart::Normal(name) => Some(name@),
        _ => None,
    }
}

/// Components of different kinds compare by kind: a prefix, the root, the current directory, the
/// parent directory, a name. Two prefixes, and two names, compare by the first byte in which they
/// differ, whatever their lengths, and one comes before all longer ones that begin with it.
pub proof fn law_components_compare_by_kind_and_bytes(a: PathPart, b: PathPart, k: int)
    ensures
        a is Prefix && !(b is Prefix) ==> part_order()(a@, b@) == -1,
        a is RootDir && (b is CurDir || b is ParentDir || b is Normal) ==> part_order()(a@, b@)
            == -1,
        a is CurDir && (b is ParentDir || b is Normal) ==> part_order()(a@, b@) == -1,
        a is ParentDir && b is Normal ==> part_order()(a@, b@) == -1,
        b is Prefix && !(a is Prefix) ==> part_order()(a@, b@) == 1,
        b is RootDir && (a is CurDir || a is ParentDir || a is Normal) ==> part_order()(a@, b@)
            == 1,
        b is CurDir && (a is ParentDir || a is Normal) ==> part_order()(a@, b@) == 1,
        b is ParentDir && a is Normal ==> part_order()(a@, b@) == 1,
        a is RootDir && b is RootDir ==> part_order()(a@, b@) == 0,
        a is CurDir && b is CurDir ==> part_order()(a@, b@) == 0,
        a is ParentDir && b is ParentDir ==> part_order()(a@, b@) == 0,
        (a is Prefix && b is Prefix) || (a is Normal && b is Normal) ==> {
            let (x, y) = (name_of(a)->0, name_of(b)->0);
            0 <= k <= x.len() && k <= y.len() && (forall|i: int|
                0 <= i < k ==> #[trigger] x[i] == y[i]) ==> {
                &&& k < x.len() && k < y.len() && x[k] < y[k] ==> part_order()(a@, b@) == -1
                &&& k < x.len() && k < y.len() && x[k] > y[k] ==> part_order()(a@, b@) == 1
                &&& k == x.len() && k < y.len() ==> part_order()(a@, b@) == -1
                &&& k < x.len() && k == y.len() ==> part_order()(a@, b@) == 1
                &&& k == x.len() && k == y.len() ==> part_order()(a@, b@) == 0
            }
        },
{
    lemma_byte_order();
    if (a is Prefix && b is Prefix) || (a is Normal && b is Normal) {
        let (x, y) = (name_of(a)->0, name_of(b)->0);
        if 0 <= k <= x.len() && k <= y.len() && (forall|i: int|
            0 <= i < k ==> #[trigger] x[i] == y[i]) {
            law_bytes_compare_by_the_first_difference(x, y, k);
        }
    } else {
        lemma_lex_zero(byte_order(), Seq::empty(), Seq::empty());
    }
}

/// Paths compare by the first component in which they differ, and a path comes before all that is
/// in it.
pub proof fn law_paths_compare_by_the_first_difference(a: SourcePath, b: SourcePath, c: int)
    requires
        0 <= c <= a.parts@.len(),
        c <= b.parts@.len(),
        forall|i: int| 0 <= i < c ==> (#[trigger] a.parts@[i])@ == b.parts@[i]@,
    ensures
        c < a.parts@.len() && c < b.parts@.len() && part_order()(a.parts@[c]@, b.parts@[c]@) != 0
            ==> path_order(a@, b@) == part_order()(a.parts@[c]@, b.parts@[c]@),
        c == a.parts@.len() && c < b.parts@.len() ==> path_order(a@, b@) == -1,
        c < a.parts@.len() && c == b.parts@.len() ==> path_order(a@, b@) == 1,
        c == a.parts@.len() && c == b.parts@.len() ==> path_order(a@, b@) == 0,
{
    lemma_part_order();
    assert forall|i: int| 0 <= i < c implies #[trigger] a@[i] == b@[i] by {
        assert(a.parts@[i]@ == b.parts@[i]@);
    }
    if c < a.parts@.len() && c < b.parts@.len() {
        assert(part_order()(a@[c], b@[c]) == 0 <==> a@[c] == b@[c]);
    }
    law_first_difference_decides(part_order(), a@, b@, c);
}

/// One path lies below another exactly if it is longer and agrees with it in all its components.
pub proof fn law_below_means_longer_and_agreeing(p: SourcePath, top: SourcePath)
    ensures
        strictly_under(p@, top@) <==> {
            &&& p.parts@.len() > top.parts@.len()
            &&& forall|i: int|
                0 <= i < top.parts@.len() ==> (#[trigger] p.parts@[i])@ == top.parts@[i]@
        },
        begins_with(p@, top@) <==> {
            &&& p.parts@.len() >= top.parts@.len()
            &&& forall|i: int|
                0 <= i < top.parts@.len() ==> (#[trigger] p.parts@[i])@ == top.parts@[i]@
        },
{
    law_beginning_agrees_place_by_place(p@, top@);
    assert(forall|i: int| 0 <= i < p@.len() ==> #[trigger] p@[i] == p.parts@[i]@);
    assert(forall|i: int| 0 <= i < top@.len() ==> #[trigger] top@[i] == top.parts@[i]@);
    if begins_with(p@, top@) {
        assert forall|i: int| 0 <= i < top.parts@.len() implies (#[trigger] p.parts@[i])@
            == top.parts@[i]@ by {
            assert(p@[i] == top@[i]);
        }
        if p@.len() == top@.len() {
            assert(p@.take(top@.len() as int) =~= p@);
        }
    }
    if p.parts@.len() >= top.parts@.len() && (forall|i: int|
        0 <= i < top.parts@.len() ==> (#[trigger] p.parts@[i])@ == top.parts@[i]@) {
        assert forall|i: int| 0 <= i < top@.len() implies #[trigger] p@[i] == top@[i] by {
            assert(p.parts@[i]@ == top.parts@[i]@);
        }
    }
}

fn copy_bytes(bytes: &Vec<u8>) -> (r: Vec<u8>)
    ensures
        r@ == bytes@,
{
    let mut r: Vec<u8> = Vec::new();
    r.extend_from_slice(bytes.as_slice());
    assert(r@ =~= bytes@);
    r
}

impl PathPart {
    /// A second copy of the component.
    pub fn duplicate(&self) -> (r: PathPart)
        ensures
            r@ == self@,
    {
        match self {
            PathPart::Prefix(name) => PathPart::Prefix(copy_bytes(name)),
            PathPart::RootDir => PathPart::RootDir,
            PathPart::CurDir => PathPart::CurDir,
            PathPart::ParentDir => PathPart::ParentDir,
            PathPart::Normal(name) => PathPart::Normal(copy_bytes(name)),
        }
    }

    fn kind(&self) -> (r: u8)
        ensures
            r as int == self@.0,
    {
        match self {
            PathPart::Prefix(_) => 0,
            PathPart::RootDir => 1,
            PathPart::CurDir => 2,
            PathPart::ParentDir => 3,
            PathPart::Normal(_) => 4,
        }
    }

    /// Compares two components: negative, zero or positive as `self` comes before, with or
    /// after `other`.
    pub fn compare(&self, other: &PathPart) -> (r: i8)
        ensures
            r as int == part_order()(self@, other@),
    {
        let (a, b): (u8, u8) = (self.kind(), other.kind());
        if a < b {
            return -1;
        }
        if a > b {
            return 1;
        }
        match (self, other) {
            (PathPart::Prefix(x), PathPart::Prefix(y)) => compare_bytes(x.as_slice(), y.as_slice()),
            (PathPart::Normal(x), PathPart::Normal(y)) => compare_bytes(x.as_slice(), y.as_slice()),
            _ => 0,
        }
    }
}

/// A path: the text the platform knows it by, and the components of that text.
///
/// Comparison and containment go by the components alone.
#[derive(Debug)]
pub struct SourcePath {
    /// The path as the platform writes it, in the platform's own encoding.
    pub text: Vec<u8>,
    /// The components of `text`, outermost first.
    pub parts: Vec<PathPart>,
}

impl View for SourcePath {
    type V = Seq<PartModel>;

    open spec fn view(&self) -> Seq<PartModel> {
        self.parts@.map_values(|p: PathPart| p@)
    }
}

impl SourcePath {
    /// A second copy of the path.
    pub fn duplicate(&self) -> (r: SourcePath)
        ensures
            r@ == self@,
            r.text@ == self.text@,
    {
        let mut parts: Vec<PathPart> = Vec::new();
        let mut i: usize = 0;
        while i < self.parts.len()
            invariant
                i <= self.parts@.len(),
                parts@.len() == i,
                forall|k: int| 0 <= k < i ==> (#[trigger] parts@[k])@ == self.parts@[k]@,
            decreases self.parts.len() - i,
        {
            parts.push(self.parts[i].duplicate());
            i = i + 1;
        }
        let r = SourcePath { text: copy_bytes(&self.text), parts };
        assert(r@ =~= self@);
        r
    }

    /// Compares two paths component by component: negative, zero or positive as `self` comes
    /// before, with or after `other`.
    pub fn compare(&self, other: &SourcePath) -> (r: i8)
        ensures
            r as int == path_order(self@, other@),
    {
        let mut i: usize = 0;
        proof {
            lemma_part_order();
            assert(self@.skip(0) =~= self@);
            assert(other@.skip(0) =~= other@);
        }
        while i < self.parts.len() && i < other.parts.len()
            invariant
                i <= self@.len(),
                i <= other@.len(),
                self@.len() == self.parts@.len(),
                other@.len() == other.parts@.len(),
                is_total_order(part_order()),
                path_order(self@, other@) == path_order(
                    self@.skip(i as int),
                    other@.skip(i as int),
                ),
            decreases self.parts.len() - i,
        {
            let c: i8 = self.parts[i].compare(&other.parts[i]);
            assert(self@.skip(i as int)[0] == self.parts@[i as int]@);
            assert(other@.skip(i as int)[0] == other.parts@[i as int]@);
            if c != 0 {
                return c;
            }
            assert(self@.skip(i as int).drop_first() =~= self@.skip(i + 1));
            assert(other@.skip(i as int).drop_first() =~= other@.skip(i + 1));
            i = i + 1;
        }
        if i < other.parts.len() {
            -1
        } else if i < self.parts.len() {
            1
        } else {
            0
        }
    }

    /// Tells whether `base` is an initial segment of this path, whole components compared.
    pub fn starts_with(&self, base: &SourcePath) -> (r: bool)
        ensures
            r == begins_with(self@, base@),
    {
        if base.parts.len() > self.parts.len() {
            return false;
        }
        proof {
            lemma_part_order();
        }
        let mut i: usize = 0;
        while i < base.parts.len()
            invariant
                i <= base.parts@.len() <= self.parts@.len(),
                is_total_order(part_order()),
                forall|k: int| 0 <= k < i ==> self@[k] == #[trigger] base@[k],
            decreases base.parts.len() - i,
        {
            if self.parts[i].compare(&base.parts[i]) != 0 {
                assert(self@[i as int] != base@[i as int]) by {
                    assert(part_order()(self@[i as int], base@[i as int]) != 0);
                }
                assert(self@.take(base@.len() as int)[i as int] == self@[i as int]);
                return false;
            }
            assert(part_order()(self@[i as int], base@[i as int]) == 0);
            i = i + 1;
        }
        assert(self@.take(base@.len() as int) =~= base@);
        true
    }

    /// Tells whether this path lies below `top`, and is not `top` itself.
    pub fn is_strictly_under(&self, top: &SourcePath) -> (r: bool)
        ensures
            r == strictly_under(self@, top@),
    {
        let inside: bool = self.starts_with(top);
        let differs: bool = self.parts.len() != top.parts.len();
        proof {
            if begins_with(self@, top@) && self@.len() == top@.len() {
                assert(self@.take(top@.len() as int) =~= self@);
            }
        }
        inside && differs
    }
}

} // verus!
