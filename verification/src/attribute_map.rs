//! The map from attribute names to values, kept in the order in which it is written out.

use vstd::prelude::*;

use crate::generic_attributes::{GenericAttributeValue, ValueModel};
use crate::order::{
    char_order, compare_text, is_total_order, law_texts_compare_by_the_first_difference,
    lemma_char_order, lemma_lex_is_total_order, lex, lex_order,
};

verus! {

/// Attribute values by name. Each name occurs once, and the names ascend.
#[derive(Debug)]
pub struct AttributeMap {
    entries: Vec<(String, GenericAttributeValue)>,
}

/// The names strictly ascend.
pub open spec fn ascending_names(names: Seq<Seq<char>>) -> bool {
    forall|i: int, j: int|
        0 <= i < j < names.len() ==> lex(
            char_order(),
            #[trigger] names[i],
            #[trigger] names[j],
        ) < 0
}

/// Of two ascending names the first one comes first by the first character in which they differ, or is
/// what the second one begins with. The two agree in `k` characters.
pub proof fn law_names_ascend_character_by_character(
    names: Seq<Seq<char>>,
    i: int,
    j: int,
    k: int,
)
    requires
        ascending_names(names),
        0 <= i < j < names.len(),
        0 <= k <= names[i].len(),
        k <= names[j].len(),
        forall|c: int| 0 <= c < k ==> #[trigger] names[i][c] == names[j][c],
    ensures
        k < names[j].len(),
        k < names[i].len() ==> names[i][k] <= names[j][k],
{
    assert(lex(char_order(), names[i], names[j]) < 0);
    law_texts_compare_by_the_first_difference(names[i], names[j], k);
}

impl View for AttributeMap {
    type V = Map<Seq<char>, ValueModel>;

    closed spec fn view(&self) -> Map<Seq<char>, ValueModel> {
        Map::new(
            |k: Seq<char>| exists|i: int| self.holds_at(k, i),
            |k: Seq<char>| self.entries@[choose|i: int| self.holds_at(k, i)].1@,
        )
    }
}

impl AttributeMap {
    spec fn holds_at(&self, k: Seq<char>, i: int) -> bool {
        0 <= i < self.entries@.len() && self.entries@[i].0@ == k
    }

    /// The names in the order in which they are written out.
    pub closed spec fn names(&self) -> Seq<Seq<char>> {
        self.entries@.map_values(|e: (String, GenericAttributeValue)| e.0@)
    }

    /// The values in the order of their names.
    pub closed spec fn values(&self) -> Seq<ValueModel> {
        self.entries@.map_values(|e: (String, GenericAttributeValue)| e.1@)
    }

    #[verifier::type_invariant]
    spec fn well_formed(self) -> bool {
        ascending_names(self.names())
    }

    /// What is written out, name by name, is what the map holds.
    pub proof fn law_listing_is_the_map(&self)
        requires
            ascending_names(self.names()),
        ensures
            self.values().len() == self.names().len(),
            forall|k: Seq<char>| #[trigger] self@.contains_key(k) <==> self.names().contains(k),
            forall|i: int|
                0 <= i < self.names().len() ==> self@.contains_key(#[trigger] self.names()[i])
                    && self@[self.names()[i]] == self.values()[i],
    {
        assert forall|k: Seq<char>| #[trigger] self@.contains_key(k) <==> self.names().contains(
            k,
        ) by {
            if self.names().contains(k) {
                let i = self.names().index_of(k);
                assert(self.holds_at(k, i));
            }
            if self@.contains_key(k) {
                let i = choose|i: int| self.holds_at(k, i);
                assert(self.names()[i] == k);
            }
        }
        assert forall|i: int| 0 <= i < self.names().len() implies self@.contains_key(
            #[trigger] self.names()[i],
        ) && self@[self.names()[i]] == self.values()[i] by {
            self.lemma_value_at(self.names()[i], i);
        }
    }

    proof fn lemma_value_at(&self, k: Seq<char>, i: int)
        requires
            self.well_formed(),
            self.holds_at(k, i),
        ensures
            self@.contains_key(k),
            self@[k] == self.entries@[i].1@,
    {
        let j = choose|j: int| self.holds_at(k, j);
        if i != j {
            lemma_char_order();
            lemma_lex_is_total_order(char_order());
            assert(lex_order(char_order())(k, k) == 0);
            assert(self.names()[i] == k && self.names()[j] == k);
        }
    }

    /// The empty map.
    pub fn new() -> (r: AttributeMap)
        ensures
            r@ == Map::<Seq<char>, ValueModel>::empty(),
    {
        let r = AttributeMap { entries: Vec::new() };
        assert(r@ =~= Map::<Seq<char>, ValueModel>::empty());
        r
    }

    /// The number of attributes.
    pub fn len(&self) -> (r: usize)
        ensures
            r == self.names().len(),
            ascending_names(self.names()),
    {
        proof {
            use_type_invariant(self);
        }
        self.entries.len()
    }

    /// The `i`th name in ascending order.
    pub fn name_at(&self, i: usize) -> (r: &str)
        requires
            i < self.names().len(),
        ensures
            r@ == self.names()[i as int],
    {
        self.entries[i].0.as_str()
    }

    /// The value that belongs to the `i`th name.
    pub fn value_at(&self, i: usize) -> (r: &GenericAttributeValue)
        requires
            i < self.names().len(),
        ensures
            r@ == self.values()[i as int],
    {
        &self.entries[i].1
    }

    /// The place of `key`, or the place at which it would have to stand.
    fn find(&self, key: &str) -> (r: (usize, bool))
        requires
            self.well_formed(),
        ensures
            r.0 <= self.entries@.len(),
            r.1 ==> r.0 < self.entries@.len() && self.entries@[r.0 as int].0@ == key@,
            forall|j: int|
                0 <= j < r.0 ==> lex(char_order(), (#[trigger] self.entries@[j]).0@, key@) < 0,
            !r.1 ==> forall|j: int|
                r.0 <= j < self.entries@.len() ==> lex(
                    char_order(),
                    key@,
                    (#[trigger] self.entries@[j]).0@,
                ) < 0,
    {
        proof {
            lemma_char_order();
            lemma_lex_is_total_order(char_order());
        }
        let ghost rel = lex_order(char_order());
        let mut i: usize = 0;
        while i < self.entries.len()
            invariant
                i <= self.entries@.len(),
                self.well_formed(),
                rel == lex_order(char_order()),
                is_total_order(rel),
                forall|j: int|
                    0 <= j < i ==> lex(char_order(), (#[trigger] self.entries@[j]).0@, key@) < 0,
            decreases self.entries.len() - i,
        {
            let c: i8 = compare_text(self.entries[i].0.as_str(), key);
            if c == 0 {
                assert(rel(self.entries@[i as int].0@, key@) == 0);
                return (i, true);
            }
            if c > 0 {
                assert forall|j: int| i <= j < self.entries@.len() implies lex(
                    char_order(),
                    key@,
                    (#[trigger] self.entries@[j]).0@,
                ) < 0 by {
                    let (a, b) = (self.entries@[i as int].0@, self.entries@[j].0@);
                    assert(rel(key@, a) == -rel(a, key@));
                    if j > i {
                        assert(self.names()[i as int] == a && self.names()[j] == b);
                        assert(rel(a, b) < 0);
                        assert(rel(key@, a) <= 0 && rel(a, b) <= 0);
                        assert(rel(key@, b) <= 0);
                        if rel(key@, b) == 0 {
                            assert(key@ == b);
                            assert(rel(a, b) > 0);
                        }
                    }
                }
                return (i, false);
            }
            i = i + 1;
        }
        (i, false)
    }

    /// Tells whether the map holds `key`.
    pub fn contains_key(&self, key: &str) -> (r: bool)
        ensures
            r == self@.contains_key(key@),
    {
        proof {
            use_type_invariant(self);
        }
        let (i, found): (usize, bool) = self.find(key);
        proof {
            if found {
                assert(self.holds_at(key@, i as int));
            } else {
                self.lemma_absent(key@, i as int);
            }
        }
        found
    }

    proof fn lemma_absent(&self, key: Seq<char>, i: int)
        requires
            0 <= i <= self.entries@.len(),
            forall|j: int|
                0 <= j < i ==> lex(char_order(), (#[trigger] self.entries@[j]).0@, key) < 0,
            forall|j: int|
                i <= j < self.entries@.len() ==> lex(
                    char_order(),
                    key,
                    (#[trigger] self.entries@[j]).0@,
                ) < 0,
        ensures
            forall|j: int| !self.holds_at(key, j),
            !self@.contains_key(key),
    {
        lemma_char_order();
        lemma_lex_is_total_order(char_order());
        assert(lex_order(char_order())(key, key) == 0);
    }

    /// The value of `key`, if the map holds it.
    pub fn get(&self, key: &str) -> (r: Option<&GenericAttributeValue>)
        ensures
            r is Some <==> self@.contains_key(key@),
            r matches Some(v) ==> v@ == self@[key@],
    {
        proof {
            use_type_invariant(self);
        }
        let (i, found): (usize, bool) = self.find(key);
        if found {
            proof {
                self.lemma_value_at(key@, i as int);
            }
            Some(&self.entries[i].1)
        } else {
            proof {
                self.lemma_absent(key@, i as int);
            }
            None
        }
    }

    /// Sets the value of `key`, in place of an earlier one.
    pub fn insert(&mut self, key: String, value: GenericAttributeValue)
        ensures
            final(self)@ == old(self)@.insert(key@, value@),
    {
        proof {
            use_type_invariant(&*self);
        }
        let (i, found): (usize, bool) = self.find(key.as_str());
        let ghost before = *self;
        let ghost (k, v) = (key@, value@);
        let mut entries: Vec<(String, GenericAttributeValue)> = Vec::new();
        std::mem::swap(&mut entries, &mut self.entries);
        if found {
            entries.remove(i);
        }
        entries.insert(i, (key, value));
        let ghost after = AttributeMap { entries };
        proof {
            lemma_char_order();
            lemma_lex_is_total_order(char_order());
            let rel = lex_order(char_order());
            let n = before.entries@.len();
            // Where an entry of the new list stood in the old one.
            let from = |j: int|
                if found || j < i {
                    j
                } else {
                    j - 1
                };
            assert forall|j: int| 0 <= j < after.entries@.len() && j != i implies
                after.entries@[j] == before.entries@[from(j)] && 0 <= from(j) < n by {}
            assert(after.entries@[i as int].0@ == k && after.entries@[i as int].1@ == v);
            assert forall|a: int, b: int| 0 <= a < b < after.names().len() implies lex(
                char_order(),
                #[trigger] after.names()[a],
                #[trigger] after.names()[b],
            ) < 0 by {
                if a != i && b != i {
                    assert(after.names()[a] == before.names()[from(a)]);
                    assert(after.names()[b] == before.names()[from(b)]);
                } else if a == i {
                    assert(after.names()[b] == before.names()[from(b)]);
                    if found {
                        assert(before.names()[i as int] == k);
                    } else {
                        assert(before.entries@[from(b)].0@ == after.names()[b]);
                    }
                } else {
                    assert(before.entries@[a].0@ == after.names()[a]);
                }
            }
            assert(after.well_formed());
            let target = before@.insert(k, v);
            assert forall|x: Seq<char>| #[trigger] after@.contains_key(x) <==> target.contains_key(
                x,
            ) by {
                if after@.contains_key(x) && x != k {
                    let j = choose|j: int| after.holds_at(x, j);
                    assert(before.holds_at(x, from(j)));
                }
                if target.contains_key(x) {
                    if x == k {
                        assert(after.holds_at(k, i as int));
                    } else {
                        let j = choose|j: int| before.holds_at(x, j);
                        let t = if found || j < i {
                            j
                        } else {
                            j + 1
                        };
                        assert(after.holds_at(x, t));
                    }
                }
            }
            assert forall|x: Seq<char>| #[trigger] after@.contains_key(x) implies after@[x]
                == target[x] by {
                let j = choose|j: int| after.holds_at(x, j);
                after.lemma_value_at(x, j);
                if x != k {
                    before.lemma_value_at(x, from(j));
                } else if j != i {
                    assert(after.names()[j] == k && after.names()[i as int] == k);
                    assert(rel(k, k) == 0);
                }
            }
            assert(after@ =~= target);
        }
        self.entries = entries;
    }
}

} // verus!
