//! A set of strings, kept as a vector without repetitions in the order in
//! which the strings were first inserted.

use vstd::prelude::*;

verus! {

/// What a vector of strings stands for, in order.
pub open spec fn string_views(s: Seq<String>) -> Seq<Seq<char>> {
    s.map_values(|x: String| x@)
}

/// A set of strings.
#[derive(Debug)]
pub struct StringSet {
    items: Vec<String>,
}

impl View for StringSet {
    type V = Set<Seq<char>>;

    closed spec fn view(&self) -> Set<Seq<char>> {
        string_views(self.items@).to_set()
    }
}

impl StringSet {
    /// No string is held twice.
    #[verifier::type_invariant]
    spec fn distinct(self) -> bool {
        string_views(self.items@).no_duplicates()
    }

    /// The members in the order in which they were first inserted.
    pub closed spec fn members(&self) -> Seq<Seq<char>> {
        string_views(self.items@)
    }

    /// The set is the set of the members.
    pub proof fn lemma_view(&self)
        ensures
            self@ == self.members().to_set(),
            self@.finite(),
    {
        vstd::seq_lib::seq_to_set_is_finite(self.members());
    }

    /// An empty set.
    pub fn new() -> (r: StringSet)
        ensures
            r@ == Set::<Seq<char>>::empty(),
            r.members() == Seq::<Seq<char>>::empty(),
    {
        let r = StringSet { items: Vec::new() };
        proof {
            assert(r.members() =~= Seq::<Seq<char>>::empty());
            assert(r@ =~= Set::<Seq<char>>::empty());
        }
        r
    }

    /// Number of members. They are distinct.
    pub fn len(&self) -> (n: usize)
        ensures
            n == self.members().len(),
            n == self@.len(),
            self.members().no_duplicates(),
    {
        proof {
            use_type_invariant(self);
            self.members().unique_seq_to_set();
        }
        self.items.len()
    }

    /// Whether the set has no member.
    pub fn is_empty(&self) -> (b: bool)
        ensures
            b == (self@ == Set::<Seq<char>>::empty()),
            b == (self.members().len() == 0),
    {
        proof {
            if self.members().len() == 0 {
                assert(self@ =~= Set::<Seq<char>>::empty());
            } else {
                assert(self.members().contains(self.members()[0]));
                assert(self@.contains(self.members()[0]));
            }
        }
        self.items.len() == 0
    }

    /// Whether `item` is a member.
    pub fn contains(&self, item: &String) -> (b: bool)
        ensures
            b == self@.contains(item@),
    {
        let mut i: usize = 0;
        while i < self.items.len()
            invariant
                i <= self.items.len(),
                forall|j: int| 0 <= j < i ==> self.members()[j] != item@,
            decreases self.items.len() - i,
        {
            if self.items[i] == *item {
                proof {
                    assert(self.members()[i as int] == item@);
                    assert(self.members().contains(item@));
                }
                return true;
            }
            i += 1;
        }
        proof {
            if self.members().contains(item@) {
                let k = choose|k: int| 0 <= k < self.members().len() && self.members()[k] == item@;
                assert(self.members()[k] != item@);
            }
        }
        false
    }

    /// The member at position `i`.
    pub fn member_at(&self, i: usize) -> (r: &String)
        requires
            i < self.members().len(),
        ensures
            r@ == self.members()[i as int],
    {
        &self.items[i]
    }

    /// Adds `item` unless it is a member already.
    pub fn insert(&mut self, item: String)
        ensures
            final(self)@ == old(self)@.insert(item@),
            final(self).members() == if old(self)@.contains(item@) {
                old(self).members()
            } else {
                old(self).members().push(item@)
            },
    {
        proof {
            use_type_invariant(&*self);
        }
        let ghost before = self.members();
        if self.contains(&item) {
            proof {
                assert(self@ =~= self@.insert(item@));
            }
            return ;
        }
        let mut items: Vec<String> = Vec::new();
        proof {
            assert(string_views(items@) =~= Seq::<Seq<char>>::empty());
        }
        std::mem::swap(&mut self.items, &mut items);
        items.push(item);
        proof {
            let after = string_views(items@);
            assert(after =~= before.push(item@));
            assert(after.no_duplicates()) by {
                assert forall|a: int, b: int|
                    0 <= a < after.len() && 0 <= b < after.len() && a != b implies after[a]
                    != after[b] by {
                    if a == before.len() {
                        assert(before.contains(before[b]));
                    } else if b == before.len() {
                        assert(before.contains(before[a]));
                    }
                }
            }
            assert(after.to_set() =~= before.to_set().insert(item@)) by {
                assert forall|x: Seq<char>| after.to_set().contains(x) implies before.to_set()
                    .insert(item@).contains(x) by {
                    let k = choose|k: int| 0 <= k < after.len() && after[k] == x;
                    if k < before.len() {
                        assert(before[k] == x);
                        assert(before.contains(x));
                    }
                }
                assert forall|x: Seq<char>|
                    before.to_set().insert(item@).contains(x) implies after.to_set().contains(
                    x,
                ) by {
                    if x == item@ {
                        assert(after[before.len() as int] == x);
                    } else {
                        let k = choose|k: int| 0 <= k < before.len() && before[k] == x;
                        assert(after[k] == x);
                    }
                    assert(after.contains(x));
                }
            }
        }
        std::mem::swap(&mut self.items, &mut items);
    }

    /// Takes every member out: the set is empty afterwards, and what it held
    /// is returned.
    pub fn drain(&mut self) -> (r: StringSet)
        ensures
            final(self)@ == Set::<Seq<char>>::empty(),
            final(self).members() == Seq::<Seq<char>>::empty(),
            r@ == old(self)@,
            r.members() == old(self).members(),
    {
        proof {
            use_type_invariant(&*self);
        }
        let mut items: Vec<String> = Vec::new();
        proof {
            assert(string_views(items@) =~= Seq::<Seq<char>>::empty());
        }
        std::mem::swap(&mut self.items, &mut items);
        proof {
            assert(self@ =~= Set::<Seq<char>>::empty());
        }
        StringSet { items }
    }
}

} // verus!
