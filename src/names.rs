use vstd::prelude::*;

verus! {

/// The first name of `names` that `declared` lacks.
pub open spec fn first_missing(names: Seq<Seq<char>>, declared: Set<Seq<char>>) -> Option<Seq<char>>
    decreases names.len(),
{
    if names.len() == 0 {
        None
    } else if !declared.contains(names[0]) {
        Some(names[0])
    } else {
        first_missing(names.drop_first(), declared)
    }
}

/// A set of names that keeps the order in which they were first added.
pub struct NameSet {
    names: Vec<String>,
}

impl View for NameSet {
    type V = Set<Seq<char>>;

    closed spec fn view(&self) -> Set<Seq<char>> {
        Set::new(|s: Seq<char>| exists|i: int| 0 <= i < self.names@.len() && self.names@[i]@ == s)
    }
}

impl NameSet {
    /// The names in the order in which they were first added.
    pub closed spec fn order(&self) -> Seq<Seq<char>> {
        self.names@.map_values(|s: String| s@)
    }

    pub closed spec fn wf(&self) -> bool {
        self.order().no_duplicates()
    }

    /// A name is in the set exactly when it occurs in the order.
    pub proof fn lemma_order_contains(&self)
        ensures
            forall|s: Seq<char>| self@.contains(s) <==> #[trigger] self.order().contains(s),
    {
        assert forall|s: Seq<char>| self@.contains(s) <==> #[trigger] self.order().contains(s) by {
            if self@.contains(s) {
                let i = choose|i: int| 0 <= i < self.names@.len() && self.names@[i]@ == s;
                assert(self.order()[i] == s);
            }
            if self.order().contains(s) {
                let i = choose|i: int| 0 <= i < self.order().len() && self.order()[i] == s;
                assert(self.names@[i]@ == s);
            }
        }
    }

    pub fn new() -> (r: Self)
        ensures
            r.wf(),
            r@ == Set::<Seq<char>>::empty(),
            r.order() == Seq::<Seq<char>>::empty(),
    {
        let r = NameSet { names: Vec::new() };
        assert(r@ =~= Set::<Seq<char>>::empty());
        assert(r.order() =~= Seq::<Seq<char>>::empty());
        r
    }

    pub fn contains(&self, name: &String) -> (r: bool)
        ensures
            r == self@.contains(name@),
    {
        let mut i: usize = 0;
        while i < self.names.len()
            invariant
                i <= self.names@.len(),
                forall|j: int| 0 <= j < i ==> self.names@[j]@ != name@,
            decreases self.names@.len() - i,
        {
            if self.names[i] == *name {
                return true;
            }
            i = i + 1;
        }
        false
    }

    /// Adds a name; a name already present is left where it is.
    pub fn insert(&mut self, name: String)
        requires
            old(self).wf(),
        ensures
            final(self).wf(),
            final(self)@ == old(self)@.insert(name@),
            old(self)@.contains(name@) ==> final(self).order() == old(self).order(),
            !old(self)@.contains(name@) ==> final(self).order() == old(self).order().push(name@),
    {
        if !self.contains(&name) {
            let ghost n = name@;
            let ghost prev = self.names@;
            self.names.push(name);
            assert(self.order() =~= old(self).order().push(n));
            assert(self@ =~= old(self)@.insert(n)) by {
                assert forall|s: Seq<char>| old(self)@.insert(n).contains(s) implies self@.contains(s) by {
                    if s == n {
                        assert(self.names@[prev.len() as int]@ == s);
                    } else {
                        assert(old(self)@.contains(s));
                        let i = choose|i: int| 0 <= i < prev.len() && prev[i]@ == s;
                        assert(self.names@[i]@ == s);
                    }
                }
                assert forall|s: Seq<char>| self@.contains(s) implies old(self)@.insert(n).contains(s) by {
                    let i = choose|i: int| 0 <= i < self.names@.len() && self.names@[i]@ == s;
                    if i < prev.len() {
                        assert(prev[i]@ == s);
                    }
                }
            }
            assert(self.order().no_duplicates()) by {
                assert forall|a: int, b: int| 0 <= a < b < self.order().len() implies self.order()[a] != self.order()[b] by {
                    if b == prev.len() {
                        assert(prev[a]@ == self.order()[a]);
                    }
                }
            }
        }
    }

    /// The first name, in this set's order, that `other` lacks.
    pub fn first_missing(&self, other: &NameSet) -> (r: Option<String>)
        ensures
            match first_missing(self.order(), other@) {
                Some(n) => r matches Some(x) && x@ == n,
                None => r is None,
            },
    {
        let mut i: usize = 0;
        assert(self.order().subrange(0, self.order().len() as int) =~= self.order());
        while i < self.names.len()
            invariant
                i <= self.names@.len(),
                first_missing(self.order(), other@) == first_missing(
                    self.order().subrange(i as int, self.order().len() as int),
                    other@,
                ),
            decreases self.names@.len() - i,
        {
            let ghost rest = self.order().subrange(i as int, self.order().len() as int);
            assert(rest[0] == self.names@[i as int]@);
            if !other.contains(&self.names[i]) {
                return Some(self.names[i].clone());
            }
            assert(rest.drop_first() =~= self.order().subrange(i + 1, self.order().len() as int));
            i = i + 1;
        }
        assert(self.order().subrange(i as int, self.order().len() as int) =~= Seq::<Seq<char>>::empty());
        None
    }
}

} // verus!
