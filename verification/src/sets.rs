//! Finite sets of domain names and of IP addresses, kept as vectors with
//! no repeated element.
use vstd::prelude::*;
use crate::ip::IpAddress;

verus! {

/// The character sequences held by a list of strings.
pub open spec fn string_views(v: Seq<String>) -> Seq<Seq<char>> {
    v.map_values(|s: String| s@)
}

/// A set of names (domain names), compared exactly.
#[derive(Debug)]
pub struct NameSet {
    items: Vec<String>,
}

impl View for NameSet {
    type V = Set<Seq<char>>;

    closed spec fn view(&self) -> Set<Seq<char>> {
        string_views(self.items@).to_set()
    }
}

impl NameSet {
    #[verifier::type_invariant]
    spec fn distinct(&self) -> bool {
        string_views(self.items@).no_duplicates()
    }

    /// The names, each once, in the order they were first inserted.
    pub closed spec fn elements(&self) -> Seq<Seq<char>> {
        string_views(self.items@)
    }

    /// An empty set.
    pub fn new() -> (r: NameSet)
        ensures
            r@ == Set::<Seq<char>>::empty(),
            r.elements() == Seq::<Seq<char>>::empty(),
    {
        let r = NameSet { items: Vec::new() };
        assert(string_views(r.items@) =~= Seq::<Seq<char>>::empty());
        r
    }

    /// Whether `name` is in the set.
    pub fn contains(&self, name: &str) -> (r: bool)
        ensures
            r == self@.contains(name@),
    {
        let target = String::from_str(name);
        let mut i: usize = 0;
        while i < self.items.len()
            invariant
                i <= self.items@.len(),
                target@ == name@,
                forall|k: int| 0 <= k < i ==> self.items@[k]@ != name@,
            decreases self.items@.len() - i,
        {
            if self.items[i] == target {
                assert(string_views(self.items@)[i as int] == name@);
                return true;
            }
            i = i + 1;
        }
        assert(!string_views(self.items@).contains(name@)) by {
            if string_views(self.items@).contains(name@) {
                let k = choose|k: int|
                    0 <= k < string_views(self.items@).len() && string_views(self.items@)[k]
                        == name@;
                assert(self.items@[k]@ == name@);
            }
        }
        false
    }

    /// Adds `name`; returns whether it was not already present.
    pub fn insert(&mut self, name: String) -> (r: bool)
        ensures
            final(self)@ == old(self)@.insert(name@),
            r == !old(self)@.contains(name@),
            final(self).elements() == (if r {
                old(self).elements().push(name@)
            } else {
                old(self).elements()
            }),
    {
        if self.contains(name.as_str()) {
            return false;
        }
        proof {
            use_type_invariant(&*self);
        }
        let ghost old_items = self.items@;
        let mut items = Vec::new();
        std::mem::swap(&mut items, &mut self.items);
        items.push(name);
        assert(string_views(items@) =~= string_views(old_items).push(name@));
        proof {
            string_views(old_items).lemma_push_to_set_commute(name@);
        }
        assert(string_views(items@).to_set() =~= string_views(old_items).to_set().insert(name@));
        self.items = items;
        true
    }

    /// A set of the given names; repeated names count once.
    pub fn from_names(names: Vec<String>) -> (r: NameSet)
        ensures
            r@ == string_views(names@).to_set(),
    {
        let mut r = NameSet::new();
        let mut names = names;
        let mut rest: Vec<String> = Vec::new();
        let ghost all = names@;
        let mut i: usize = 0;
        let n = names.len();
        while i < n
            invariant
                n == all.len(),
                i <= n,
                names@ == all.subrange(i as int, n as int),
                r@ == string_views(all.subrange(0, i as int)).to_set(),
            decreases n - i,
        {
            let name = names.remove(0);
            r.insert(name);
            assert(string_views(all.subrange(0, i + 1)) =~= string_views(all.subrange(0, i as int)).push(
                all[i as int]@,
            ));
            proof {
                string_views(all.subrange(0, i as int)).lemma_push_to_set_commute(all[i as int]@);
            }
            assert(names@ =~= all.subrange(i + 1, n as int));
            i = i + 1;
        }
        assert(all.subrange(0, n as int) == all);
        r
    }

    /// The number of names in the set.
    pub fn len(&self) -> (r: usize)
        ensures
            r == self@.len(),
    {
        proof {
            use_type_invariant(self);
            string_views(self.items@).unique_seq_to_set();
        }
        self.items.len()
    }

    /// The names, each once.
    pub fn names(&self) -> (r: &Vec<String>)
        ensures
            string_views(r@) == self.elements(),
            string_views(r@).to_set() == self@,
            string_views(r@).no_duplicates(),
    {
        proof {
            use_type_invariant(self);
        }
        &self.items
    }
}

/// A set of IP addresses.
#[derive(Debug)]
pub struct IpSet {
    items: Vec<IpAddress>,
}

impl View for IpSet {
    type V = Set<IpAddress>;

    closed spec fn view(&self) -> Set<IpAddress> {
        self.items@.to_set()
    }
}

impl IpSet {
    #[verifier::type_invariant]
    spec fn distinct(&self) -> bool {
        self.items@.no_duplicates()
    }

    /// An empty set.
    pub fn new() -> (r: IpSet)
        ensures
            r@ == Set::<IpAddress>::empty(),
    {
        let r = IpSet { items: Vec::new() };
        assert(r.items@.to_set() =~= Set::<IpAddress>::empty());
        r
    }

    /// Whether `ip` is in the set.
    pub fn contains(&self, ip: &IpAddress) -> (r: bool)
        ensures
            r == self@.contains(*ip),
    {
        let mut i: usize = 0;
        while i < self.items.len()
            invariant
                i <= self.items@.len(),
                forall|k: int| 0 <= k < i ==> self.items@[k] != *ip,
            decreases self.items@.len() - i,
        {
            if self.items[i] == *ip {
                assert(self.items@.contains(*ip));
                return true;
            }
            i = i + 1;
        }
        false
    }

    /// Adds `ip`; returns whether it was not already present.
    pub fn insert(&mut self, ip: IpAddress) -> (r: bool)
        ensures
            final(self)@ == old(self)@.insert(ip),
            r == !old(self)@.contains(ip),
    {
        if self.contains(&ip) {
            return false;
        }
        proof {
            use_type_invariant(&*self);
        }
        let ghost old_items = self.items@;
        let mut items = Vec::new();
        std::mem::swap(&mut items, &mut self.items);
        items.push(ip);
        proof {
            old_items.lemma_push_to_set_commute(ip);
        }
        assert(items@.to_set() =~= old_items.to_set().insert(ip));
        self.items = items;
        true
    }

    /// The number of addresses in the set.
    pub fn len(&self) -> (r: usize)
        ensures
            r == self@.len(),
    {
        proof {
            use_type_invariant(self);
            self.items@.unique_seq_to_set();
        }
        self.items.len()
    }

    /// The addresses, each once.
    pub fn addresses(&self) -> (r: &Vec<IpAddress>)
        ensures
            r@.to_set() == self@,
            r@.no_duplicates(),
    {
        proof {
            use_type_invariant(self);
        }
        &self.items
    }
}

} // verus!
