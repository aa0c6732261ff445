//! A small map from names to numbers, kept as a list without repeated names.

use vstd::prelude::*;
use vstd::string::*;

verus! {

/// One named number.
#[derive(Debug)]
pub struct Param {
    name: String,
    value: u64,
}

impl Clone for Param {
    fn clone(&self) -> (r: Param)
        ensures
            r == *self,
    {
        Param { name: self.name.clone(), value: self.value }
    }
}

/// Named numbers, one per name. A trial's sampled parameters are one such
/// map; the description of a distribution is another.
///
/// `insert` takes the list out of the map, changes it, and puts it back, so
/// that no name stands twice at any moment.
#[derive(Debug)]
pub struct Params {
    entries: Vec<Param>,
}

/// The names that the first `n` entries carry.
spec fn names_upto(entries: Seq<Param>, n: int) -> Set<Seq<char>>
    decreases n,
{
    if n <= 0 {
        Set::empty()
    } else {
        names_upto(entries, n - 1).insert(entries[n - 1].name@)
    }
}

proof fn lemma_names_upto(entries: Seq<Param>, n: int)
    requires
        0 <= n <= entries.len(),
        forall|i: int, j: int|
            0 <= i < j < entries.len() ==> entries[i].name@ != entries[j].name@,
    ensures
        names_upto(entries, n).finite(),
        names_upto(entries, n).len() == n,
        forall|k: Seq<char>|
            names_upto(entries, n).contains(k) <==> exists|i: int|
                0 <= i < n && #[trigger] entries[i].name@ == k,
    decreases n,
{
    if n > 0 {
        lemma_names_upto(entries, n - 1);
        let last = entries[n - 1].name@;
        assert(!names_upto(entries, n - 1).contains(last));
        assert forall|k: Seq<char>|
            names_upto(entries, n).contains(k) <==> exists|i: int|
                0 <= i < n && #[trigger] entries[i].name@ == k by {
            if names_upto(entries, n).contains(k) {
                if k == last {
                    assert(entries[n - 1].name@ == k);
                } else {
                    let i = choose|i: int| 0 <= i < n - 1 && #[trigger] entries[i].name@ == k;
                    assert(0 <= i < n && entries[i].name@ == k);
                }
            }
        }
    }
}

/// No name stands twice among the entries.
spec fn distinct(entries: Seq<Param>) -> bool {
    forall|i: int, j: int| 0 <= i < j < entries.len() ==> entries[i].name@ != entries[j].name@
}

/// The map that a list of entries stands for.
spec fn as_map(entries: Seq<Param>) -> Map<Seq<char>, u64> {
    Map::new(
        |k: Seq<char>| exists|i: int| 0 <= i < entries.len() && #[trigger] entries[i].name@ == k,
        |k: Seq<char>|
            entries[choose|i: int| 0 <= i < entries.len() && #[trigger] entries[i].name@ == k].value,
    )
}

/// The map holds each entry under its name.
proof fn lemma_entry(entries: Seq<Param>, i: int)
    requires
        distinct(entries),
        0 <= i < entries.len(),
    ensures
        as_map(entries).dom().contains(entries[i].name@),
        as_map(entries)[entries[i].name@] == entries[i].value,
{
    let k = entries[i].name@;
    let c = choose|c: int| 0 <= c < entries.len() && #[trigger] entries[c].name@ == k;
    assert(c == i);
}

/// Appending an entry under a new name inserts it into the map.
proof fn lemma_push(entries: Seq<Param>, p: Param)
    requires
        distinct(entries),
        forall|i: int| 0 <= i < entries.len() ==> entries[i].name@ != p.name@,
    ensures
        distinct(entries.push(p)),
        as_map(entries.push(p)) == as_map(entries).insert(p.name@, p.value),
{
    let after = entries.push(p);
    assert(distinct(after));
    assert forall|k: Seq<char>| #[trigger]
        as_map(after).dom().contains(k) <==> as_map(entries).insert(p.name@, p.value).dom().contains(
            k,
        ) by {
        if as_map(after).dom().contains(k) {
            let i = choose|i: int| 0 <= i < after.len() && #[trigger] after[i].name@ == k;
            if i < entries.len() {
                assert(entries[i].name@ == k);
            }
        }
        if as_map(entries).dom().contains(k) {
            let i = choose|i: int| 0 <= i < entries.len() && #[trigger] entries[i].name@ == k;
            assert(after[i].name@ == k);
        }
        if k == p.name@ {
            assert(after[entries.len() as int].name@ == k);
        }
    }
    assert forall|k: Seq<char>| #[trigger] as_map(after).dom().contains(k) implies as_map(after)[k]
        == as_map(entries).insert(p.name@, p.value)[k] by {
        let i = choose|i: int| 0 <= i < after.len() && #[trigger] after[i].name@ == k;
        lemma_entry(after, i);
        if i < entries.len() {
            lemma_entry(entries, i);
        }
    }
    assert(as_map(after) =~= as_map(entries).insert(p.name@, p.value));
}

/// Changing the number of one entry inserts the new number under its name.
proof fn lemma_update(entries: Seq<Param>, at: int, p: Param)
    requires
        distinct(entries),
        0 <= at < entries.len(),
        p.name@ == entries[at].name@,
    ensures
        distinct(entries.update(at, p)),
        as_map(entries.update(at, p)) == as_map(entries).insert(p.name@, p.value),
{
    let after = entries.update(at, p);
    assert forall|i: int, j: int| 0 <= i < j < after.len() implies after[i].name@
        != after[j].name@ by {
        assert(after[i].name@ == entries[i].name@);
        assert(after[j].name@ == entries[j].name@);
    }
    assert forall|k: Seq<char>| #[trigger]
        as_map(after).dom().contains(k) <==> as_map(entries).insert(p.name@, p.value).dom().contains(
            k,
        ) by {
        if as_map(after).dom().contains(k) {
            let i = choose|i: int| 0 <= i < after.len() && #[trigger] after[i].name@ == k;
            assert(entries[i].name@ == k);
        }
        if as_map(entries).dom().contains(k) {
            let i = choose|i: int| 0 <= i < entries.len() && #[trigger] entries[i].name@ == k;
            assert(after[i].name@ == k);
        }
        if k == p.name@ {
            assert(after[at].name@ == k);
        }
    }
    assert forall|k: Seq<char>| #[trigger] as_map(after).dom().contains(k) implies as_map(after)[k]
        == as_map(entries).insert(p.name@, p.value)[k] by {
        let i = choose|i: int| 0 <= i < after.len() && #[trigger] after[i].name@ == k;
        lemma_entry(after, i);
        assert(entries[i].name@ == k);
        lemma_entry(entries, i);
    }
    assert(as_map(after) =~= as_map(entries).insert(p.name@, p.value));
}

impl View for Params {
    type V = Map<Seq<char>, u64>;

    closed spec fn view(&self) -> Map<Seq<char>, u64> {
        as_map(self.entries@)
    }
}

impl Clone for Params {
    fn clone(&self) -> (r: Params)
        ensures
            r@ == self@,
    {
        proof {
            use_type_invariant(self);
        }
        let mut entries: Vec<Param> = Vec::new();
        let mut i: usize = 0;
        while i < self.entries.len()
            invariant
                i <= self.entries@.len(),
                entries@ == self.entries@.take(i as int),
            decreases self.entries@.len() - i,
        {
            entries.push(self.entries[i].clone());
            assert(self.entries@.take(i + 1) == self.entries@.take(i as int).push(self.entries@[i as int]));
            i += 1;
        }
        assert(entries@ == self.entries@);
        Params { entries }
    }
}

impl Params {
    #[verifier::type_invariant]
    closed spec fn distinct_names(&self) -> bool {
        distinct(self.entries@)
    }

    /// The empty map.
    pub fn new() -> (p: Params)
        ensures
            p@ == Map::<Seq<char>, u64>::empty(),
    {
        let p = Params { entries: Vec::new() };
        assert(p@ =~= Map::<Seq<char>, u64>::empty());
        p
    }

    /// The place of `name` among the entries.
    fn position(&self, name: &String) -> (at: Option<usize>)
        ensures
            match at {
                Some(i) => i < self.entries@.len() && self.entries@[i as int].name@ == name@,
                None => forall|i: int|
                    0 <= i < self.entries@.len() ==> self.entries@[i].name@ != name@,
            },
    {
        let mut i: usize = 0;
        while i < self.entries.len()
            invariant
                i <= self.entries@.len(),
                forall|j: int| 0 <= j < i ==> self.entries@[j].name@ != name@,
            decreases self.entries@.len() - i,
        {
            if self.entries[i].name == *name {
                return Some(i);
            }
            i += 1;
        }
        None
    }

    /// The number recorded under `name`, if there is one.
    pub fn get(&self, name: &str) -> (r: Option<u64>)
        ensures
            r == if self@.dom().contains(name@) {
                Some(self@[name@])
            } else {
                None::<u64>
            },
    {
        proof {
            use_type_invariant(self);
        }
        let key = name.to_owned();
        match self.position(&key) {
            Some(i) => {
                proof {
                    lemma_entry(self.entries@, i as int);
                }
                Some(self.entries[i].value)
            },
            None => None,
        }
    }

    /// Records `value` under `name`, in place of what stood there.
    pub fn insert(&mut self, name: &str, value: u64)
        ensures
            final(self)@ == old(self)@.insert(name@, value),
    {
        proof {
            use_type_invariant(&*self);
        }
        let key = name.to_owned();
        let found = self.position(&key);
        let ghost before = self.entries@;
        let mut entries: Vec<Param> = Vec::new();
        std::mem::swap(&mut entries, &mut self.entries);
        match found {
            Some(i) => {
                proof {
                    lemma_update(before, i as int, Param { name: before[i as int].name, value });
                }
                entries[i].value = value;
            },
            None => {
                proof {
                    lemma_push(before, Param { name: key, value });
                }
                entries.push(Param { name: key, value });
            },
        }
        self.entries = entries;
    }

    /// How many names the map holds.
    pub fn len(&self) -> (n: usize)
        ensures
            self@.dom().finite(),
            n == self@.dom().len(),
    {
        proof {
            use_type_invariant(self);
            lemma_names_upto(self.entries@, self.entries@.len() as int);
            assert(self@.dom() =~= names_upto(self.entries@, self.entries@.len() as int));
        }
        self.entries.len()
    }
}

} // verus!
