//! The environment overlay: a finite mapping from variable names to values.

use vstd::prelude::*;

verus! {

/// The mapping that a list of name-value pairs stands for, a later pair
/// replacing an earlier one of the same name.
pub open spec fn pairs_map(pairs: Seq<(String, String)>) -> Map<Seq<char>, Seq<char>>
    decreases pairs.len(),
{
    if pairs.len() == 0 {
        Map::empty()
    } else {
        pairs_map(pairs.drop_last()).insert(pairs.last().0@, pairs.last().1@)
    }
}

/// No two pairs have the same name.
pub open spec fn distinct_names(pairs: Seq<(String, String)>) -> bool {
    forall|i: int, j: int|
        0 <= i < pairs.len() && 0 <= j < pairs.len() && i != j ==> (#[trigger] pairs[i]).0@ != (
        #[trigger] pairs[j]).0@
}

/// The names of the mapping are those of the pairs.
pub proof fn lemma_pairs_names(pairs: Seq<(String, String)>, name: Seq<char>)
    ensures
        pairs_map(pairs).contains_key(name) <==> exists|i: int|
            0 <= i < pairs.len() && (#[trigger] pairs[i]).0@ == name,
    decreases pairs.len(),
{
    if pairs.len() > 0 {
        lemma_pairs_names(pairs.drop_last(), name);
        if pairs_map(pairs).contains_key(name) {
            if pairs.last().0@ == name {
                assert(pairs[pairs.len() - 1].0@ == name);
            } else {
                let i = choose|i: int|
                    0 <= i < pairs.drop_last().len() && (#[trigger] pairs.drop_last()[i]).0@
                        == name;
                assert(pairs[i].0@ == name);
            }
        }
        if exists|i: int| 0 <= i < pairs.len() && (#[trigger] pairs[i]).0@ == name {
            let i = choose|i: int| 0 <= i < pairs.len() && (#[trigger] pairs[i]).0@ == name;
            if i < pairs.len() - 1 {
                assert(pairs.drop_last()[i].0@ == name);
            }
        }
    }
}

/// Where no name occurs twice, each pair gives the value of its name.
pub proof fn lemma_pairs_value(pairs: Seq<(String, String)>, i: int)
    requires
        distinct_names(pairs),
        0 <= i < pairs.len(),
    ensures
        pairs_map(pairs).contains_key(pairs[i].0@),
        pairs_map(pairs)[pairs[i].0@] == pairs[i].1@,
    decreases pairs.len(),
{
    if i < pairs.len() - 1 {
        assert(distinct_names(pairs.drop_last())) by {
            assert forall|a: int, b: int|
                0 <= a < pairs.drop_last().len() && 0 <= b < pairs.drop_last().len() && a
                    != b implies (#[trigger] pairs.drop_last()[a]).0@ != (
            #[trigger] pairs.drop_last()[b]).0@ by {
                assert(pairs.drop_last()[a] == pairs[a]);
                assert(pairs.drop_last()[b] == pairs[b]);
            }
        }
        lemma_pairs_value(pairs.drop_last(), i);
        assert(pairs.drop_last()[i] == pairs[i]);
        assert(pairs[pairs.len() - 1].0@ != pairs[i].0@);
    }
}

/// Where no name occurs twice, replacing the value of one pair replaces
/// the value of its name.
pub proof fn lemma_pairs_update(pairs: Seq<(String, String)>, i: int, pair: (String, String))
    requires
        distinct_names(pairs),
        0 <= i < pairs.len(),
        pair.0@ == pairs[i].0@,
    ensures
        distinct_names(pairs.update(i, pair)),
        pairs_map(pairs.update(i, pair)) == pairs_map(pairs).insert(pair.0@, pair.1@),
    decreases pairs.len(),
{
    let updated = pairs.update(i, pair);
    assert(distinct_names(updated)) by {
        assert forall|a: int, b: int|
            0 <= a < updated.len() && 0 <= b < updated.len() && a != b implies (
        #[trigger] updated[a]).0@ != (#[trigger] updated[b]).0@ by {
            assert(updated[a].0@ == pairs[a].0@);
            assert(updated[b].0@ == pairs[b].0@);
        }
    }
    if i == pairs.len() - 1 {
        assert(updated.drop_last() =~= pairs.drop_last());
        assert(pairs_map(updated) =~= pairs_map(pairs).insert(pair.0@, pair.1@));
    } else {
        assert(distinct_names(pairs.drop_last())) by {
            assert forall|a: int, b: int|
                0 <= a < pairs.drop_last().len() && 0 <= b < pairs.drop_last().len() && a
                    != b implies (#[trigger] pairs.drop_last()[a]).0@ != (
            #[trigger] pairs.drop_last()[b]).0@ by {
                assert(pairs.drop_last()[a] == pairs[a]);
                assert(pairs.drop_last()[b] == pairs[b]);
            }
        }
        assert(pairs.drop_last()[i] == pairs[i]);
        lemma_pairs_update(pairs.drop_last(), i, pair);
        assert(updated.drop_last() =~= pairs.drop_last().update(i, pair));
        assert(updated.last() == pairs.last());
        assert(pairs[pairs.len() - 1].0@ != pairs[i].0@);
        assert(pairs_map(updated) =~= pairs_map(pairs).insert(pair.0@, pair.1@));
    }
}

/// A finite mapping from variable names to values. No name occurs twice.
#[derive(Debug)]
pub struct Env {
    entries: Vec<(String, String)>,
}

impl View for Env {
    type V = Map<Seq<char>, Seq<char>>;

    closed spec fn view(&self) -> Map<Seq<char>, Seq<char>> {
        pairs_map(self.entries@)
    }
}

impl Env {
    #[verifier::type_invariant]
    spec fn distinct(self) -> bool {
        distinct_names(self.entries@)
    }

    /// The empty mapping.
    pub fn new() -> (r: Env)
        ensures
            r@ == Map::<Seq<char>, Seq<char>>::empty(),
    {
        Env { entries: Vec::new() }
    }

    /// The position of the pair named `name`, if there is one.
    fn position(&self, name: &str) -> (r: Option<usize>)
        ensures
            match r {
                Some(i) => i < self.entries.len() && self.entries[i as int].0@ == name@,
                None => forall|j: int|
                    0 <= j < self.entries.len() ==> (#[trigger] self.entries[j]).0@ != name@,
            },
    {
        let n: usize = self.entries.len();
        let mut i: usize = 0;
        while i < n
            invariant
                n == self.entries.len(),
                i <= n,
                forall|j: int| 0 <= j < i ==> (#[trigger] self.entries[j]).0@ != name@,
            decreases n - i,
        {
            if crate::text::str_is(self.entries[i].0.as_str(), name) {
                return Some(i);
            }
            i = i + 1;
        }
        None
    }

    /// The number of names.
    pub fn len(&self) -> (r: usize)
        ensures
            r == self@.dom().len(),
    {
        proof {
            use_type_invariant(self);
            lemma_pairs_count(self.entries@);
        }
        self.entries.len()
    }

    /// Whether `name` has a value.
    pub fn contains_key(&self, name: &str) -> (r: bool)
        ensures
            r == self@.contains_key(name@),
    {
        proof {
            lemma_pairs_names(self.entries@, name@);
        }
        self.position(name).is_some()
    }

    /// The value of `name`, if it has one.
    pub fn get(&self, name: &str) -> (r: Option<&String>)
        ensures
            match r {
                Some(v) => self@.contains_key(name@) && v@ == self@[name@],
                None => !self@.contains_key(name@),
            },
    {
        proof {
            use_type_invariant(self);
            lemma_pairs_names(self.entries@, name@);
        }
        match self.position(name) {
            Some(i) => {
                proof {
                    lemma_pairs_value(self.entries@, i as int);
                }
                Some(&self.entries[i].1)
            },
            None => None,
        }
    }

    /// This mapping with `name` given the value `value`.
    fn with_pair(self, name: String, value: String) -> (r: Env)
        ensures
            r@ == self@.insert(name@, value@),
    {
        proof {
            use_type_invariant(&self);
        }
        let found = self.position(name.as_str());
        let ghost before = self.entries@;
        let mut entries = self.entries;
        match found {
            Some(i) => {
                proof {
                    lemma_pairs_update(before, i as int, (name, value));
                }
                entries.set(i, (name, value));
            },
            None => {
                proof {
                    let pushed = before.push((name, value));
                    assert(pushed.drop_last() =~= before);
                    assert forall|a: int, b: int|
                        0 <= a < pushed.len() && 0 <= b < pushed.len() && a != b implies (
                    #[trigger] pushed[a]).0@ != (#[trigger] pushed[b]).0@ by {
                        if a < before.len() {
                            assert(pushed[a] == before[a]);
                        }
                        if b < before.len() {
                            assert(pushed[b] == before[b]);
                        }
                    }
                }
                entries.push((name, value));
            },
        }
        Env { entries }
    }

    /// Gives `name` the value `value`, replacing the value it had.
    pub fn insert(&mut self, name: String, value: String)
        ensures
            final(self)@ == old(self)@.insert(name@, value@),
    {
        let mut taken = Env::new();
        std::mem::swap(self, &mut taken);
        *self = taken.with_pair(name, value);
    }

    /// The mapping that the pairs stand for, a later pair replacing an
    /// earlier one of the same name.
    pub fn from_pairs(pairs: Vec<(String, String)>) -> (r: Env)
        ensures
            r@ == pairs_map(pairs@),
    {
        let mut out = Env::new();
        let n: usize = pairs.len();
        let mut i: usize = 0;
        while i < n
            invariant
                n == pairs.len(),
                i <= n,
                out@ == pairs_map(pairs@.take(i as int)),
            decreases n - i,
        {
            proof {
                assert(pairs@.take(i + 1).drop_last() =~= pairs@.take(i as int));
            }
            out.insert(pairs[i].0.clone(), pairs[i].1.clone());
            i = i + 1;
        }
        proof {
            assert(pairs@.take(n as int) =~= pairs@);
        }
        out
    }

    /// The names with their values, each name once.
    pub fn pairs(&self) -> (r: Vec<(String, String)>)
        ensures
            distinct_names(r@),
            pairs_map(r@) == self@,
    {
        proof {
            use_type_invariant(self);
        }
        let n: usize = self.entries.len();
        let mut out: Vec<(String, String)> = Vec::new();
        let mut i: usize = 0;
        while i < n
            invariant
                n == self.entries.len(),
                i <= n,
                out@ == self.entries@.take(i as int),
            decreases n - i,
        {
            out.push((self.entries[i].0.clone(), self.entries[i].1.clone()));
            proof {
                assert(out@ =~= self.entries@.take(i + 1));
            }
            i = i + 1;
        }
        proof {
            assert(self.entries@.take(n as int) =~= self.entries@);
        }
        out
    }

    /// The union of the two mappings, where `other`'s value wins for a name
    /// that both have.
    pub fn merge(self, other: Env) -> (r: Env)
        ensures
            r@ == self@.union_prefer_right(other@),
    {
        let ghost base = self@;
        let mut out = self;
        let n: usize = other.entries.len();
        let mut i: usize = 0;
        proof {
            assert(base.union_prefer_right(Map::<Seq<char>, Seq<char>>::empty()) =~= base);
        }
        while i < n
            invariant
                n == other.entries.len(),
                i <= n,
                out@ == base.union_prefer_right(pairs_map(other.entries@.take(i as int))),
            decreases n - i,
        {
            proof {
                let before = pairs_map(other.entries@.take(i as int));
                let pair = other.entries[i as int];
                assert(other.entries@.take(i + 1).drop_last() =~= other.entries@.take(i as int));
                assert(base.union_prefer_right(before).insert(pair.0@, pair.1@)
                    =~= base.union_prefer_right(before.insert(pair.0@, pair.1@)));
            }
            out.insert(other.entries[i].0.clone(), other.entries[i].1.clone());
            i = i + 1;
        }
        proof {
            assert(other.entries@.take(n as int) =~= other.entries@);
        }
        out
    }

    /// Whether every pair of `self` is a pair of `other`.
    fn within(&self, other: &Env) -> (r: bool)
        ensures
            r == forall|k: Seq<char>| #[trigger]
                self@.contains_key(k) ==> other@.contains_key(k) && other@[k] == self@[k],
    {
        proof {
            use_type_invariant(self);
        }
        let n: usize = self.entries.len();
        let mut i: usize = 0;
        while i < n
            invariant
                n == self.entries.len(),
                i <= n,
                distinct_names(self.entries@),
                forall|j: int|
                    0 <= j < i ==> other@.contains_key((#[trigger] self.entries[j]).0@)
                        && other@[self.entries[j].0@] == self.entries[j].1@,
            decreases n - i,
        {
            proof {
                lemma_pairs_value(self.entries@, i as int);
            }
            match other.get(self.entries[i].0.as_str()) {
                Some(v) => {
                    if !crate::text::str_is(v.as_str(), self.entries[i].1.as_str()) {
                        proof {
                            let k = self.entries[i as int].0@;
                            assert(self@.contains_key(k) && other@[k] != self@[k]);
                        }
                        return false;
                    }
                },
                None => {
                    proof {
                        let k = self.entries[i as int].0@;
                        assert(self@.contains_key(k) && !other@.contains_key(k));
                    }
                    return false;
                },
            }
            i = i + 1;
        }
        proof {
            assert forall|k: Seq<char>| #[trigger]
                self@.contains_key(k) implies other@.contains_key(k) && other@[k] == self@[k] by {
                lemma_pairs_names(self.entries@, k);
                let j = choose|j: int|
                    0 <= j < self.entries.len() && (#[trigger] self.entries[j]).0@ == k;
                lemma_pairs_value(self.entries@, j);
            }
        }
        true
    }
}

/// Where no name occurs twice, there are as many names as pairs.
pub proof fn lemma_pairs_count(pairs: Seq<(String, String)>)
    requires
        distinct_names(pairs),
    ensures
        pairs_map(pairs).dom().finite(),
        pairs_map(pairs).dom().len() == pairs.len(),
    decreases pairs.len(),
{
    if pairs.len() > 0 {
        assert(distinct_names(pairs.drop_last())) by {
            assert forall|a: int, b: int|
                0 <= a < pairs.drop_last().len() && 0 <= b < pairs.drop_last().len() && a
                    != b implies (#[trigger] pairs.drop_last()[a]).0@ != (
            #[trigger] pairs.drop_last()[b]).0@ by {
                assert(pairs.drop_last()[a] == pairs[a]);
                assert(pairs.drop_last()[b] == pairs[b]);
            }
        }
        lemma_pairs_count(pairs.drop_last());
        lemma_pairs_names(pairs.drop_last(), pairs.last().0@);
        if pairs_map(pairs.drop_last()).contains_key(pairs.last().0@) {
            let i = choose|i: int|
                0 <= i < pairs.drop_last().len() && (#[trigger] pairs.drop_last()[i]).0@
                    == pairs.last().0@;
            assert(pairs[i].0@ == pairs[pairs.len() - 1].0@);
        }
    }
}

impl Clone for Env {
    fn clone(&self) -> (r: Env)
        ensures
            r@ == self@,
    {
        proof {
            use_type_invariant(self);
        }
        let mut entries: Vec<(String, String)> = Vec::new();
        let n: usize = self.entries.len();
        let mut i: usize = 0;
        while i < n
            invariant
                n == self.entries.len(),
                i <= n,
                entries@ == self.entries@.take(i as int),
            decreases n - i,
        {
            entries.push((self.entries[i].0.clone(), self.entries[i].1.clone()));
            proof {
                assert(entries@ =~= self.entries@.take(i + 1));
            }
            i = i + 1;
        }
        proof {
            assert(self.entries@.take(n as int) =~= self.entries@);
        }
        Env { entries }
    }
}

impl PartialEq for Env {
    fn eq(&self, other: &Env) -> (r: bool) {
        proof {
            if (forall|k: Seq<char>| #[trigger]
                self@.contains_key(k) ==> other@.contains_key(k) && other@[k] == self@[k])
                && (forall|k: Seq<char>| #[trigger]
                other@.contains_key(k) ==> self@.contains_key(k) && self@[k] == other@[k]) {
                assert(self@ =~= other@);
            }
        }
        self.within(other) && other.within(self)
    }
}

impl Eq for Env {

}

impl vstd::std_specs::cmp::PartialEqSpecImpl for Env {
    open spec fn obeys_eq_spec() -> bool {
        true
    }

    open spec fn eq_spec(&self, other: &Env) -> bool {
        self@ == other@
    }
}

impl Default for Env {
    fn default() -> (r: Env)
        ensures
            r@ == Map::<Seq<char>, Seq<char>>::empty(),
    {
        Env::new()
    }
}

} // verus!
