use vstd::prelude::*;

verus! {

/// The mapping that a list of (resource, amount) entries stands for; a later
/// entry for the same resource overwrites an earlier one.
pub open spec fn map_of_entries(s: Seq<(u64, u64)>) -> Map<u64, u64>
    decreases s.len(),
{
    if s.len() == 0 {
        Map::empty()
    } else {
        map_of_entries(s.drop_last()).insert(s.last().0, s.last().1)
    }
}

pub proof fn lemma_map_of_entries_dom(s: Seq<(u64, u64)>)
    ensures
        forall|k: u64| #[trigger] map_of_entries(s).contains_key(k) <==> exists|i: int|
            0 <= i < s.len() && s[i].0 == k,
        map_of_entries(s).dom().finite(),
    decreases s.len(),
{
    if s.len() > 0 {
        let t = s.drop_last();
        lemma_map_of_entries_dom(t);
        assert forall|k: u64| #[trigger] map_of_entries(s).contains_key(k) implies exists|i: int|
            0 <= i < s.len() && s[i].0 == k by {
            if k == s.last().0 {
                assert(s[s.len() - 1].0 == k);
            } else {
                let i = choose|i: int| 0 <= i < t.len() && t[i].0 == k;
                assert(s[i].0 == k);
            }
        }
        assert forall|k: u64| (exists|i: int| 0 <= i < s.len() && s[i].0 == k)
            implies #[trigger] map_of_entries(s).contains_key(k) by {
            let i = choose|i: int| 0 <= i < s.len() && s[i].0 == k;
            if i < s.len() - 1 {
                assert(t[i].0 == k);
            }
        }
    }
}

pub proof fn lemma_map_of_entries_value(s: Seq<(u64, u64)>, i: int)
    requires
        forall|p: int, q: int| 0 <= p < q < s.len() ==> s[p].0 != s[q].0,
        0 <= i < s.len(),
    ensures
        map_of_entries(s)[s[i].0] == s[i].1,
    decreases s.len(),
{
    if i < s.len() - 1 {
        let t = s.drop_last();
        lemma_map_of_entries_value(t, i);
        assert(s[i].0 != s.last().0);
    }
}

pub proof fn lemma_map_of_entries_len(s: Seq<(u64, u64)>)
    requires
        forall|p: int, q: int| 0 <= p < q < s.len() ==> s[p].0 != s[q].0,
    ensures
        map_of_entries(s).dom().len() == s.len(),
    decreases s.len(),
{
    lemma_map_of_entries_dom(s);
    if s.len() > 0 {
        let t = s.drop_last();
        lemma_map_of_entries_len(t);
        lemma_map_of_entries_dom(t);
        assert(!map_of_entries(t).contains_key(s.last().0));
        assert(map_of_entries(s).dom() =~= map_of_entries(t).dom().insert(s.last().0));
        vstd::set::axiom_set_insert_len(map_of_entries(t).dom(), s.last().0);
    }
}

pub proof fn lemma_map_of_entries_update(s: Seq<(u64, u64)>, i: int, v: u64)
    requires
        forall|p: int, q: int| 0 <= p < q < s.len() ==> s[p].0 != s[q].0,
        0 <= i < s.len(),
    ensures
        map_of_entries(s.update(i, (s[i].0, v))) =~= map_of_entries(s).insert(s[i].0, v),
    decreases s.len(),
{
    let k = s[i].0;
    let u = s.update(i, (k, v));
    if i == s.len() - 1 {
        assert(u.drop_last() =~= s.drop_last());
    } else {
        lemma_map_of_entries_update(s.drop_last(), i, v);
        assert(u.drop_last() =~= s.drop_last().update(i, (k, v)));
        assert(u.last() == s.last());
        assert(k != s.last().0);
    }
}

/// A mapping from fungible resource to required amount, held as a list of
/// entries with pairwise-distinct resources.
pub struct FungibleMap {
    pub entries: Vec<(u64, u64)>,
}

impl View for FungibleMap {
    type V = Map<u64, u64>;

    open spec fn view(&self) -> Map<u64, u64> {
        map_of_entries(self.entries@)
    }
}

impl FungibleMap {
    /// No resource appears in two entries.
    pub open spec fn wf(self) -> bool {
        forall|i: int, j: int| 0 <= i < j < self.entries@.len() ==> self.entries@[i].0
            != self.entries@[j].0
    }

    /// The number of distinct resources recorded.
    pub open spec fn spec_len(self) -> nat {
        self.entries@.len()
    }

    pub fn new() -> (r: FungibleMap)
        ensures
            r@ == Map::<u64, u64>::empty(),
            r.wf(),
            r.spec_len() == 0,
    {
        FungibleMap { entries: Vec::new() }
    }

    fn find_key(&self, k: u64) -> (o: Option<usize>)
        ensures
            match o {
                Some(i) => i < self.entries@.len() && self.entries@[i as int].0 == k,
                None => forall|j: int| 0 <= j < self.entries@.len() ==> self.entries@[j].0 != k,
            },
    {
        let n = self.entries.len();
        let mut i: usize = 0;
        while i < n
            invariant
                i <= n,
                n == self.entries@.len(),
                forall|j: int| 0 <= j < i ==> self.entries@[j].0 != k,
            decreases n - i,
        {
            if self.entries[i].0 == k {
                return Some(i);
            }
            i += 1;
        }
        None
    }

    /// Record `amount` for `resource`, overwriting any earlier entry.
    pub fn insert(&mut self, resource: u64, amount: u64)
        requires
            old(self).wf(),
        ensures
            final(self)@ == old(self)@.insert(resource, amount),
            final(self).wf(),
            final(self).spec_len() == if old(self)@.contains_key(resource) {
                old(self).spec_len()
            } else {
                old(self).spec_len() + 1
            },
    {
        proof {
            lemma_map_of_entries_dom(self.entries@);
        }
        match self.find_key(resource) {
            Some(i) => {
                self.entries[i] = (resource, amount);
                proof {
                    lemma_map_of_entries_update(old(self).entries@, i as int, amount);
                }
            }
            None => {
                self.entries.push((resource, amount));
                proof {
                    assert(self.entries@.drop_last() =~= old(self).entries@);
                }
            }
        }
    }

    /// The amount recorded for `resource`, if any.
    pub fn get(&self, resource: u64) -> (o: Option<u64>)
        requires
            self.wf(),
        ensures
            o == if self@.contains_key(resource) {
                Some(self@[resource])
            } else {
                None::<u64>
            },
    {
        proof {
            lemma_map_of_entries_dom(self.entries@);
        }
        match self.find_key(resource) {
            Some(i) => {
                proof {
                    lemma_map_of_entries_value(self.entries@, i as int);
                }
                Some(self.entries[i].1)
            }
            None => None,
        }
    }

    /// How many distinct resources are recorded.
    pub fn len(&self) -> (n: usize)
        ensures
            n == self.spec_len(),
            self.wf() ==> n == self@.dom().len() && self@.dom().finite(),
    {
        proof {
            if self.wf() {
                lemma_map_of_entries_len(self.entries@);
                lemma_map_of_entries_dom(self.entries@);
            }
        }
        self.entries.len()
    }

    /// A second map recording the same amounts.  Copying the record duplicates
    /// no assets: the map only states an expectation.
    pub fn duplicate(&self) -> (r: FungibleMap)
        ensures
            r.entries@ == self.entries@,
            r@ == self@,
            r.wf() == self.wf(),
            r.spec_len() == self.spec_len(),
    {
        let n = self.entries.len();
        let mut entries: Vec<(u64, u64)> = Vec::new();
        let mut i: usize = 0;
        while i < n
            invariant
                i <= n,
                n == self.entries@.len(),
                entries@ == self.entries@.take(i as int),
            decreases n - i,
        {
            entries.push(self.entries[i]);
            proof {
                assert(entries@ =~= self.entries@.take(i + 1));
            }
            i += 1;
        }
        proof {
            assert(entries@ =~= self.entries@);
        }
        FungibleMap { entries }
    }

    /// Whether two records demand exactly the same amounts of exactly the
    /// same resources.
    pub fn same_mapping(&self, other: &FungibleMap) -> (r: bool)
        requires
            self.wf(),
            other.wf(),
        ensures
            r == (self@ == other@),
    {
        proof {
            lemma_map_of_entries_dom(self.entries@);
            lemma_map_of_entries_dom(other.entries@);
        }
        let n = self.entries.len();
        let m = other.entries.len();
        let mut i: usize = 0;
        while i < n
            invariant
                i <= n,
                n == self.entries@.len(),
                m == other.entries@.len(),
                self.wf(),
                other.wf(),
                forall|j: int| 0 <= j < i ==> {
                    &&& other@.contains_key(self.entries@[j].0)
                    &&& other@[self.entries@[j].0] == self.entries@[j].1
                },
            decreases n - i,
        {
            let (k, v) = self.entries[i];
            match other.get(k) {
                Some(w) => {
                    if w != v {
                        proof {
                            lemma_map_of_entries_dom(self.entries@);
                            lemma_map_of_entries_value(self.entries@, i as int);
                            assert(self.entries@[i as int].0 == k);
                            assert(self@.contains_key(k));
                        }
                        return false;
                    }
                }
                None => {
                    proof {
                        lemma_map_of_entries_dom(self.entries@);
                        lemma_map_of_entries_value(self.entries@, i as int);
                        assert(self.entries@[i as int].0 == k);
                        assert(self@.contains_key(k));
                    }
                    return false;
                }
            }
            i += 1;
        }
        let mut j: usize = 0;
        while j < m
            invariant
                j <= m,
                n == self.entries@.len(),
                m == other.entries@.len(),
                self.wf(),
                other.wf(),
                forall|p: int| 0 <= p < n ==> {
                    &&& other@.contains_key(self.entries@[p].0)
                    &&& other@[self.entries@[p].0] == self.entries@[p].1
                },
                forall|q: int| 0 <= q < j ==> self@.contains_key(other.entries@[q].0),
            decreases m - j,
        {
            let (k, _) = other.entries[j];
            match self.get(k) {
                Some(_) => {}
                None => {
                    proof {
                        lemma_map_of_entries_dom(other.entries@);
                        assert(other.entries@[j as int].0 == k);
                        assert(other@.contains_key(k));
                    }
                    return false;
                }
            }
            j += 1;
        }
        proof {
            assert forall|k: u64| #[trigger] self@.contains_key(k) implies other@.contains_key(k)
                && other@[k] == self@[k] by {
                let p = choose|p: int| 0 <= p < self.entries@.len() && self.entries@[p].0 == k;
                lemma_map_of_entries_value(self.entries@, p);
            }
            assert forall|k: u64| #[trigger] other@.contains_key(k) implies self@.contains_key(
                k,
            ) by {
                let q = choose|q: int| 0 <= q < other.entries@.len() && other.entries@[q].0 == k;
            }
            assert(self@ =~= other@);
        }
        true
    }
}

} // verus!
