use vstd::prelude::*;

verus! {

/// One pairwise trust relation between two agents.
///
/// A relation is identified by the unordered pair of its agents: which
/// side is named first does not matter.
#[derive(Clone, Copy, Debug)]
pub struct BeliefEntry {
    pub id: usize,
    pub id_other: usize,
    /// Trust in thousandths: `0` is none, `TRUST_FULL` is complete.
    pub trust: u64,
    /// Quantity exchanged in the last trade between the two agents.
    pub amount: u64,
}

/// The canonical key of the unordered pair `{a, b}`: smaller index first.
pub open spec fn pair_key(a: usize, b: usize) -> (usize, usize) {
    if a <= b {
        (a, b)
    } else {
        (b, a)
    }
}

impl BeliefEntry {
    /// The unordered pair this relation is about.
    pub open spec fn key(self) -> (usize, usize) {
        pair_key(self.id, self.id_other)
    }
}

impl PartialEq for BeliefEntry {
    /// Two relations are the same relation when they join the same two
    /// agents, in either order.
    fn eq(&self, other: &BeliefEntry) -> (r: bool)
        ensures
            r == (self.key() == other.key()),
    {
        (self.id == other.id && self.id_other == other.id_other) || (self.id == other.id_other
            && self.id_other == other.id)
    }
}

impl vstd::std_specs::cmp::PartialEqSpecImpl for BeliefEntry {
    open spec fn obeys_eq_spec() -> bool {
        true
    }

    open spec fn eq_spec(&self, other: &BeliefEntry) -> bool {
        (self.id == other.id && self.id_other == other.id_other) || (self.id == other.id_other
            && self.id_other == other.id)
    }
}

impl Eq for BeliefEntry {}

/// The relations held by a sequence of entries, keyed by unordered pair.
pub open spec fn relations(s: Seq<BeliefEntry>) -> Map<(usize, usize), (u64, u64)>
    decreases s.len(),
{
    if s.len() == 0 {
        Map::empty()
    } else {
        relations(s.drop_last()).insert(s.last().key(), (s.last().trust, s.last().amount))
    }
}

/// No two entries are about the same unordered pair.
pub open spec fn unique_pairs(s: Seq<BeliefEntry>) -> bool {
    forall|i: int, j: int| 0 <= i < j < s.len() ==> s[i].key() != s[j].key()
}

/// An entry's relation is the one the sequence holds for its pair.
proof fn lemma_relations_has(s: Seq<BeliefEntry>, i: int)
    requires
        unique_pairs(s),
        0 <= i < s.len(),
    ensures
        relations(s).contains_key(s[i].key()),
        relations(s)[s[i].key()] == (s[i].trust, s[i].amount),
    decreases s.len(),
{
    if i < s.len() - 1 {
        let t = s.drop_last();
        assert(t[i] == s[i]);
        assert(unique_pairs(t));
        lemma_relations_has(t, i);
        assert(s.last().key() != s[i].key());
    }
}

/// A pair that no entry is about has no relation.
proof fn lemma_relations_absent(s: Seq<BeliefEntry>, k: (usize, usize))
    requires
        forall|i: int| 0 <= i < s.len() ==> s[i].key() != k,
    ensures
        !relations(s).contains_key(k),
    decreases s.len(),
{
    if s.len() > 0 {
        let t = s.drop_last();
        assert forall|i: int| 0 <= i < t.len() implies t[i].key() != k by {
            assert(t[i] == s[i]);
        }
        lemma_relations_absent(t, k);
    }
}

/// With unique pairs, there are as many relations as entries.
proof fn lemma_relations_len(s: Seq<BeliefEntry>)
    requires
        unique_pairs(s),
    ensures
        relations(s).dom().finite(),
        relations(s).dom().len() == s.len(),
    decreases s.len(),
{
    if s.len() > 0 {
        let t = s.drop_last();
        assert(unique_pairs(t));
        lemma_relations_len(t);
        assert forall|i: int| 0 <= i < t.len() implies t[i].key() != s.last().key() by {
            assert(t[i] == s[i]);
        }
        lemma_relations_absent(t, s.last().key());
    }
}

/// The relations of one agent, at most one per unordered pair.
#[derive(Clone, Debug)]
pub struct Beliefs {
    entries: Vec<BeliefEntry>,
}

impl View for Beliefs {
    type V = Map<(usize, usize), (u64, u64)>;

    closed spec fn view(&self) -> Map<(usize, usize), (u64, u64)> {
        relations(self.entries@)
    }
}

impl Beliefs {
    /// At most one entry per unordered pair.
    pub closed spec fn wf(&self) -> bool {
        unique_pairs(self.entries@)
    }

    /// No relations.
    pub fn new() -> (r: Beliefs)
        ensures
            r.wf(),
            r@ == Map::<(usize, usize), (u64, u64)>::empty(),
    {
        Beliefs { entries: Vec::new() }
    }

    /// Position of the entry about `{a, b}`, if any.
    fn find(&self, a: usize, b: usize) -> (r: Option<usize>)
        ensures
            r is Some ==> r->0 < self.entries@.len() && self.entries@[r->0 as int].key()
                == pair_key(a, b),
            r is None ==> forall|i: int|
                0 <= i < self.entries@.len() ==> self.entries@[i].key() != pair_key(a, b),
    {
        let probe = BeliefEntry { id: a, id_other: b, trust: 0, amount: 0 };
        let mut i: usize = 0;
        while i < self.entries.len()
            invariant
                probe.key() == pair_key(a, b),
                i <= self.entries@.len(),
                forall|j: int| 0 <= j < i ==> self.entries@[j].key() != pair_key(a, b),
            decreases self.entries@.len() - i,
        {
            if self.entries[i].eq(&probe) {
                return Some(i);
            }
            i = i + 1;
        }
        None
    }

    /// The trust and last amount of the relation between `a` and `b`,
    /// whichever side is named first.
    pub fn get(&self, a: usize, b: usize) -> (r: Option<(u64, u64)>)
        requires
            self.wf(),
        ensures
            r is Some <==> self@.contains_key(pair_key(a, b)),
            r is Some ==> r->0 == self@[pair_key(a, b)],
    {
        match self.find(a, b) {
            Some(i) => {
                proof {
                    lemma_relations_has(self.entries@, i as int);
                }
                Some((self.entries[i].trust, self.entries[i].amount))
            },
            None => {
                proof {
                    lemma_relations_absent(self.entries@, pair_key(a, b));
                }
                None
            },
        }
    }

    /// Sets the relation between `a` and `b` (in either order), creating
    /// it if there is none; never adds a second relation for the pair.
    pub fn record(&mut self, a: usize, b: usize, trust: u64, amount: u64)
        requires
            old(self).wf(),
        ensures
            final(self).wf(),
            final(self)@ == old(self)@.insert(pair_key(a, b), (trust, amount)),
    {
        let ghost s = self.entries@;
        let entry = BeliefEntry { id: a, id_other: b, trust, amount };
        match self.find(a, b) {
            Some(i) => {
                let ghost s2 = s.update(i as int, entry);
                proof {
                    assert(unique_pairs(s2));
                    let m1 = relations(s2);
                    let m2 = relations(s).insert(pair_key(a, b), (trust, amount));
                    assert forall|k: (usize, usize)|
                        #[trigger] m1.contains_key(k) == m2.contains_key(k) && (m1.contains_key(k)
                            ==> m1[k] == m2[k]) by {
                        lemma_relations_has(s2, i as int);
                        if k != pair_key(a, b) {
                            if exists|j: int| 0 <= j < s.len() && s[j].key() == k {
                                let j = choose|j: int| 0 <= j < s.len() && s[j].key() == k;
                                assert(s2[j] == s[j]);
                                lemma_relations_has(s, j);
                                lemma_relations_has(s2, j);
                            } else {
                                lemma_relations_absent(s, k);
                                assert forall|j: int| 0 <= j < s2.len() implies s2[j].key() != k by {
                                    if j != i {
                                        assert(s2[j] == s[j]);
                                    }
                                }
                                lemma_relations_absent(s2, k);
                            }
                        }
                    }
                    assert(m1 =~= m2);
                }
                self.entries.set(i, entry);
            },
            None => {
                self.entries.push(entry);
                proof {
                    assert(self.entries@.drop_last() =~= s);
                    assert forall|x: int, y: int| 0 <= x < y < self.entries@.len() implies
                        self.entries@[x].key() != self.entries@[y].key() by {
                        if y < s.len() {
                            assert(self.entries@[x] == s[x]);
                            assert(self.entries@[y] == s[y]);
                        }
                    }
                }
            },
        }
    }

    /// Number of relations held.
    pub fn len(&self) -> (r: usize)
        requires
            self.wf(),
        ensures
            r == self@.dom().len(),
            self@.dom().finite(),
    {
        proof {
            lemma_relations_len(self.entries@);
        }
        self.entries.len()
    }
}

/// Relations are symmetric: the key of `(a, b)` is the key of `(b, a)`, so
/// looking up or recording either order reaches the same single relation,
/// and recording both orders leaves one relation for the pair.
pub proof fn lemma_beliefs_symmetric(
    m: Map<(usize, usize), (u64, u64)>,
    a: usize,
    b: usize,
    t1: u64,
    v1: u64,
    t2: u64,
    v2: u64,
)
    ensures
        pair_key(a, b) == pair_key(b, a),
        m.contains_key(pair_key(a, b)) == m.contains_key(pair_key(b, a)),
        m.insert(pair_key(a, b), (t1, v1)).insert(pair_key(b, a), (t2, v2)) == m.insert(
            pair_key(a, b),
            (t2, v2),
        ),
        m.insert(pair_key(a, b), (t1, v1))[pair_key(b, a)] == (t1, v1),
{
    assert(m.insert(pair_key(a, b), (t1, v1)).insert(pair_key(b, a), (t2, v2)) =~= m.insert(
        pair_key(a, b),
        (t2, v2),
    ));
}

} // verus!
