use vstd::prelude::*;
use vstd::string::StringExecFns;

verus! {

#[derive(Clone, Copy, Debug, PartialEq, Eq, Structural)]
pub enum RelationStatus {
    Neutral,
    AtWar,
}

/// The relations between pairs of countries; a pair never given one is
/// neutral, and the order of the two countries does not matter.
pub struct Diplomacy {
    relatons: Vec<((usize, usize), RelationStatus)>,
}

/// The key under which the relation of two countries is kept: the smaller
/// index first.
pub open spec fn pair_key(a: usize, b: usize) -> (usize, usize) {
    if a < b {
        (a, b)
    } else {
        (b, a)
    }
}

/// The relation last stored under `k`.
pub open spec fn stored_relation(s: Seq<((usize, usize), RelationStatus)>, k: (usize, usize)) -> Option<
    RelationStatus,
>
    decreases s.len(),
{
    if s.len() == 0 {
        None
    } else if s.last().0 == k {
        Some(s.last().1)
    } else {
        stored_relation(s.drop_last(), k)
    }
}

proof fn lemma_update_other(
    s: Seq<((usize, usize), RelationStatus)>,
    i: int,
    v: RelationStatus,
    k: (usize, usize),
)
    requires
        0 <= i < s.len(),
        s[i].0 != k,
    ensures
        stored_relation(s.update(i, (s[i].0, v)), k) == stored_relation(s, k),
    decreases s.len(),
{
    if i < s.len() - 1 {
        lemma_update_other(s.drop_last(), i, v, k);
        assert(s.update(i, (s[i].0, v)).drop_last() =~= s.drop_last().update(i, (s[i].0, v)));
    } else {
        assert(s.update(i, (s[i].0, v)).drop_last() =~= s.drop_last());
    }
}

proof fn lemma_update_last(
    s: Seq<((usize, usize), RelationStatus)>,
    i: int,
    v: RelationStatus,
)
    requires
        0 <= i < s.len(),
        forall|j: int| i < j < s.len() ==> s[j].0 != s[i].0,
    ensures
        stored_relation(s.update(i, (s[i].0, v)), s[i].0) == Some(v),
    decreases s.len(),
{
    if i < s.len() - 1 {
        lemma_update_last(s.drop_last(), i, v);
        assert(s.update(i, (s[i].0, v)).drop_last() =~= s.drop_last().update(i, (s[i].0, v)));
    }
}

proof fn lemma_search_prefix(s: Seq<((usize, usize), RelationStatus)>, i: int, k: (usize, usize))
    requires
        0 <= i <= s.len(),
        forall|j: int| i <= j < s.len() ==> s[j].0 != k,
    ensures
        stored_relation(s, k) == stored_relation(s.take(i), k),
    decreases s.len(),
{
    if i < s.len() {
        lemma_search_prefix(s.drop_last(), i, k);
        assert(s.drop_last().take(i) =~= s.take(i));
    } else {
        assert(s.take(i) =~= s);
    }
}

impl RelationStatus {
    pub fn to_str(self) -> (r: String)
        ensures
            r@ == match self {
                RelationStatus::Neutral => seq!['N', 'e', 'u', 't', 'r', 'a', 'l'],
                RelationStatus::AtWar => seq!['A', 't', ' ', 'w', 'a', 'r'],
            },
    {
        match self {
            RelationStatus::Neutral => {
                proof {
                    reveal_strlit("Neutral");
                }
                String::from_str("Neutral")
            },
            RelationStatus::AtWar => {
                proof {
                    reveal_strlit("At war");
                }
                String::from_str("At war")
            },
        }
    }
}

impl Diplomacy {
    /// The relation between countries `a` and `b`.
    pub closed spec fn status(&self, a: usize, b: usize) -> RelationStatus {
        match stored_relation(self.relatons@, pair_key(a, b)) {
            Some(r) => r,
            None => RelationStatus::Neutral,
        }
    }

    fn handle_key(c1: usize, c2: usize) -> (r: (usize, usize))
        ensures
            r == pair_key(c1, c2),
    {
        if c1 < c2 {
            (c1, c2)
        } else {
            (c2, c1)
        }
    }

    pub fn new() -> (r: Self)
        ensures
            forall|a: usize, b: usize| r.status(a, b) == RelationStatus::Neutral,
    {
        Diplomacy { relatons: Vec::new() }
    }

    /// The last position holding `key`.
    fn position(&self, key: (usize, usize)) -> (r: Option<usize>)
        ensures
            match r {
                Some(i) => i < self.relatons@.len() && self.relatons@[i as int].0 == key && forall|
                    j: int,
                | i < j < self.relatons@.len() ==> self.relatons@[j].0 != key,
                None => stored_relation(self.relatons@, key) is None,
            },
    {
        let mut i: usize = self.relatons.len();
        while i > 0
            invariant
                i <= self.relatons@.len(),
                forall|j: int| i <= j < self.relatons@.len() ==> self.relatons@[j].0 != key,
            decreases i,
        {
            i = i - 1;
            if self.relatons[i].0.0 == key.0 && self.relatons[i].0.1 == key.1 {
                return Some(i);
            }
        }
        proof {
            lemma_search_prefix(self.relatons@, 0, key);
        }
        None
    }

    pub fn get_relation(&self, country_a_idx: usize, country_b_idx: usize) -> (r: RelationStatus)
        ensures
            r == self.status(country_a_idx, country_b_idx),
    {
        let key = Diplomacy::handle_key(country_a_idx, country_b_idx);
        match self.position(key) {
            Some(i) => {
                proof {
                    lemma_search_prefix(self.relatons@, i + 1, key);
                    assert(self.relatons@.take(i + 1).drop_last() =~= self.relatons@.take(
                        i as int,
                    ));
                }
                self.relatons[i].1
            },
            None => RelationStatus::Neutral,
        }
    }

    pub fn set_relation(
        &mut self,
        country_a_idx: usize,
        country_b_idx: usize,
        relation: RelationStatus,
    )
        ensures
            forall|a: usize, b: usize|
                #[trigger] final(self).status(a, b) == if pair_key(a, b) == pair_key(
                    country_a_idx,
                    country_b_idx,
                ) {
                    relation
                } else {
                    old(self).status(a, b)
                },
    {
        let key = Diplomacy::handle_key(country_a_idx, country_b_idx);
        match self.position(key) {
            Some(i) => {
                let ghost before = self.relatons@;
                self.relatons.set(i, (key, relation));
                proof {
                    assert(self.relatons@ == before.update(i as int, (before[i as int].0, relation)));
                    lemma_update_last(before, i as int, relation);
                    assert forall|a: usize, b: usize| pair_key(a, b) != key implies stored_relation(
                        self.relatons@,
                        pair_key(a, b),
                    ) == stored_relation(before, pair_key(a, b)) by {
                        lemma_update_other(before, i as int, relation, pair_key(a, b));
                    }
                }
            },
            None => {
                let ghost before = self.relatons@;
                self.relatons.push((key, relation));
                proof {
                    assert(self.relatons@.drop_last() =~= before);
                }
            },
        }
    }
}

/// The relation of two countries does not depend on the order in which
/// they are named.
pub proof fn lemma_relation_symmetric(d: &Diplomacy, a: usize, b: usize)
    ensures
        d.status(a, b) == d.status(b, a),
{
    assert(pair_key(a, b) == pair_key(b, a));
}

} // verus!
