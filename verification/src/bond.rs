//! Mutual bond graph for invite routing.
//!
//! Weights are held in thousandths (0..=1000); a direction counts once its
//! weight reaches `W_MIN_PERMILLE`, and a pair may meet only when both
//! directions count.
use crate::protocol::{DogId, W_MAX_PERMILLE, W_MIN_PERMILLE};
use std::collections::HashMap;
use vstd::prelude::*;

verus! {

broadcast use vstd::std_specs::hash::group_hash_axioms;

/// One directed bond.
#[derive(Debug, Clone, Copy, PartialEq, Eq, Structural)]
pub struct BondEdge {
    pub from: DogId,
    pub to: DogId,
    /// Weight in thousandths.
    pub weight: u16,
}

/// The weight of the directed bond `from -> to` in a bond map (0 where
/// there is none).
pub open spec fn weight_in(m: Map<(DogId, DogId), u16>, from: DogId, to: DogId) -> u16 {
    if m.contains_key((from, to)) {
        m[(from, to)]
    } else {
        0
    }
}

/// Whether both directions of a pair reach the minimum weight.
pub open spec fn mutual_in(m: Map<(DogId, DogId), u16>, a: DogId, b: DogId) -> bool {
    weight_in(m, a, b) >= W_MIN_PERMILLE && weight_in(m, b, a) >= W_MIN_PERMILLE
}

/// `w` capped at the maximum weight.
pub open spec fn clamp_weight(w: u16) -> u16 {
    if w > W_MAX_PERMILLE {
        W_MAX_PERMILLE
    } else {
        w
    }
}

/// Whether `(t, w)` is a peer that `from` may call: `from -> t` holds weight
/// `w` and the pair is mutual.
pub open spec fn is_candidate(m: Map<(DogId, DogId), u16>, from: DogId, t: DogId, w: u16) -> bool {
    m.contains_key((from, t)) && m[(from, t)] == w && mutual_in(m, from, t)
}

/// Whether a candidate list is ordered by weight, strongest first.
pub open spec fn sorted_by_weight_desc(s: Seq<(DogId, u16)>) -> bool {
    forall|i: int, j: int| 0 <= i < j < s.len() ==> s[i].1 >= s[j].1
}

/// Whether no dog occurs twice in a candidate list.
pub open spec fn distinct_dogs(s: Seq<(DogId, u16)>) -> bool {
    forall|i: int, j: int| 0 <= i < j < s.len() ==> s[i].0 != s[j].0
}

/// Directed bond weights; a mutual pair is required for eligibility.
#[derive(Debug)]
pub struct BondGraph {
    /// `edges[from][to]` is the weight of `from -> to`.
    edges: HashMap<u128, HashMap<u128, u16>>,
}

impl BondGraph {
    /// The weight of every directed bond.
    pub closed spec fn view(&self) -> Map<(DogId, DogId), u16> {
        Map::new(
            |k: (DogId, DogId)|
                self.edges@.contains_key(k.0.0) && self.edges@[k.0.0]@.contains_key(k.1.0),
            |k: (DogId, DogId)| self.edges@[k.0.0]@[k.1.0],
        )
    }

    /// Every stored weight is at most the maximum weight.
    #[verifier::type_invariant]
    closed spec fn wf(&self) -> bool {
        forall|a: u128, b: u128|
            #![trigger self.edges@[a]@[b]]
            self.edges@.contains_key(a) && self.edges@[a]@.contains_key(b) ==> self.edges@[a]@[b]
                <= W_MAX_PERMILLE
    }

    pub fn new() -> (r: Self)
        ensures
            r@ == Map::<(DogId, DogId), u16>::empty(),
    {
        let r = BondGraph { edges: HashMap::new() };
        assert(r@ =~= Map::<(DogId, DogId), u16>::empty());
        r
    }

    /// Set the weight of `from -> to`, capped at the maximum.
    pub fn set_weight(&mut self, from: DogId, to: DogId, weight: u16)
        ensures
            final(self)@ == old(self)@.insert((from, to), clamp_weight(weight)),
    {
        proof {
            use_type_invariant(&*self);
        }
        let w: u16 = if weight > W_MAX_PERMILLE {
            W_MAX_PERMILLE
        } else {
            weight
        };
        let mut edges: HashMap<u128, HashMap<u128, u16>> = HashMap::new();
        std::mem::swap(&mut edges, &mut self.edges);
        let ghost before = edges@;
        let mut inner: HashMap<u128, u16> = match edges.remove(&from.0) {
            Some(m) => m,
            None => HashMap::new(),
        };
        inner.insert(to.0, w);
        edges.insert(from.0, inner);
        assert forall|a: u128, b: u128|
            #![trigger edges@[a]@[b]]
            edges@.contains_key(a) && edges@[a]@.contains_key(b) implies edges@[a]@[b]
            <= W_MAX_PERMILLE by {
            if a != from.0 {
                assert(before[a]@[b] <= W_MAX_PERMILLE);
            } else if b != to.0 {
                assert(before.contains_key(a));
                assert(before[a]@[b] <= W_MAX_PERMILLE);
            }
        }
        self.edges = edges;
        assert(self@ =~= old(self)@.insert((from, to), w));
    }

    /// Bootstrap a mutual pair (steward): both directions get the weight,
    /// capped at the maximum and raised to at least the minimum.
    pub fn bootstrap_mutual(&mut self, a: DogId, b: DogId, weight: u16)
        ensures
            final(self)@ == old(self)@.insert((a, b), Self::bootstrap_weight(weight)).insert(
                (b, a),
                Self::bootstrap_weight(weight),
            ),
            mutual_in(final(self)@, a, b),
            weight_in(final(self)@, a, b) == weight_in(final(self)@, b, a),
            W_MIN_PERMILLE <= weight_in(final(self)@, a, b) <= W_MAX_PERMILLE,
            W_MIN_PERMILLE <= weight <= W_MAX_PERMILLE ==> weight_in(final(self)@, a, b) == weight,
    {
        proof {
            lemma_bootstrap_weight(weight);
        }
        let capped: u16 = if weight > W_MAX_PERMILLE {
            W_MAX_PERMILLE
        } else {
            weight
        };
        let w: u16 = if capped < W_MIN_PERMILLE {
            W_MIN_PERMILLE
        } else {
            capped
        };
        self.set_weight(a, b, w);
        self.set_weight(b, a, w);
    }

    /// The weight a bootstrapped pair gets.
    pub open spec fn bootstrap_weight(weight: u16) -> u16 {
        let capped = clamp_weight(weight);
        if capped < W_MIN_PERMILLE {
            W_MIN_PERMILLE
        } else {
            capped
        }
    }

    pub fn weight(&self, from: DogId, to: DogId) -> (r: u16)
        ensures
            r == weight_in(self@, from, to),
            r <= W_MAX_PERMILLE,
    {
        proof {
            use_type_invariant(self);
        }
        match self.edges.get(&from.0) {
            Some(inner) => match inner.get(&to.0) {
                Some(w) => *w,
                None => 0,
            },
            None => 0,
        }
    }

    pub fn mutual_eligible(&self, a: DogId, b: DogId) -> (r: bool)
        ensures
            r == mutual_in(self@, a, b),
    {
        self.weight(a, b) >= W_MIN_PERMILLE && self.weight(b, a) >= W_MIN_PERMILLE
    }

    /// Peers `from` may call, sorted by weight, strongest first. Peers of
    /// equal weight come in no promised order.
    #[verifier::rlimit(40)]
    pub fn candidates(&self, from: DogId) -> (out: Vec<(DogId, u16)>)
        ensures
            forall|i: int| 0 <= i < out@.len() ==> is_candidate(self@, from, out@[i].0, out@[i].1),
            forall|t: DogId, w: u16|
                is_candidate(self@, from, t, w) ==> exists|i: int|
                    0 <= i < out@.len() && out@[i] == (t, w),
            distinct_dogs(out@),
            sorted_by_weight_desc(out@),
    {
        let mut out: Vec<(DogId, u16)> = Vec::new();
        let inner = match self.edges.get(&from.0) {
            Some(m) => m,
            None => {
                return out;
            },
        };
        let keys = map_keys(inner);
        let mut k: usize = 0;
        while k < keys.len()
            invariant
                inner@ == self.edges@[from.0]@,
                self.edges@.contains_key(from.0),
                keys@.to_set() == inner@.dom(),
                keys@.no_duplicates(),
                k <= keys@.len(),
                forall|i: int| 0 <= i < out@.len() ==> is_candidate(self@, from, out@[i].0, out@[i].1),
                forall|i: int|
                    #![trigger out@[i]]
                    0 <= i < out@.len() ==> exists|j: int|
                        #![trigger keys@[j]]
                        0 <= j < k && keys@[j] == out@[i].0.0,
                forall|j: int|
                    #![trigger keys@[j]]
                    0 <= j < k && mutual_in(self@, from, DogId(keys@[j])) ==> exists|i: int|
                        #![trigger out@[i]]
                        0 <= i < out@.len() && out@[i].0.0 == keys@[j],
                distinct_dogs(out@),
                sorted_by_weight_desc(out@),
            decreases keys@.len() - k,
        {
            let peer = DogId(keys[k]);
            proof {
                assert(keys@.to_set().contains(keys@[k as int]));
            }
            let w: u16 = self.weight(from, peer);
            if w >= W_MIN_PERMILLE && self.weight(peer, from) >= W_MIN_PERMILLE {
                let mut p: usize = 0;
                while p < out.len() && out[p].1 >= w
                    invariant
                        p <= out@.len(),
                        forall|i: int| 0 <= i < p ==> out@[i].1 >= w,
                    decreases out@.len() - p,
                {
                    p = p + 1;
                }
                let ghost prev = out@;
                proof {
                    assert forall|i: int| 0 <= i < prev.len() implies prev[i].0 != peer by {
                        let j = choose|j: int| 0 <= j < k && keys@[j] == prev[i].0.0;
                        assert(keys@[j] != keys@[k as int]);
                    }
                    lemma_insert_sorted(prev, p as int, (peer, w));
                }
                out.insert(p, (peer, w));
                proof {
                    assert forall|i: int| 0 <= i < out@.len() implies is_candidate(
                        self@,
                        from,
                        out@[i].0,
                        out@[i].1,
                    ) by {
                        if i < p {
                            assert(out@[i] == prev[i]);
                        } else if i > p {
                            assert(out@[i] == prev[i - 1]);
                        }
                    }
                    assert forall|i: int|
                        #![trigger out@[i]]
                        0 <= i < out@.len() implies exists|j: int|
                        #![trigger keys@[j]]
                        0 <= j < k + 1 && keys@[j] == out@[i].0.0 by {
                        if i < p {
                            assert(out@[i] == prev[i]);
                        } else if i > p {
                            assert(out@[i] == prev[i - 1]);
                        } else {
                            assert(keys@[k as int] == out@[i].0.0);
                        }
                    }
                    assert forall|j: int|
                        #![trigger keys@[j]]
                        0 <= j < k + 1 && mutual_in(self@, from, DogId(keys@[j])) implies exists|
                        i: int,
                    |
                        #![trigger out@[i]]
                        0 <= i < out@.len() && out@[i].0.0 == keys@[j] by {
                        if j < k {
                            let a = choose|a: int| 0 <= a < prev.len() && prev[a].0.0 == keys@[j];
                            if a < p {
                                assert(out@[a] == prev[a]);
                            } else {
                                assert(out@[a + 1] == prev[a]);
                            }
                        } else {
                            assert(out@[p as int].0.0 == keys@[j]);
                        }
                    }
                }
            }
            k = k + 1;
        }
        proof {
            assert forall|t: DogId, w: u16| is_candidate(self@, from, t, w) implies exists|i: int|
                0 <= i < out@.len() && out@[i] == (t, w) by {
                assert(keys@.to_set().contains(t.0));
                let j = choose|j: int| 0 <= j < keys@.len() && keys@[j] == t.0;
                let i = choose|i: int| 0 <= i < out@.len() && out@[i].0.0 == keys@[j];
                assert(is_candidate(self@, from, out@[i].0, out@[i].1));
            }
        }
        out
    }
}

/// Inserting an element at its place in a weight-sorted list of distinct
/// dogs keeps the list sorted and distinct.
proof fn lemma_insert_sorted(prev: Seq<(DogId, u16)>, p: int, e: (DogId, u16))
    requires
        0 <= p <= prev.len(),
        sorted_by_weight_desc(prev),
        distinct_dogs(prev),
        forall|i: int| 0 <= i < p ==> prev[i].1 >= e.1,
        p < prev.len() ==> prev[p].1 < e.1,
        forall|i: int| 0 <= i < prev.len() ==> prev[i].0 != e.0,
    ensures
        sorted_by_weight_desc(prev.insert(p, e)),
        distinct_dogs(prev.insert(p, e)),
{
    let n = prev.insert(p, e);
    assert forall|i: int, j: int| 0 <= i < j < n.len() implies n[i].1 >= n[j].1 by {
        if j < p {
        } else if i < p && j == p {
        } else if i < p {
            assert(n[j] == prev[j - 1]);
        } else if i == p {
            assert(n[j] == prev[j - 1]);
            assert(prev[p].1 >= prev[j - 1].1);
        } else {
            assert(n[i] == prev[i - 1]);
            assert(n[j] == prev[j - 1]);
        }
    }
    assert forall|i: int, j: int| 0 <= i < j < n.len() implies n[i].0 != n[j].0 by {
        if j < p {
        } else if i < p && j == p {
        } else if i < p {
            assert(n[j] == prev[j - 1]);
        } else if i == p {
            assert(n[j] == prev[j - 1]);
        } else {
            assert(n[i] == prev[i - 1]);
            assert(n[j] == prev[j - 1]);
        }
    }
}

/// The keys of a map, each once, in the map's iteration order.
pub fn map_keys<V>(m: &HashMap<u128, V>) -> (v: Vec<u128>)
    ensures
        v@.to_set() == m@.dom(),
        v@.no_duplicates(),
{
    let mut v: Vec<u128> = Vec::new();
    for k in it: m.keys()
        invariant
            it.seq().no_duplicates(),
            it.seq().unref().to_set() == m@.dom(),
            v@ == it.seq().take(it.index() as int).unref(),
            v@.no_duplicates(),
            it.index() == it.seq().len() ==> v@.to_set() == m@.dom(),
    {
        v.push(*k);
        assert(v@ =~= it.seq().take(it.index() as int + 1).unref());
        assert(it.index() + 1 == it.seq().len() ==> it.seq().take(it.index() + 1) =~= it.seq());
        assert forall|i: int, j: int| 0 <= i < j < v@.len() implies v@[i] != v@[j] by {
            assert(v@[i] == *it.seq()[i] && v@[j] == *it.seq()[j]);
        }
    }
    v
}


/// A bootstrapped weight always counts toward a bond and never exceeds the
/// maximum: a weight below the minimum is raised to it, one above the
/// maximum is capped, and one in between is kept.
pub proof fn lemma_bootstrap_weight(w: u16)
    ensures
        W_MIN_PERMILLE <= BondGraph::bootstrap_weight(w) <= W_MAX_PERMILLE,
        w < W_MIN_PERMILLE ==> BondGraph::bootstrap_weight(w) == W_MIN_PERMILLE,
        w > W_MAX_PERMILLE ==> BondGraph::bootstrap_weight(w) == W_MAX_PERMILLE,
        W_MIN_PERMILLE <= w <= W_MAX_PERMILLE ==> BondGraph::bootstrap_weight(w) == w,
{
}

/// Bootstrapping a pair makes it mutual, whatever the graph held before
/// and whatever weight was asked for: both directions get the same weight,
/// at least the minimum.
pub proof fn lemma_bootstrap_is_mutual(m: Map<(DogId, DogId), u16>, a: DogId, b: DogId, w: u16)
    ensures
        ({
            let bw = BondGraph::bootstrap_weight(w);
            let after = m.insert((a, b), bw).insert((b, a), bw);
            &&& mutual_in(after, a, b)
            &&& mutual_in(after, b, a)
            &&& weight_in(after, a, b) == weight_in(after, b, a)
            &&& weight_in(after, a, b) >= W_MIN_PERMILLE
        }),
{
    lemma_bootstrap_weight(w);
}

} // verus!
