//! The role a node plays and the bookkeeping that goes with it.

use vstd::prelude::*;
use crate::types::NodeId;

verus! {

/// A map from node identifiers to log indices.
#[derive(Debug)]
pub struct NodeIndexMap {
    keys: Vec<NodeId>,
    values: Vec<u64>,
}

impl NodeIndexMap {
    #[verifier::type_invariant]
    spec fn well_formed(self) -> bool {
        &&& self.keys@.len() == self.values@.len()
        &&& self.keys@.no_duplicates()
    }

    /// The nodes that have an entry, in the order in which they were added.
    pub closed spec fn keys_view(&self) -> Seq<NodeId> {
        self.keys@
    }

    /// The indices, in the order of `keys_view`.
    pub closed spec fn values_view(&self) -> Seq<u64> {
        self.values@
    }

    /// The map itself.
    pub open spec fn view(&self) -> Map<NodeId, u64> {
        Map::new(
            |k: NodeId| self.keys_view().contains(k),
            |k: NodeId| self.values_view()[self.keys_view().index_of(k)],
        )
    }

    /// The shape facts that the invariant gives: keys occur once each, and
    /// each value stands at its key's position.
    pub open spec fn shaped(&self) -> bool {
        &&& self.keys_view().len() == self.values_view().len()
        &&& self.keys_view().no_duplicates()
        &&& forall|i: int|
            0 <= i < self.keys_view().len() ==> #[trigger] self@[self.keys_view()[i]]
                == self.values_view()[i]
        &&& self@.dom().finite()
        &&& self@.dom().len() == self.keys_view().len()
        &&& self@.dom() == self.keys_view().to_set()
    }

    proof fn lemma_shape(&self)
        requires
            self.well_formed(),
        ensures
            self.shaped(),
    {
        assert forall|i: int| 0 <= i < self.keys_view().len() implies #[trigger] self@[self.keys_view()[i]]
            == self.values_view()[i] by {
            lemma_index_of_unique(self.keys@, i);
        }
        assert(self@.dom() =~= self.keys@.to_set());
        self.keys@.unique_seq_to_set();
        vstd::seq_lib::seq_to_set_is_finite(self.keys@);
    }

    /// The empty map.
    pub fn new() -> (r: NodeIndexMap)
        ensures
            r@ == Map::<NodeId, u64>::empty(),
            r.keys_view() == Seq::<NodeId>::empty(),
            r.values_view() == Seq::<u64>::empty(),
    {
        let r = NodeIndexMap { keys: Vec::new(), values: Vec::new() };
        assert(r@ =~= Map::<NodeId, u64>::empty());
        r
    }

    fn find(&self, k: &NodeId) -> (r: Option<usize>)
        ensures
            match r {
                Some(i) => i < self.keys_view().len() && self.keys_view()[i as int] == *k,
                None => !self.keys_view().contains(*k),
            },
    {
        proof {
            use_type_invariant(self);
        }
        let n = self.keys.len();
        let mut i: usize = 0;
        while i < n
            invariant
                n == self.keys@.len(),
                i <= n,
                forall|j: int| 0 <= j < i ==> self.keys@[j] != *k,
            decreases n - i,
        {
            if self.keys[i] == *k {
                return Some(i);
            }
            i = i + 1;
        }
        None
    }

    /// The index stored for `k`, if any.
    pub fn get(&self, k: &NodeId) -> (r: Option<u64>)
        ensures
            r == (if self@.dom().contains(*k) {
                Some(self@[*k])
            } else {
                None
            }),
    {
        proof {
            use_type_invariant(self);
        }
        match self.find(k) {
            Some(i) => {
                proof {
                    lemma_index_of_unique(self.keys@, i as int);
                }
                Some(self.values[i])
            },
            None => None,
        }
    }

    /// Whether `k` has an entry.
    pub fn contains_key(&self, k: &NodeId) -> (r: bool)
        ensures
            r == self@.dom().contains(*k),
    {
        self.find(k).is_some()
    }

    /// Sets the index of `k` to `v`, adding `k` if it had no entry.
    pub fn insert(&mut self, k: NodeId, v: u64)
        ensures
            final(self)@ == old(self)@.insert(k, v),
            old(self).keys_view().contains(k) ==> final(self).keys_view() == old(self).keys_view(),
            !old(self).keys_view().contains(k) ==> final(self).keys_view() == old(
                self,
            ).keys_view().push(k),
    {
        proof {
            use_type_invariant(&*self);
        }
        let found = self.find(&k);
        let mut taken = NodeIndexMap::new();
        std::mem::swap(&mut taken, self);
        let NodeIndexMap { keys: mut keys, values: mut values } = taken;
        let ghost old_keys = keys@;
        match found {
            Some(i) => {
                values.set(i, v);
            },
            None => {
                keys.push(k);
                values.push(v);
            },
        }
        proof {
            assert forall|j: int| 0 <= j < old_keys.len() implies old_keys.index_of(
                #[trigger] old_keys[j],
            ) == j by {
                lemma_index_of_unique(old_keys, j);
            }
            assert forall|j: int| 0 <= j < keys@.len() implies keys@.index_of(
                #[trigger] keys@[j],
            ) == j by {
                lemma_index_of_unique(keys@, j);
            }
        }
        *self = NodeIndexMap { keys, values };
        proof {
            assert forall|x: NodeId| #[trigger] self@.dom().contains(x) implies self@[x]
                == old(self)@.insert(k, v)[x] by {
                let j = self.keys@.index_of(x);
                if x != k {
                    assert(old_keys.contains(x));
                    let jo = choose|jo: int| 0 <= jo < old_keys.len() && old_keys[jo] == x;
                    assert(self.keys@[jo] == x);
                    assert(self.keys@.index_of(self.keys@[jo]) == jo);
                    assert(old_keys.index_of(old_keys[jo]) == jo);
                }
            }
            assert forall|x: NodeId| #[trigger] old_keys.contains(x) implies self.keys@.contains(x) by {
                let jo = choose|jo: int| 0 <= jo < old_keys.len() && old_keys[jo] == x;
                assert(self.keys@[jo] == x);
            }
            assert forall|x: NodeId| #[trigger] self.keys@.contains(x) && x != k implies old_keys.contains(x) by {
                let j = choose|j: int| 0 <= j < self.keys@.len() && self.keys@[j] == x;
                assert(old_keys[j] == x);
            }
            if found is None {
                assert(self.keys@[old_keys.len() as int] == k);
            }
            assert(self@.dom() =~= old(self)@.insert(k, v).dom());
        }
        assert(self@ =~= old(self)@.insert(k, v));
    }

    /// The number of entries.
    pub fn len(&self) -> (r: usize)
        ensures
            r == self@.dom().len(),
            r == self.keys_view().len(),
            self.shaped(),
    {
        proof {
            use_type_invariant(self);
            self.lemma_shape();
        }
        self.keys.len()
    }

    /// The stored indices, in the order of `keys_view`.
    pub fn values(&self) -> (r: Vec<u64>)
        ensures
            r@ == self.values_view(),
            self.shaped(),
    {
        proof {
            use_type_invariant(self);
            self.lemma_shape();
        }
        self.values.clone()
    }
}

/// In a sequence without duplicates the position of an element is the one
/// it was found at.
pub proof fn lemma_index_of_unique<A>(s: Seq<A>, i: int)
    requires
        s.no_duplicates(),
        0 <= i < s.len(),
    ensures
        s.index_of(s[i]) == i,
        s.contains(s[i]),
{
    assert(s.contains(s[i]));
}

/// A set of node identifiers.
#[derive(Debug)]
pub struct NodeSet {
    members: Vec<NodeId>,
}

impl NodeSet {
    #[verifier::type_invariant]
    spec fn well_formed(self) -> bool {
        self.members@.no_duplicates()
    }

    /// The members.
    pub closed spec fn view(&self) -> Set<NodeId> {
        self.members@.to_set()
    }

    /// The empty set.
    pub fn new() -> (r: NodeSet)
        ensures
            r@ == Set::<NodeId>::empty(),
    {
        let r = NodeSet { members: Vec::new() };
        assert(r@ =~= Set::<NodeId>::empty());
        r
    }

    /// Adds `id`; returns whether it was absent.
    pub fn insert(&mut self, id: NodeId) -> (r: bool)
        ensures
            final(self)@ == old(self)@.insert(id),
            r == !old(self)@.contains(id),
    {
        proof {
            use_type_invariant(&*self);
        }
        if self.contains(&id) {
            assert(self@.insert(id) =~= self@);
            false
        } else {
            let mut taken = NodeSet::new();
            std::mem::swap(&mut taken, self);
            let NodeSet { members: mut members } = taken;
            let ghost old_members = members@;
            members.push(id);
            proof {
                assert forall|i: int, j: int|
                    0 <= i < members@.len() && 0 <= j < members@.len() && i != j implies members@[i]
                    != members@[j] by {
                    if i == old_members.len() {
                        assert(members@[i] == id);
                        assert(members@[j] == old_members[j]);
                    } else if j == old_members.len() {
                        assert(members@[j] == id);
                        assert(members@[i] == old_members[i]);
                    } else {
                        assert(members@[i] == old_members[i]);
                        assert(members@[j] == old_members[j]);
                    }
                }
            }
            *self = NodeSet { members };
            proof {
                assert forall|x: NodeId| #[trigger] self.members@.contains(x) <==> (old_members.contains(x)
                    || x == id) by {
                    if old_members.contains(x) {
                        let j = choose|j: int| 0 <= j < old_members.len() && old_members[j] == x;
                        assert(self.members@[j] == x);
                    }
                    if x == id {
                        assert(self.members@[old_members.len() as int] == x);
                    }
                    if self.members@.contains(x) && x != id {
                        let j = choose|j: int| 0 <= j < self.members@.len() && self.members@[j] == x;
                        assert(old_members[j] == x);
                    }
                }
            }
            assert(self@ =~= old(self)@.insert(id));
            true
        }
    }

    /// Whether `id` is a member.
    pub fn contains(&self, id: &NodeId) -> (r: bool)
        ensures
            r == self@.contains(*id),
    {
        let n = self.members.len();
        let mut i: usize = 0;
        while i < n
            invariant
                n == self.members@.len(),
                i <= n,
                forall|j: int| 0 <= j < i ==> self.members@[j] != *id,
            decreases n - i,
        {
            if self.members[i] == *id {
                assert(self.members@.contains(*id));
                return true;
            }
            i = i + 1;
        }
        false
    }

    /// The number of members.
    pub fn len(&self) -> (r: usize)
        ensures
            self@.finite(),
            r == self@.len(),
    {
        proof {
            use_type_invariant(self);
            self.members@.unique_seq_to_set();
            vstd::seq_lib::seq_to_set_is_finite(self.members@);
        }
        self.members.len()
    }
}

/// Bookkeeping of a leader: for each peer the next log index to send and the
/// highest index known to be replicated there.
#[derive(Debug)]
pub struct Leader {
    pub next_index: NodeIndexMap,
    pub match_index: NodeIndexMap,
}

impl Leader {
    /// A leader that will send from index 1 to every peer and knows of no
    /// replicated entry.
    pub fn new(peers: Vec<NodeId>) -> (r: Leader)
        ensures
            r.next_index@ == Map::new(|k: NodeId| peers@.contains(k), |k: NodeId| 1u64),
            r.match_index@ == Map::new(|k: NodeId| peers@.contains(k), |k: NodeId| 0u64),
            r.match_index.keys_view().to_set() == peers@.to_set(),
    {
        let mut next_index = NodeIndexMap::new();
        let mut match_index = NodeIndexMap::new();
        let n = peers.len();
        for i in 0..n
            invariant
                n == peers@.len(),
                next_index@ == Map::new(|k: NodeId| peers@.take(i as int).contains(k), |k: NodeId| 1u64),
                match_index@ == Map::new(|k: NodeId| peers@.take(i as int).contains(k), |k: NodeId| 0u64),
                match_index.keys_view().to_set() == peers@.take(i as int).to_set(),
        {
            let p = peers[i];
            next_index.insert(p, 1);
            match_index.insert(p, 0);
            proof {
                assert(peers@.take(i + 1) =~= peers@.take(i as int).push(p));
                assert forall|k: NodeId| #[trigger] peers@.take(i + 1).contains(k) <==> (peers@.take(
                    i as int,
                ).contains(k) || k == p) by {
                    if peers@.take(i as int).contains(k) {
                        let j = choose|j: int| 0 <= j < i && #[trigger] peers@.take(i as int)[j] == k;
                        assert(peers@.take(i + 1)[j] == k);
                    }
                    if k == p {
                        assert(peers@.take(i + 1)[i as int] == k);
                    }
                    if peers@.take(i + 1).contains(k) && k != p {
                        let j = choose|j: int| 0 <= j < i + 1 && #[trigger] peers@.take(i + 1)[j] == k;
                        assert(peers@.take(i as int)[j] == k);
                    }
                }
                assert(next_index@ =~= Map::new(|k: NodeId| peers@.take(i + 1).contains(k), |k: NodeId| 1u64));
                assert(match_index@ =~= Map::new(|k: NodeId| peers@.take(i + 1).contains(k), |k: NodeId| 0u64));
                assert(match_index.keys_view().to_set() =~= peers@.take(i + 1).to_set());
            }
        }
        assert(peers@.take(n as int) =~= peers@);
        Leader { next_index, match_index }
    }
}

/// Bookkeeping of a follower.
#[derive(Debug, Clone, Copy, PartialEq, Eq, Structural)]
pub struct Follower {
    pub voted_for: Option<NodeId>,
}

/// Bookkeeping of a candidate.
#[derive(Debug)]
pub struct Candidate {
    pub votes_received: Vec<NodeId>,
}

/// The role of a node.
#[derive(Debug)]
pub enum NodeState {
    Leader(Leader),
    Follower(Follower),
    Candidate(Candidate),
}

impl NodeState {
    /// Whether the node leads.
    pub fn is_leader(&self) -> (r: bool)
        ensures
            r == self is Leader,
    {
        match self {
            NodeState::Leader(_) => true,
            _ => false,
        }
    }

    /// Whether the node follows.
    pub fn is_follower(&self) -> (r: bool)
        ensures
            r == self is Follower,
    {
        match self {
            NodeState::Follower(_) => true,
            _ => false,
        }
    }

    /// Whether the node stands for election.
    pub fn is_candidater(&self) -> (r: bool)
        ensures
            r == self is Candidate,
    {
        match self {
            NodeState::Candidate(_) => true,
            _ => false,
        }
    }
}

} // verus!
