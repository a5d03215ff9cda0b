//! The replicated key-value state machine that committed entries are
//! applied to.

use vstd::prelude::*;
use crate::types::{bytes_eq, bytes_to_vec};

verus! {

/// Failures of a state machine.
#[derive(Debug, PartialEq, Eq)]
pub enum Error {
    /// Error connecting the state machine
    ConnectionError,
    /// Query failed, with the message of the underlying store
    QueryError(String),
}

/// A key-value store that committed commands are applied to.
pub trait StateMachine {
    /// The stored key-value pairs.
    spec fn contents(&self) -> Map<Seq<u8>, Seq<u8>>;

    /// Whether every write is known to succeed.
    spec fn reliable(&self) -> bool;

    /// Stores `value` under `key`; on failure nothing changes.
    fn set(&mut self, key: &[u8], value: &[u8]) -> (r: Result<(), Error>)
        ensures
            r is Ok ==> final(self).contents() == old(self).contents().insert(key@, value@),
            r is Err ==> final(self).contents() == old(self).contents(),
            old(self).reliable() ==> r is Ok,
            final(self).reliable() == old(self).reliable(),
    ;

    /// The value stored under `key`, if any.
    fn get(&self, key: &[u8]) -> (r: Result<Option<Vec<u8>>, Error>)
        ensures
            r matches Ok(o) ==> (o is Some <==> self.contents().dom().contains(key@)),
            r matches Ok(Some(v)) ==> v@ == self.contents()[key@],
    ;
}

/// A state machine held in memory, for tests.
#[derive(Debug)]
pub struct MockStateMachine {
    keys: Vec<Vec<u8>>,
    values: Vec<Vec<u8>>,
}

/// The key-value map whose keys and values stand at the same positions of
/// the two sequences.
pub open spec fn pairs_map(keys: Seq<Seq<u8>>, values: Seq<Seq<u8>>) -> Map<Seq<u8>, Seq<u8>> {
    Map::new(|k: Seq<u8>| keys.contains(k), |k: Seq<u8>| values[keys.index_of(k)])
}

impl MockStateMachine {
    #[verifier::type_invariant]
    spec fn well_formed(self) -> bool {
        &&& self.keys@.len() == self.values@.len()
        &&& self.keys_view().no_duplicates()
    }

    closed spec fn keys_view(&self) -> Seq<Seq<u8>> {
        self.keys@.map_values(|k: Vec<u8>| k@)
    }

    closed spec fn values_view(&self) -> Seq<Seq<u8>> {
        self.values@.map_values(|v: Vec<u8>| v@)
    }

    /// An empty store.
    pub fn new() -> (r: MockStateMachine)
        ensures
            r.contents() == Map::<Seq<u8>, Seq<u8>>::empty(),
            r.reliable(),
    {
        let r = MockStateMachine { keys: Vec::new(), values: Vec::new() };
        assert(r.keys_view() =~= Seq::<Seq<u8>>::empty());
        assert(r.contents() =~= Map::<Seq<u8>, Seq<u8>>::empty());
        r
    }

    fn find(&self, key: &[u8]) -> (r: Option<usize>)
        ensures
            match r {
                Some(i) => i < self.keys_view().len() && self.keys_view()[i as int] == key@,
                None => !self.keys_view().contains(key@),
            },
    {
        proof {
            use_type_invariant(self);
        }
        let n = self.keys.len();
        let mut i: usize = 0;
        while i < n
            invariant
                n == self.keys@.len(),
                i <= n,
                forall|j: int| 0 <= j < i ==> self.keys_view()[j] != key@,
            decreases n - i,
        {
            if bytes_eq(self.keys[i].as_slice(), key) {
                return Some(i);
            }
            i = i + 1;
        }
        None
    }

    /// Every stored key-value pair, each key once.
    pub fn get_data(&self) -> (r: Vec<(Vec<u8>, Vec<u8>)>)
        ensures
            r@.len() == self.contents().dom().len(),
            forall|i: int|
                0 <= i < r@.len() ==> self.contents().dom().contains((#[trigger] r@[i]).0@)
                    && self.contents()[r@[i].0@] == r@[i].1@,
            forall|i: int, j: int|
                0 <= i < r@.len() && 0 <= j < r@.len() && i != j ==> (#[trigger] r@[i]).0@
                    != (#[trigger] r@[j]).0@,
    {
        proof {
            use_type_invariant(self);
        }
        let mut r: Vec<(Vec<u8>, Vec<u8>)> = Vec::new();
        let n = self.keys.len();
        for i in 0..n
            invariant
                n == self.keys@.len(),
                n == self.values@.len(),
                self.keys_view().no_duplicates(),
                r@.len() == i,
                forall|j: int|
                    0 <= j < i ==> (#[trigger] r@[j]).0@ == self.keys_view()[j] && r@[j].1@
                        == self.values_view()[j],
        {
            let k = self.keys[i].clone();
            let v = self.values[i].clone();
            assert(k@ == self.keys@[i as int]@);
            assert(v@ == self.values@[i as int]@);
            r.push((k, v));
        }
        proof {
            let kv = self.keys_view();
            assert forall|i: int| 0 <= i < r@.len() implies self.contents().dom().contains(
                (#[trigger] r@[i]).0@,
            ) && self.contents()[r@[i].0@] == r@[i].1@ by {
                crate::state::lemma_index_of_unique(kv, i);
            }
            assert(self.contents().dom() =~= kv.to_set());
            kv.unique_seq_to_set();
        }
        r
    }

    /// The value stored under `key`, if any.
    pub fn get_value(&self, key: &[u8]) -> (r: Option<Vec<u8>>)
        ensures
            r is Some <==> self.contents().dom().contains(key@),
            r matches Some(v) ==> v@ == self.contents()[key@],
    {
        proof {
            use_type_invariant(self);
        }
        match self.find(key) {
            Some(i) => {
                proof {
                    crate::state::lemma_index_of_unique(self.keys_view(), i as int);
                }
                Some(self.values[i].clone())
            },
            None => None,
        }
    }
}

impl StateMachine for MockStateMachine {
    closed spec fn contents(&self) -> Map<Seq<u8>, Seq<u8>> {
        pairs_map(self.keys_view(), self.values_view())
    }

    /// Writes to memory always succeed.
    open spec fn reliable(&self) -> bool {
        true
    }

    /// Always succeeds.
    fn set(&mut self, key: &[u8], value: &[u8]) -> (r: Result<(), Error>)
        ensures
            r is Ok,
    {
        proof {
            use_type_invariant(&*self);
        }
        let found = self.find(key);
        let mut taken = MockStateMachine { keys: Vec::new(), values: Vec::new() };
        proof {
            assert(taken.keys_view() =~= Seq::<Seq<u8>>::empty());
        }
        std::mem::swap(&mut taken, self);
        let MockStateMachine { keys: mut keys, values: mut values } = taken;
        let ghost old_keys = keys@.map_values(|k: Vec<u8>| k@);
        let ghost old_values = values@.map_values(|v: Vec<u8>| v@);
        let kv = bytes_to_vec(key);
        let vv = bytes_to_vec(value);
        match found {
            Some(i) => {
                values.set(i, vv);
            },
            None => {
                keys.push(kv);
                values.push(vv);
            },
        }
        let ghost new_keys = keys@.map_values(|k: Vec<u8>| k@);
        let ghost new_values = values@.map_values(|v: Vec<u8>| v@);
        proof {
            if found is None {
                assert(new_keys =~= old_keys.push(key@));
                assert(new_values =~= old_values.push(value@));
            } else {
                assert(new_keys =~= old_keys);
                assert(new_values =~= old_values.update(found->0 as int, value@));
            }
            assert forall|i: int, j: int|
                0 <= i < new_keys.len() && 0 <= j < new_keys.len() && i != j implies new_keys[i]
                != new_keys[j] by {
                if found is None {
                    if i == old_keys.len() {
                        assert(new_keys[i] == key@);
                        assert(new_keys[j] == old_keys[j]);
                        assert(old_keys.contains(old_keys[j]));
                    } else if j == old_keys.len() {
                        assert(new_keys[j] == key@);
                        assert(new_keys[i] == old_keys[i]);
                        assert(old_keys.contains(old_keys[i]));
                    } else {
                        assert(new_keys[i] == old_keys[i]);
                        assert(new_keys[j] == old_keys[j]);
                    }
                }
            }
            assert forall|j: int| 0 <= j < old_keys.len() implies old_keys.index_of(
                #[trigger] old_keys[j],
            ) == j by {
                crate::state::lemma_index_of_unique(old_keys, j);
            }
            assert forall|j: int| 0 <= j < new_keys.len() implies new_keys.index_of(
                #[trigger] new_keys[j],
            ) == j by {
                crate::state::lemma_index_of_unique(new_keys, j);
            }
            let m_old = pairs_map(old_keys, old_values);
            let m_new = pairs_map(new_keys, new_values);
            assert forall|x: Seq<u8>| #[trigger] new_keys.contains(x) <==> (old_keys.contains(x)
                || x == key@) by {
                if old_keys.contains(x) {
                    let j = choose|j: int| 0 <= j < old_keys.len() && old_keys[j] == x;
                    assert(new_keys[j] == x);
                }
                if x == key@ && found is None {
                    assert(new_keys[old_keys.len() as int] == x);
                }
                if new_keys.contains(x) && x != key@ {
                    let j = choose|j: int| 0 <= j < new_keys.len() && new_keys[j] == x;
                    assert(old_keys[j] == x);
                }
            }
            assert forall|x: Seq<u8>| #[trigger] m_new.dom().contains(x) implies m_new[x]
                == m_old.insert(key@, value@)[x] by {
                if x != key@ {
                    let jo = choose|jo: int| 0 <= jo < old_keys.len() && old_keys[jo] == x;
                    assert(new_keys[jo] == x);
                    assert(new_keys.index_of(new_keys[jo]) == jo);
                    assert(old_keys.index_of(old_keys[jo]) == jo);
                }
            }
            assert(m_new.dom() =~= m_old.insert(key@, value@).dom());
            assert(m_new =~= m_old.insert(key@, value@));
        }
        *self = MockStateMachine { keys, values };
        assert(self.keys_view() == new_keys);
        assert(self.values_view() == new_values);
        Ok(())
    }

    /// Always succeeds.
    fn get(&self, key: &[u8]) -> (r: Result<Option<Vec<u8>>, Error>)
        ensures
            r is Ok,
    {
        Ok(self.get_value(key))
    }
}

} // verus!
