//! The registry that maps each client to its worker's slot.
use std::collections::HashMap;
use vstd::prelude::*;
use vstd::relations::injective;
use vstd::set_lib::{lemma_int_range, lemma_len_subset, set_int_range};

verus! {

broadcast use vstd::std_specs::hash::group_hash_axioms;

/// A list of distinct client ids is no longer than the number of ids.
proof fn lemma_distinct_clients_bound(s: Seq<u16>)
    requires
        s.no_duplicates(),
    ensures
        s.len() <= 65536,
{
    let f = |x: u16| x as int;
    assert(injective(f));
    s.lemma_no_duplicates_injective(f);
    let m = s.map_values(f);
    m.unique_seq_to_set();
    lemma_int_range(0, 65536);
    assert(m.to_set().subset_of(set_int_range(0, 65536)));
    lemma_len_subset(m.to_set(), set_int_range(0, 65536));
}

/// Client ids in the order their workers were created, and the slot of each.
pub struct Registry {
    slots: HashMap<u16, usize>,
    clients: Vec<u16>,
}

impl Registry {
    /// The registered clients, in order of registration.
    pub closed spec fn clients(&self) -> Seq<u16> {
        self.clients@
    }

    /// The slot of each registered client.
    pub closed spec fn slots(&self) -> Map<u16, usize> {
        self.slots@
    }

    /// Each registered client appears once, at the slot the map gives it.
    pub open spec fn wf(&self) -> bool {
        &&& self.clients().no_duplicates()
        &&& forall|i: int|
            0 <= i < self.clients().len() ==> #[trigger] self.slots().contains_key(self.clients()[i])
                && self.slots()[self.clients()[i]] == i
        &&& forall|c: u16| #[trigger]
            self.slots().contains_key(c) ==> self.slots()[c] < self.clients().len()
                && self.clients()[self.slots()[c] as int] == c
    }

    /// An empty registry.
    pub fn new() -> (r: Registry)
        ensures
            r.wf(),
            r.clients() == Seq::<u16>::empty(),
    {
        let r = Registry { slots: HashMap::new(), clients: Vec::new() };
        assert(r.slots() =~= Map::<u16, usize>::empty());
        r
    }

    /// The number of registered clients.
    pub fn len(&self) -> (r: usize)
        ensures
            r == self.clients().len(),
    {
        self.clients.len()
    }

    /// The slot of `client`, if it is registered.
    pub fn slot_of(&self, client: u16) -> (r: Option<usize>)
        requires
            self.wf(),
        ensures
            r == (if self.slots().contains_key(client) {
                Some(self.slots()[client])
            } else {
                None::<usize>
            }),
    {
        match self.slots.get(&client) {
            Some(s) => Some(*s),
            None => None,
        }
    }

    /// The slot of `client`, registering it at the next slot when it is new;
    /// the flag says whether it was new.
    pub fn route(&mut self, client: u16) -> (r: (usize, bool))
        requires
            old(self).wf(),
        ensures
            final(self).wf(),
            r.1 == !old(self).clients().contains(client),
            r.1 ==> final(self).clients() == old(self).clients().push(client),
            !r.1 ==> final(self).clients() == old(self).clients(),
            r.0 < final(self).clients().len(),
            final(self).clients()[r.0 as int] == client,
    {
        match self.slots.get(&client) {
            Some(slot) => {
                let s = *slot;
                proof {
                    assert(self.slots@.contains_key(client));
                    assert(self.slots()[client] == s);
                    assert(self.clients()[s as int] == client);
                }
                (s, false)
            },
            None => {
                proof {
                    lemma_distinct_clients_bound(self.clients());
                    assert(!self.slots@.contains_key(client));
                    if self.clients().contains(client) {
                        let k = choose|k: int| 0 <= k < self.clients().len() && self.clients()[k] == client;
                        assert(self.slots().contains_key(self.clients()[k]));
                    }
                }
                let s = self.clients.len();
                self.clients.push(client);
                self.slots.insert(client, s);
                proof {
                    let cs = self.clients();
                    assert(cs[s as int] == client);
                    assert forall|i: int| 0 <= i < cs.len() implies #[trigger] self.slots().contains_key(cs[i])
                        && self.slots()[cs[i]] == i by {
                        if i < s {
                            assert(old(self).clients()[i] == cs[i]);
                            assert(old(self).slots().contains_key(old(self).clients()[i]));
                            assert(cs[i] != client);
                        }
                    }
                    assert forall|c: u16| #[trigger] self.slots().contains_key(c) implies self.slots()[c]
                        < cs.len() && cs[self.slots()[c] as int] == c by {
                        if c != client {
                            assert(old(self).slots().contains_key(c));
                        }
                    }
                    assert forall|i: int, j: int| 0 <= i < j < cs.len() implies cs[i] != cs[j] by {
                        if j == s {
                            assert(old(self).clients()[i] == cs[i]);
                            assert(old(self).slots().contains_key(old(self).clients()[i]));
                        } else {
                            assert(old(self).clients()[i] == cs[i]);
                            assert(old(self).clients()[j] == cs[j]);
                        }
                    }
                }
                (s, true)
            },
        }
    }
}

} // verus!
