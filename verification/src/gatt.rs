//! The BLE GATT server's client table: which connected client subscribed to
//! which characteristic, as the firmware's event handler keeps it.

use std::collections::HashMap;

use vstd::prelude::*;
use vstd::std_specs::iter::IteratorSpec;

verus! {

broadcast use vstd::std_specs::hash::group_hash_axioms;

/// The bit of characteristic number `index` in a subscription mask.
pub open spec fn bit(index: u8) -> u8 {
    (1u8 << index) as u8
}

/// A mask holds characteristic number `index`.
pub open spec fn holds(mask: u8, index: u8) -> bool {
    mask & bit(index) != 0
}

/// The client-characteristic-configuration value written to subscribe:
/// notifications `[1, 0]`, or indications `[2, 0]` where accepted.
pub open spec fn is_subscribe_value(value: Seq<u8>, indications: bool) -> bool {
    value =~= seq![1u8, 0u8] || (indications && value =~= seq![2u8, 0u8])
}

/// The value written to unsubscribe, `[0, 0]`.
pub open spec fn is_unsubscribe_value(value: Seq<u8>) -> bool {
    value =~= seq![0u8, 0u8]
}

/// The mask after a write of `value` for characteristic number `index`.
pub open spec fn mask_after_write(mask: u8, index: u8, value: Seq<u8>, indications: bool) -> u8 {
    if is_subscribe_value(value, indications) {
        mask | bit(index)
    } else if is_unsubscribe_value(value) {
        mask & !bit(index)
    } else {
        mask
    }
}

/// Entry `j` of a client listing is connection `c`, subscribed to
/// characteristic number `index`.
pub open spec fn listed_at(entries: Seq<(&u16, &u8)>, j: int, c: u16, index: u8) -> bool {
    *entries[j].0 == c && holds(*entries[j].1, index)
}

/// Connected clients and the characteristics each subscribed to, as a mask
/// with one bit per characteristic number.
pub struct Subscriptions {
    clients: HashMap<u16, u8>,
}

impl View for Subscriptions {
    type V = Map<u16, u8>;

    closed spec fn view(&self) -> Map<u16, u8> {
        self.clients@
    }
}

fn write_bytes_are(value: &[u8], a: u8, b: u8) -> (r: bool)
    ensures
        r == (value@ =~= seq![a, b]),
{
    let r = value.len() == 2 && value[0] == a && value[1] == b;
    proof {
        if r {
            assert(value@ =~= seq![a, b]);
        }
    }
    r
}

impl Subscriptions {
    /// No client connected.
    pub fn new() -> (r: Self)
        ensures
            r@ == Map::<u16, u8>::empty(),
    {
        Self { clients: HashMap::new() }
    }

    /// A client connected: it starts with no subscription (replacing any
    /// entry for the same connection).
    pub fn connect(&mut self, conn_id: u16)
        ensures
            final(self)@ == old(self)@.insert(conn_id, 0),
    {
        self.clients.insert(conn_id, 0);
    }

    /// Whether a client is connected on `conn_id`.
    pub fn is_connected(&self, conn_id: u16) -> (r: bool)
        ensures
            r == self@.contains_key(conn_id),
    {
        self.clients.contains_key(&conn_id)
    }

    /// A client disconnected.
    pub fn disconnect(&mut self, conn_id: u16)
        ensures
            final(self)@ == old(self)@.remove(conn_id),
    {
        self.clients.remove(&conn_id);
    }

    /// A client wrote `value` to the configuration descriptor of
    /// characteristic number `index`: subscribe or unsubscribe. Returns
    /// whether the client is connected (the write is then answered).
    pub fn write(&mut self, conn_id: u16, index: u8, value: &[u8], indications: bool) -> (r: bool)
        requires
            index < 8,
        ensures
            r == old(self)@.contains_key(conn_id),
            r ==> final(self)@ == old(self)@.insert(
                conn_id,
                mask_after_write(old(self)@[conn_id], index, value@, indications),
            ),
            !r ==> final(self)@ == old(self)@,
    {
        match self.clients.get(&conn_id) {
            Some(mask) => {
                let mask = *mask;
                let bit_of = 1u8 << index;
                let subscribe = write_bytes_are(value, 1, 0) || (indications && write_bytes_are(
                    value,
                    2,
                    0,
                ));
                let new_mask = if subscribe {
                    mask | bit_of
                } else if write_bytes_are(value, 0, 0) {
                    mask & !bit_of
                } else {
                    mask
                };
                self.clients.insert(conn_id, new_mask);
                true
            },
            None => false,
        }
    }

    /// The connections subscribed to characteristic number `index`, each
    /// once, in no particular order.
    pub fn subscribers(&self, index: u8) -> (r: Vec<u16>)
        requires
            index < 8,
        ensures
            r@.no_duplicates(),
            forall|c: u16|
                r@.contains(c) <==> (self@.contains_key(c) && holds(self@[c], index)),
    {
        let bit_of = 1u8 << index;
        let mut r: Vec<u16> = Vec::new();
        let ghost m = self.clients@;
        let ghost entries = vstd::std_specs::hash::spec_hash_map_iter(&self.clients).remaining();
        proof {
            vstd::std_specs::hash::axiom_spec_hash_map_iter(&self.clients);
        }
        for entry in it: self.clients.iter()
            invariant
                m == self.clients@,
                bit_of == bit(index),
                it.seq() == entries,
                entries.no_duplicates(),
                forall|a: int| 0 <= a < entries.len() ==> m.contains_key(*entries[a].0) && m[*entries[a].0] == *entries[a].1,
                r@.no_duplicates(),
                forall|c: u16|
                    r@.contains(c) <==> exists|j: int| 0 <= j < it.index() && #[trigger] listed_at(entries, j, c, index),
        {
            let (conn_id, mask) = entry;
            let ghost idx = it.index();
            let ghost old_r = r@;
            assert(entry == entries[idx]);
            if *mask & bit_of != 0 {
                proof {
                    assert forall|j: int| 0 <= j < idx implies *entries[j].0 != *conn_id by {
                        if *entries[j].0 == *conn_id {
                            assert(*entries[j].1 == m[*conn_id]);
                            assert(entries[j] == entries[idx]);
                        }
                    }
                    if old_r.contains(*conn_id) {
                        let j = choose|j: int| 0 <= j < idx && #[trigger] listed_at(entries, j, *conn_id, index);
                        assert(*entries[j].0 == *conn_id);
                    }
                }
                r.push(*conn_id);
            }
            proof {
                assert forall|c: u16| r@.contains(c) implies exists|j: int|
                    0 <= j < idx + 1 && #[trigger] listed_at(entries, j, c, index) by {
                    if old_r.contains(c) {
                        let j = choose|j: int| 0 <= j < idx && #[trigger] listed_at(entries, j, c, index);
                        assert(listed_at(entries, j, c, index));
                    } else {
                        assert(r@.last() == c);
                        assert(listed_at(entries, idx, c, index));
                    }
                }
                assert forall|c: u16| (exists|j: int|
                    0 <= j < idx + 1 && #[trigger] listed_at(entries, j, c, index)) implies r@.contains(c) by {
                    let j = choose|j: int| 0 <= j < idx + 1 && #[trigger] listed_at(entries, j, c, index);
                    if j < idx {
                        assert(old_r.contains(c));
                        assert(r@.contains(c)) by {
                            let k = choose|k: int| 0 <= k < old_r.len() && old_r[k] == c;
                            assert(r@[k] == c);
                        }
                    } else {
                        assert(r@.last() == c);
                        assert(r@[r@.len() - 1] == c);
                    }
                }
            }
        }
        proof {
            assert forall|c: u16| r@.contains(c) <==> (self@.contains_key(c) && holds(self@[c], index)) by {
                if self@.contains_key(c) && holds(self@[c], index) {
                    assert(entries.contains((&c, &m[c])));
                    let j = choose|j: int| 0 <= j < entries.len() && entries[j] == (&c, &m[c]);
                    assert(listed_at(entries, j, c, index));
                }
                if r@.contains(c) {
                    let j = choose|j: int| 0 <= j < entries.len() && #[trigger] listed_at(entries, j, c, index);
                    assert(m.contains_key(*entries[j].0));
                }
            }
        }
        r
    }
}

/// A subscribe write sets the written characteristic, an unsubscribe write
/// clears it, any other value leaves it, and no write touches another
/// characteristic.
pub proof fn lemma_subscription_writes(
    mask: u8,
    index: u8,
    other: u8,
    value: Seq<u8>,
    indications: bool,
)
    requires
        index < 8,
        other < 8,
        other != index,
    ensures
        is_subscribe_value(value, indications) ==> holds(
            mask_after_write(mask, index, value, indications),
            index,
        ),
        is_unsubscribe_value(value) ==> !holds(mask_after_write(mask, index, value, indications), index),
        !is_subscribe_value(value, indications) && !is_unsubscribe_value(value) ==> mask_after_write(
            mask,
            index,
            value,
            indications,
        ) == mask,
        holds(mask_after_write(mask, index, value, indications), other) == holds(mask, other),
{
    let b = bit(index);
    let o = bit(other);
    assert((mask | b) & b != 0 && (mask & !b) & b == 0 && ((mask | b) & o != 0) == (mask & o != 0)
        && ((mask & !b) & o != 0) == (mask & o != 0)) by (bit_vector)
        requires
            index < 8,
            other < 8,
            other != index,
            b == (1u8 << index) as u8,
            o == (1u8 << other) as u8,
    ;
}

} // verus!
