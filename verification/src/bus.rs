//! The NMEA 2000 node: reassembles incoming frames into packets, claims a
//! source address on the bus, and queues outgoing frames until the claim
//! holds.

use std::collections::HashMap;
use std::time::Instant;

use vstd::prelude::*;
use vstd::std_specs::iter::IteratorSpec;

use crate::clock::{duration_as_millis, instant_elapsed, instant_now};
use crate::header::{header_of_id, id_of_header, Header};
use crate::packets::fast::{
    appended_payload, continuation_frames, fast_frame, first_frame_payload, is_known_fast,
    is_known_fast_packet, lemma_fast_reassembly, reassembled, FastPacket,
};
use crate::packets::fast::lemma_fast_pgns;
use crate::packets::handshake::{AddressClaim, IsoRequest};
use crate::packets::{
    decode_single, frame_views, is_fast_decoding, send_header, sent_frames, Packet, RawPacket,
};
use crate::util::{bits_u8, le_bytes, le_u64, lemma_mask_values};

verus! {

broadcast use vstd::std_specs::hash::group_hash_axioms;

/// A fast packet being reassembled: the length it announced and the bytes
/// received so far.
#[verifier::ext_equal]
pub struct FastSlot {
    pub total_length: int,
    pub data: Seq<u8>,
}

/// The state of a node as its contracts see it.
#[verifier::ext_equal]
pub struct NodeState {
    /// The claimed address has held.
    pub address_claimed: bool,
    /// A claim was sent and its hold-off is running.
    pub claim_pending: bool,
    /// The source address in use; 0xFE once no address could be claimed.
    pub address: u8,
    /// The address the claim procedure started from.
    pub start_address: u8,
    /// Some frame has been received.
    pub seen_packets: bool,
    /// Fast packets being reassembled, by `fast_key` of PGN and sequence.
    pub fast: Map<u64, FastSlot>,
    /// Frames waiting to be sent, with identifier and data bytes.
    pub queue: Seq<(u32, Seq<u8>)>,
    /// The NAME this node claims with.
    pub name: AddressClaim,
}

/// Every fast packet kept for reassembly is still missing bytes.
pub open spec fn model_wf(s: NodeState) -> bool {
    forall|k: u64| #[trigger]
        s.fast.contains_key(k) ==> 0 <= s.fast[k].data.len() < s.fast[k].total_length
}

/// The key of the reassembly slot for a PGN and sequence number.
pub open spec fn fast_key(pgn: u32, seq: u8) -> u64 {
    (pgn as u64 * 256 + seq as u64) as u64
}

/// The frame counter in the first byte of a fast-packet frame.
pub open spec fn frame_counter(data: Seq<u8>) -> u8 {
    data[0] & 0x1F
}

/// The sequence number in the first byte of a fast-packet frame.
pub open spec fn frame_sequence(data: Seq<u8>) -> u8 {
    (data[0] >> 5) & 0x7
}

/// The reassembly table after a frame of a fast-packet PGN, and the payload
/// the frame completes, if any.
pub open spec fn fast_step(fast: Map<u64, FastSlot>, pgn: u32, data: Seq<u8>) -> (
    Map<u64, FastSlot>,
    Option<Seq<u8>>,
) {
    let key = fast_key(pgn, frame_sequence(data));
    if frame_counter(data) == 0 {
        let slot = FastSlot { total_length: data[1] as int, data: first_frame_payload(data) };
        if slot.data.len() == slot.total_length {
            (fast, Some(slot.data))
        } else {
            (fast.insert(key, slot), None)
        }
    } else if fast.contains_key(key) {
        let slot = fast[key];
        let full = appended_payload(slot.total_length, slot.data, data);
        if full.len() == slot.total_length {
            (fast.remove(key), Some(full))
        } else {
            (fast.insert(key, FastSlot { total_length: slot.total_length, data: full }), None)
        }
    } else {
        (fast, None)
    }
}

/// The reassembly table after any frame of `pgn`.
pub open spec fn table_after(fast: Map<u64, FastSlot>, pgn: u32, data: Seq<u8>) -> Map<
    u64,
    FastSlot,
> {
    if is_known_fast(pgn) {
        fast_step(fast, pgn, data).0
    } else {
        fast
    }
}

/// `r` is the packet that a frame of `pgn` yields, given the reassembly table
/// it met.
pub open spec fn frame_yields(
    fast: Map<u64, FastSlot>,
    pgn: u32,
    data: Seq<u8>,
    r: Option<Packet>,
) -> bool {
    if is_known_fast(pgn) {
        match fast_step(fast, pgn, data).1 {
            Some(payload) => is_fast_decoding(pgn, payload, r),
            None => r is None,
        }
    } else {
        r == decode_single(pgn, le_u64(data))
    }
}

/// The address-claim frame for a NAME, as queued (source filled in when
/// sent).
pub open spec fn claim_frame(name: AddressClaim) -> (u32, Seq<u8>) {
    (id_of_header(send_header(AddressClaim::PGN)), le_bytes(name.encoded()))
}

/// The address tried after `address` loses a contest.
pub open spec fn next_address(address: u8) -> u8 {
    ((address as int + 1) % 0xFC) as u8
}

/// How the node reacts to a received packet from `source`: it answers a
/// request for address claims with its claim; when another device claims its
/// address, it re-asserts the claim if its own NAME is lower, and otherwise
/// moves to the next address (giving up at 0xFE once it is back where it
/// started).
pub open spec fn react(s: NodeState, source: u8, r: Option<Packet>) -> NodeState {
    match r {
        Some(Packet::IsoRequest(q)) => if q.pgn == AddressClaim::PGN {
            NodeState { queue: s.queue.push(claim_frame(s.name)), ..s }
        } else {
            s
        },
        Some(Packet::AddressClaim(c)) => if source == s.address {
            if s.name.encoded() < c.encoded() {
                NodeState { address_claimed: true, queue: s.queue.push(claim_frame(s.name)), ..s }
            } else if next_address(s.address) == s.start_address {
                NodeState { address_claimed: false, claim_pending: false, address: 0xFE, ..s }
            } else {
                NodeState {
                    address_claimed: false,
                    claim_pending: false,
                    address: next_address(s.address),
                    queue: s.queue.push(claim_frame(s.name)),
                    ..s
                }
            }
        } else {
            s
        },
        _ => s,
    }
}

/// The frames that `flush_queue` hands out and the state it leaves, where
/// `expired` is whether the claim hold-off of 250 ms was found over.
pub open spec fn flush(s: NodeState, expired: bool) -> (NodeState, Seq<(u32, Seq<u8>)>) {
    if s.address == 0xFE {
        (NodeState { queue: Seq::empty(), ..s }, Seq::empty())
    } else if !s.address_claimed && !s.claim_pending {
        (NodeState { claim_pending: true, ..s }, seq![claim_frame(s.name)])
    } else if !s.address_claimed && !expired {
        (s, Seq::empty())
    } else if !s.address_claimed {
        (
            NodeState {
                address_claimed: s.seen_packets,
                claim_pending: s.seen_packets,
                queue: Seq::empty(),
                ..s
            },
            s.queue,
        )
    } else {
        (NodeState { queue: Seq::empty(), ..s }, s.queue)
    }
}

/// The claim hold-off of 250 ms is over, for a hold-off that has run
/// `elapsed_ms` (none runs when it is `None`).
pub open spec fn hold_off_over(elapsed_ms: Option<u128>) -> bool {
    elapsed_ms matches Some(ms) && ms >= 250
}

/// A frame with its source address replaced.
pub open spec fn with_source(f: (u32, Seq<u8>), source: u8) -> (u32, Seq<u8>) {
    ((f.0 & 0xFFFF_FF00) | source as u32, f.1)
}

/// The NAME a new node claims with.
pub open spec fn default_name() -> AddressClaim {
    AddressClaim {
        unique_number: 1824692,
        manufacturer_code: 2000,
        device_instance_lower: 0,
        device_instance_upper: 0,
        device_function: 150,
        device_class: 80,
        system_instance: 0,
        arbitrary_address_capable: true,
    }
}

/// A frame whose handling would count the address past 0xFF: a losing
/// contest while the node sits at address 0xFF.
pub open spec fn overflows_address(s: NodeState, id: u32, data: Seq<u8>) -> bool {
    let h = header_of_id(id & 0x1FFF_FFFF);
    &&& s.address == 0xFF
    &&& h.source == 0xFF
    &&& h.pgn == AddressClaim::PGN
    &&& !(s.name.encoded() < AddressClaim::decoded(le_u64(data)).encoded())
}

/// The model of a slot.
pub open spec fn slot_of(p: FastPacket) -> FastSlot {
    FastSlot { total_length: p.total_length as int, data: p.data@ }
}

/// Entry `i` of `ages` lists key `k`.
pub open spec fn listed_at(ages: Seq<(u64, u128)>, i: int, k: u64) -> bool {
    0 <= i < ages.len() && ages[i].0 == k
}

/// Entry `i` of `ages` lists key `k` at an age of 1000 ms or more.
pub open spec fn stale_at(ages: Seq<(u64, u128)>, i: int, k: u64) -> bool {
    listed_at(ages, i, k) && ages[i].1 >= 1000
}

/// The keys that `ages` lists at an age of a second or more.
pub open spec fn stale_keys(ages: Seq<(u64, u128)>) -> Set<u64> {
    Set::new(|k: u64| exists|i: int| #[trigger] stale_at(ages, i, k))
}

/// `ages` lists each key of `keys` exactly once, and nothing else.
pub open spec fn lists_each_once(keys: Set<u64>, ages: Seq<(u64, u128)>) -> bool {
    &&& forall|k: u64| keys.contains(k) <==> exists|i: int| #[trigger] listed_at(ages, i, k)
    &&& forall|i: int, j: int|
        0 <= i < ages.len() && 0 <= j < ages.len() && i != j ==> #[trigger] ages[i].0
            != #[trigger] ages[j].0
}

/// A reassembly table that expiry leaves of `fast`: for some age of each of
/// its slots, the slots a second old or more are gone and the rest stay.
pub open spec fn expired_from(fast: Map<u64, FastSlot>, kept: Map<u64, FastSlot>) -> bool {
    exists|ages: Seq<(u64, u128)>|
        lists_each_once(fast.dom(), ages) && kept == fast.remove_keys(#[trigger] stale_keys(ages))
}

/// What `on_packet_at` does with the frame `(id, data)` when the reassembly
/// slots are aged as `ages` lists: from state `s` it returns `r` and leaves
/// the node in state `t`.
pub open spec fn received(
    s: NodeState,
    t: NodeState,
    id: u32,
    data: Seq<u8>,
    ages: Seq<(u64, u128)>,
    r: Option<Packet>,
) -> bool {
    let h = header_of_id(id & 0x1FFF_FFFF);
    let kept = s.fast.remove_keys(stale_keys(ages));
    &&& frame_yields(kept, h.pgn, data, r)
    &&& t == react(
        NodeState { fast: table_after(kept, h.pgn, data), seen_packets: true, ..s },
        h.source,
        r,
    )
}

/// An NMEA 2000 node.
pub struct Nmea2000 {
    address_claimed: bool,
    last_claim: Option<Instant>,
    address: u8,
    start_address: u8,
    seen_packets: bool,
    fast_packet: HashMap<u64, FastPacket>,
    queue: Vec<RawPacket>,
    address_claim: AddressClaim,
}

impl View for Nmea2000 {
    type V = NodeState;

    closed spec fn view(&self) -> NodeState {
        NodeState {
            address_claimed: self.address_claimed,
            claim_pending: self.last_claim is Some,
            address: self.address,
            start_address: self.start_address,
            seen_packets: self.seen_packets,
            fast: self.fast_packet@.map_values(|p: FastPacket| slot_of(p)),
            queue: frame_views(self.queue@),
            name: self.address_claim,
        }
    }
}

/// The reassembly key of a PGN and sequence number.
fn key_of(pgn: u32, seq: u8) -> (k: u64)
    ensures
        k == fast_key(pgn, seq),
{
    pgn as u64 * 256 + seq as u64
}

/// Entry `j` of a listing of the reassembly table has key `k`.
pub open spec fn keyed_at(entries: Seq<(&u64, &FastPacket)>, j: int, k: u64) -> bool {
    *entries[j].0 == k
}

/// The age of every slot, read from the clock: each key of the table once,
/// in no particular order.
fn slot_ages(map: &HashMap<u64, FastPacket>) -> (r: Vec<(u64, u128)>)
    ensures
        lists_each_once(map@.dom(), r@),
{
    let mut ages: Vec<(u64, u128)> = Vec::new();
    let ghost m = map@;
    let ghost entries = vstd::std_specs::hash::spec_hash_map_iter(map).remaining();
    proof {
        vstd::std_specs::hash::axiom_spec_hash_map_iter(map);
    }
    for entry in it: map.iter()
        invariant
            m == map@,
            it.seq() == entries,
            entries.no_duplicates(),
            forall|a: int|
                0 <= a < entries.len() ==> m.contains_key(*entries[a].0) && m[*entries[a].0]
                    == *entries[a].1,
            ages@.len() == it.index(),
            forall|a: int| 0 <= a < ages@.len() ==> #[trigger] ages@[a].0 == *entries[a].0,
    {
        let (k, v) = entry;
        assert(entry == entries[it.index()]);
        let elapsed = instant_elapsed(&v.started_at);
        let ms = duration_as_millis(&elapsed);
        ages.push((*k, ms));
    }
    proof {
        assert forall|k: u64| m.dom().contains(k) implies exists|i: int| #[trigger] listed_at(ages@, i, k) by {
            assert(entries.contains((&k, &m[k])));
            let j = choose|j: int| 0 <= j < entries.len() && entries[j] == (&k, &m[k]);
            assert(listed_at(ages@, j, k));
        }
        assert forall|i: int, j: int|
            0 <= i < ages@.len() && 0 <= j < ages@.len() && i != j implies #[trigger] ages@[i].0
                != #[trigger] ages@[j].0 by {
            if ages@[i].0 == ages@[j].0 {
                assert(*entries[i].1 == m[*entries[i].0]);
                assert(*entries[j].1 == m[*entries[j].0]);
                assert(entries[i] == entries[j]);
            }
        }
    }
    ages
}

/// The keys that `ages` lists at an age of a second or more, in order.
fn expired_keys(ages: &Vec<(u64, u128)>) -> (r: Vec<u64>)
    ensures
        r@.to_set() == stale_keys(ages@),
{
    let mut stale: Vec<u64> = Vec::new();
    let mut i: usize = 0;
    while i < ages.len()
        invariant
            i <= ages.len(),
            forall|k: u64| stale@.contains(k) <==> exists|j: int| 0 <= j < i && #[trigger] stale_at(ages@, j, k),
        decreases ages.len() - i,
    {
        let (k, ms) = ages[i];
        let ghost prev = stale@;
        if ms >= 1000 {
            stale.push(k);
            assert(stale_at(ages@, i as int, k));
        }
        assert forall|c: u64| stale@.contains(c) <==> exists|j: int| 0 <= j < i + 1 && #[trigger] stale_at(ages@, j, c) by {
            if stale@.contains(c) && !prev.contains(c) {
                assert(stale_at(ages@, i as int, c));
            }
            if exists|j: int| 0 <= j < i + 1 && #[trigger] stale_at(ages@, j, c) {
                let j = choose|j: int| 0 <= j < i + 1 && #[trigger] stale_at(ages@, j, c);
                if j < i {
                    assert(prev.contains(c));
                    let n = choose|n: int| 0 <= n < prev.len() && prev[n] == c;
                    assert(stale@[n] == c);
                } else {
                    assert(stale@.last() == c);
                    assert(stale@[stale@.len() - 1] == c);
                }
            }
        }
        i = i + 1;
    }
    assert(stale@.to_set() =~= stale_keys(ages@)) by {
        assert forall|k: u64| stale@.to_set().contains(k) <==> stale_keys(ages@).contains(k) by {
            if stale_keys(ages@).contains(k) {
                let j = choose|j: int| #[trigger] stale_at(ages@, j, k);
                assert(0 <= j < ages@.len());
            }
        }
    }
    stale
}

/// Drops the slots with the given keys; the others stay as they are.
fn remove_keys(map: &mut HashMap<u64, FastPacket>, keys: &Vec<u64>)
    ensures
        final(map)@ == old(map)@.remove_keys(keys@.to_set()),
{
    let mut i: usize = 0;
    while i < keys.len()
        invariant
            i <= keys.len(),
            map@ == old(map)@.remove_keys(keys@.subrange(0, i as int).to_set()),
        decreases keys.len() - i,
    {
        let ghost before = map@;
        let ghost k = keys@[i as int];
        map.remove(&keys[i]);
        assert(map@ == before.remove(k));
        assert(keys@.subrange(0, i + 1) =~= keys@.subrange(0, i as int).push(k));
        assert(keys@.subrange(0, i + 1).to_set() =~= keys@.subrange(0, i as int).to_set().insert(k)) by {
            keys@.subrange(0, i as int).lemma_push_to_set_commute(k);
        }
        i = i + 1;
        assert(map@ =~= old(map)@.remove_keys(keys@.subrange(0, i as int).to_set()));
    }
    assert(keys@.subrange(0, keys@.len() as int) =~= keys@);
}

impl Nmea2000 {
    /// The node keeps its invariant.
    pub open spec fn wf(&self) -> bool {
        model_wf(self@)
    }

    /// A node at address 0 with the default NAME, nothing queued and no claim
    /// sent yet.
    pub fn new() -> (r: Self)
        ensures
            r.wf(),
            r@ == (NodeState {
                address_claimed: false,
                claim_pending: false,
                address: 0,
                start_address: 0,
                seen_packets: false,
                fast: Map::empty(),
                queue: Seq::empty(),
                name: default_name(),
            }),
    {
        let r = Self {
            address_claimed: false,
            last_claim: None,
            address: 0,
            start_address: 0,
            seen_packets: false,
            fast_packet: HashMap::new(),
            queue: Vec::new(),
            address_claim: AddressClaim {
                unique_number: 1824692,
                manufacturer_code: 2000,
                device_instance_lower: 0,
                device_instance_upper: 0,
                device_function: 150,
                device_class: 80,
                system_instance: 0,
                arbitrary_address_capable: true,
            },
        };
        assert(r@.fast =~= Map::empty());
        assert(r@.queue =~= Seq::empty());
        r
    }

    /// The node with another NAME.
    pub fn with_address_claim(self, address_claim: AddressClaim) -> (r: Self)
        requires
            self.wf(),
        ensures
            r.wf(),
            r@ == (NodeState { name: address_claim, ..self@ }),
    {
        Self { address_claim, ..self }
    }

    /// The node starting its claim from `address`.
    pub fn with_prefered_address(self, address: u8) -> (r: Self)
        requires
            self.wf(),
        ensures
            r.wf(),
            r@ == (NodeState { address, start_address: address, ..self@ }),
    {
        Self { address, start_address: address, ..self }
    }

    /// The source address the node uses; 0xFE once no address could be
    /// claimed.
    pub fn address(&self) -> (r: u8)
        ensures
            r == self@.address,
    {
        self.address
    }

    /// The frame that claims the node's address.
    fn address_claim(&self) -> (r: RawPacket)
        ensures
            r@ == claim_frame(self.address_claim),
    {
        RawPacket::new(Header::new(AddressClaim::PGN, 6), self.address_claim.serialize())
    }

    /// Drops the fast packets that `ages_ms` lists at an age of a second or
    /// more; every other slot stays as it is.
    pub fn expire(&mut self, ages_ms: &Vec<(u64, u128)>)
        requires
            old(self).wf(),
        ensures
            final(self).wf(),
            final(self)@ == (NodeState {
                fast: old(self)@.fast.remove_keys(stale_keys(ages_ms@)),
                ..old(self)@
            }),
    {
        let stale = expired_keys(ages_ms);
        remove_keys(&mut self.fast_packet, &stale);
        assert(self@.fast =~= old(self)@.fast.remove_keys(stale_keys(ages_ms@)));
        assert forall|k: u64| #[trigger] self@.fast.contains_key(k) implies 0 <= self@.fast[k].data.len()
            < self@.fast[k].total_length by {
            assert(old(self)@.fast.contains_key(k));
        }
    }

    /// Drops fast packets whose reassembly started a second or more ago,
    /// reading each one's age from the clock.
    fn garbage_collect(&mut self)
        requires
            old(self).wf(),
        ensures
            final(self).wf(),
            expired_from(old(self)@.fast, final(self)@.fast),
            final(self)@ == (NodeState { fast: final(self)@.fast, ..old(self)@ }),
    {
        let ages = slot_ages(&self.fast_packet);
        assert(self.fast_packet@.dom() =~= self@.fast.dom());
        self.expire(&ages);
    }

    /// Handles one received frame with extended identifier `id`, reading the
    /// age of every reassembly slot from the clock; what follows is
    /// `on_packet_at` with those ages.
    pub fn on_packet(&mut self, id: u32, data: [u8; 8]) -> (r: Option<Packet>)
        requires
            old(self).wf(),
            !overflows_address(old(self)@, id, data@),
        ensures
            final(self).wf(),
            exists|ages: Seq<(u64, u128)>|
                lists_each_once(old(self)@.fast.dom(), ages) && #[trigger] received(
                    old(self)@,
                    final(self)@,
                    id,
                    data@,
                    ages,
                    r,
                ),
    {
        let ages = slot_ages(&self.fast_packet);
        assert(self.fast_packet@.dom() =~= self@.fast.dom());
        self.on_packet_at(id, data, &ages)
    }

    /// Handles one received frame with extended identifier `id` when the
    /// reassembly slots are aged as `ages_ms` lists: drops the slots listed
    /// at a second or more, reassembles fast packets or decodes single-frame
    /// ones, and reacts to address-claim traffic. Returns the packet the
    /// frame completed, if one is understood here.
    pub fn on_packet_at(&mut self, id: u32, data: [u8; 8], ages_ms: &Vec<(u64, u128)>) -> (r: Option<
        Packet,
    >)
        requires
            old(self).wf(),
            !overflows_address(old(self)@, id, data@),
        ensures
            final(self).wf(),
            received(old(self)@, final(self)@, id, data@, ages_ms@, r),
    {
        self.expire(ages_ms);
        let ghost kept = self@.fast;
        self.seen_packets = true;
        let header = Header::deserialize(id);
        proof {
            lemma_mask_values();
        }
        let packet = if is_known_fast_packet(header.pgn) {
            let frame = data[0] & bits_u8(5);
            let sequence = (data[0] >> 5) & bits_u8(3);
            let key = key_of(header.pgn, sequence);
            if frame == 0 {
                let mut packet = FastPacket::first(data);
                match packet.finished() {
                    Some(payload) => Packet::deserialize_fast(header.pgn, payload),
                    None => {
                        self.fast_packet.insert(key, packet);
                        None
                    },
                }
            } else {
                let ghost before = self.fast_packet@;
                match self.fast_packet.remove(&key) {
                    Some(packet) => {
                        assert(before.contains_key(key) && before[key] == packet);
                        assert(kept.contains_key(key));
                        let mut packet = packet;
                        match packet.append(data) {
                            Some(payload) => Packet::deserialize_fast(header.pgn, payload),
                            None => {
                                self.fast_packet.insert(key, packet);
                                None
                            },
                        }
                    },
                    None => None,
                }
            }
        } else {
            Packet::deserialize_single(header.pgn, data)
        };
        let ghost mid = self@;
        assert(mid.fast =~= table_after(kept, header.pgn, data@));
        assert(frame_yields(kept, header.pgn, data@, packet));
        match &packet {
            Some(Packet::IsoRequest(request)) => {
                if request.pgn == AddressClaim::PGN {
                    let frame = self.address_claim();
                    self.queue.push(frame);
                }
            },
            Some(Packet::AddressClaim(claim)) => {
                if header.source == self.address {
                    if self.address_claim.serialize() < claim.serialize() {
                        self.address_claimed = true;
                        let frame = self.address_claim();
                        self.queue.push(frame);
                    } else {
                        self.address_claimed = false;
                        self.last_claim = None;
                        self.address = (self.address + 1) % 0xFC;
                        if self.address == self.start_address {
                            self.address = 0xFE;
                        } else {
                            let frame = self.address_claim();
                            self.queue.push(frame);
                        }
                    }
                }
            },
            _ => {},
        }
        assert(self@ =~= react(mid, header.source, packet));
        packet
    }

    /// Queues the frames that send `packet`.
    pub fn enqueue(&mut self, packet: Packet)
        requires
            old(self).wf(),
        ensures
            final(self).wf(),
            final(self)@ == (NodeState { queue: old(self)@.queue + sent_frames(packet), ..old(self)@ }),
    {
        packet.serialize(&mut self.queue);
    }

    /// Queues a frame that is already encoded, such as one forwarded from a
    /// TCP client.
    pub fn enqueue_raw(&mut self, packet: RawPacket)
        requires
            old(self).wf(),
        ensures
            final(self).wf(),
            final(self)@ == (NodeState { queue: old(self)@.queue.push(packet@), ..old(self)@ }),
    {
        self.queue.push(packet);
        assert(self@.queue =~= old(self)@.queue.push(packet@));
    }

    /// Takes the frames to send now, with the node's address as their source.
    /// What is handed out depends on the claim procedure (see `flush_queue`)
    /// and on the clock.
    pub fn dequeue(&mut self) -> (r: Vec<RawPacket>)
        requires
            old(self).wf(),
        ensures
            final(self).wf(),
            expired_from(old(self)@.fast, final(self)@.fast),
            exists|elapsed_ms: Option<u128>|
                (elapsed_ms is Some) == old(self)@.claim_pending && flush(
                    old(self)@,
                    #[trigger] hold_off_over(elapsed_ms),
                ).0 == (NodeState { fast: old(self)@.fast, ..final(self)@ }) && frame_views(r@)
                    == flush(old(self)@, hold_off_over(elapsed_ms)).1.map_values(
                    |f: (u32, Seq<u8>)| with_source(f, old(self)@.address),
                ),
    {
        self.garbage_collect();
        let ghost mid = self@;
        let mut packets = self.flush_queue();
        let ghost ms = choose|ms: Option<u128>|
            (ms is Some) == mid.claim_pending && flush(mid, #[trigger] hold_off_over(ms)).0 == self@
                && frame_views(packets@) == flush(mid, hold_off_over(ms)).1;
        let ghost e = hold_off_over(ms);
        let ghost flushed = frame_views(packets@);
        let ghost address = self.address;
        let mut i: usize = 0;
        while i < packets.len()
            invariant
                i <= packets.len(),
                packets@.len() == flushed.len(),
                address == self.address,
                forall|j: int|
                    0 <= j < packets@.len() ==> #[trigger] packets@[j]@ == if j < i {
                        with_source(flushed[j], address)
                    } else {
                        flushed[j]
                    },
            decreases packets.len() - i,
        {
            let mut packet = packets[i];
            assert(packet@ == flushed[i as int]);
            packet.overwrite_source(self.address);
            let ghost prev = packets@;
            packets.set(i, packet);
            assert forall|j: int| 0 <= j < packets@.len() implies #[trigger] packets@[j]@ == if j < i + 1 {
                with_source(flushed[j], address)
            } else {
                flushed[j]
            } by {
                if j != i {
                    assert(packets@[j] == prev[j]);
                }
            }
            i = i + 1;
        }
        assert(frame_views(packets@) =~= flushed.map_values(
            |f: (u32, Seq<u8>)| with_source(f, address),
        ));
        assert(flush(old(self)@, e).1 =~= flush(mid, e).1);
        assert(flush(old(self)@, e).0 =~= (NodeState { fast: old(self)@.fast, ..self@ }));
        packets
    }

    /// When the running claim hold-off started, if one runs.
    pub closed spec fn claim_started(&self) -> Option<Instant> {
        self.last_claim
    }

    /// Takes the queued frames if the node may send, reading the clock. See
    /// `flush_at`, which this calls with the current time and the age of the
    /// running claim.
    pub fn flush_queue(&mut self) -> (r: Vec<RawPacket>)
        requires
            old(self).wf(),
        ensures
            final(self).wf(),
            exists|elapsed_ms: Option<u128>|
                (elapsed_ms is Some) == old(self)@.claim_pending && flush(
                    old(self)@,
                    #[trigger] hold_off_over(elapsed_ms),
                ).0 == final(self)@ && frame_views(r@) == flush(
                    old(self)@,
                    hold_off_over(elapsed_ms),
                ).1,
    {
        let elapsed_ms = match &self.last_claim {
            Some(instant) => {
                let elapsed = instant_elapsed(instant);
                Some(duration_as_millis(&elapsed))
            },
            None => None,
        };
        let now = instant_now();
        self.flush_at(now, elapsed_ms)
    }

    /// Takes the queued frames if the node may send, at time `now`, where
    /// `elapsed_ms` is how long the running claim hold-off has run (none runs
    /// exactly when it is `None`). At address 0xFE (no address could be
    /// claimed) the queue is dropped and nothing is sent. Before a claim
    /// holds, a call with no hold-off running sends the claim and starts a
    /// hold-off at `now`; calls before 250 ms have passed send nothing; once
    /// they have, the queue is sent, and the claim holds if any frame has
    /// been received meanwhile (else the hold-off is reset).
    pub fn flush_at(&mut self, now: Instant, elapsed_ms: Option<u128>) -> (r: Vec<RawPacket>)
        requires
            old(self).wf(),
            old(self)@.claim_pending == (elapsed_ms is Some),
        ensures
            final(self).wf(),
            final(self)@ == flush(old(self)@, hold_off_over(elapsed_ms)).0,
            frame_views(r@) == flush(old(self)@, hold_off_over(elapsed_ms)).1,
            final(self)@.claim_pending && !old(self)@.claim_pending ==> final(self).claim_started()
                == Some(now),
            final(self)@.claim_pending && old(self)@.claim_pending ==> final(self).claim_started()
                == old(self).claim_started(),
    {
        let ghost expired = hold_off_over(elapsed_ms);
        if self.address == 0xFE {
            self.queue.clear();
            assert(self@ =~= flush(old(self)@, expired).0);
            assert(frame_views(Seq::<RawPacket>::empty()) =~= flush(old(self)@, expired).1);
            return Vec::new();
        }
        if !self.address_claimed {
            match elapsed_ms {
                Some(ms) => {
                    if ms >= 250 {
                        if self.seen_packets {
                            self.address_claimed = true;
                        } else {
                            self.last_claim = None;
                        }
                    } else {
                        assert(frame_views(Seq::<RawPacket>::empty()) =~= flush(old(self)@, expired).1);
                        assert(self@ =~= flush(old(self)@, expired).0);
                        return Vec::new();
                    }
                },
                None => {
                    self.last_claim = Some(now);
                    let frame = self.address_claim();
                    let out = vec![frame];
                    assert(frame_views(out@) =~= flush(old(self)@, expired).1);
                    assert(self@ =~= flush(old(self)@, expired).0);
                    return out;
                },
            }
        }
        let mut taken: Vec<RawPacket> = Vec::new();
        std::mem::swap(&mut taken, &mut self.queue);
        assert(self@ =~= flush(old(self)@, expired).0);
        taken
    }
}

/// The reassembly table and the completed payload after feeding `frames`,
/// in order, to a table `fast` with no expiry in between.
pub open spec fn feed(fast: Map<u64, FastSlot>, pgn: u32, frames: Seq<Seq<u8>>) -> (
    Map<u64, FastSlot>,
    Option<Seq<u8>>,
)
    decreases frames.len(),
{
    if frames.len() == 0 {
        (fast, None)
    } else {
        fast_step(feed(fast, pgn, frames.drop_last(), ).0, pgn, frames.last())
    }
}

/// The first `k` frames that send `data` as a fast packet with sequence
/// number `seq`.
pub open spec fn first_frames(seq: u8, data: Seq<u8>, pad: u8, k: nat) -> Seq<Seq<u8>> {
    Seq::new(k, |j: int| fast_frame((seq << 5u8) as u8, data.len() as u8, data, pad, j))
}

/// Counter and sequence fields of the frames of sequence `seq`.
proof fn lemma_counter_bits(seq: u8, k: u8)
    requires
        seq < 8,
        k < 32,
    ensures
        ((seq << 5u8) as u8 | k) & 0x1F == k,
        (((seq << 5u8) as u8 | k) >> 5u8) & 0x7 == seq,
        ((seq << 5u8) as u8) & 0x1F == 0,
        (((seq << 5u8) as u8) >> 5u8) & 0x7 == seq,
{
    assert(((seq << 5u8) as u8 | k) & 0x1F == k && (((seq << 5u8) as u8 | k) >> 5u8) & 0x7 == seq
        && ((seq << 5u8) as u8) & 0x1F == 0 && (((seq << 5u8) as u8) >> 5u8) & 0x7 == seq)
        by (bit_vector)
        requires
            seq < 8,
            k < 32,
    ;
}

/// The slot that holds a payload of `data` after its first `k` frames.
pub open spec fn partial_slot(data: Seq<u8>, k: nat) -> FastSlot {
    FastSlot { total_length: data.len() as int, data: data.subrange(0, 7 * (k - 1) + 6) }
}

/// Frame `j` of a payload `data` sent with sequence number `seq`.
pub open spec fn packet_frame(seq: u8, data: Seq<u8>, pad: u8, j: int) -> Seq<u8> {
    fast_frame((seq << 5u8) as u8, data.len() as u8, data, pad, j)
}

/// One frame of a payload meets the slot its earlier frames left: frame `j`
/// either leaves the slot holding the first `j + 1` frames' bytes and yields
/// nothing, or, as the last frame, frees the slot and yields the payload.
pub proof fn lemma_fast_step_frame(
    fast: Map<u64, FastSlot>,
    pgn: u32,
    seq: u8,
    data: Seq<u8>,
    pad: u8,
    j: nat,
)
    requires
        seq < 8,
        data.len() <= 223,
        j <= continuation_frames(data.len() as int),
        j > 0 ==> fast.contains_key(fast_key(pgn, seq)) && fast[fast_key(pgn, seq)]
            == partial_slot(data, j),
    ensures
        j < continuation_frames(data.len() as int) ==> fast_step(
            fast,
            pgn,
            packet_frame(seq, data, pad, j as int),
        ) == (fast.insert(fast_key(pgn, seq), partial_slot(data, j + 1)), None::<Seq<u8>>),
        j == continuation_frames(data.len() as int) ==> fast_step(
            fast,
            pgn,
            packet_frame(seq, data, pad, j as int),
        ) == (
            if j == 0 {
                fast
            } else {
                fast.remove(fast_key(pgn, seq))
            },
            Some(data),
        ),
{
    let n = continuation_frames(data.len() as int);
    let len = data.len() as int;
    let key = fast_key(pgn, seq);
    let base = (seq << 5u8) as u8;
    let frame = packet_frame(seq, data, pad, j as int);
    lemma_counter_bits(seq, j as u8);
    lemma_fast_reassembly(base, data, pad, j);
    assert(data.len() as u8 as int == len);
    assert(frame_sequence(frame) == seq);
    if j == 0 {
        assert(frame_counter(frame) == 0);
        assert(frame[1] as int == len);
        assert(first_frame_payload(frame) == reassembled(base, data, pad, 0));
        if j < n {
            assert(first_frame_payload(frame) =~= data.subrange(0, 6));
        } else {
            assert(data.subrange(0, len) =~= data);
        }
    } else {
        let slot = partial_slot(data, j);
        assert(frame_counter(frame) == j as u8);
        lemma_fast_reassembly(base, data, pad, (j - 1) as nat);
        assert(slot.data == reassembled(base, data, pad, (j - 1) as nat));
        let full = appended_payload(len, slot.data, frame);
        assert(full == reassembled(base, data, pad, j));
        if j < n {
            assert(full =~= data.subrange(0, (7 * j + 6) as int));
        } else {
            assert(data.subrange(0, len) =~= data);
        }
    }
}

/// Fast-packet transport: feeding the frames of a payload of at most 223
/// bytes to a table with no slot for its PGN and sequence keeps a slot with
/// the bytes received so far after every frame but the last, and the last
/// frame hands the payload back and frees the slot.
pub proof fn lemma_fast_transport(
    fast: Map<u64, FastSlot>,
    pgn: u32,
    seq: u8,
    data: Seq<u8>,
    pad: u8,
    k: nat,
)
    requires
        seq < 8,
        data.len() <= 223,
        !fast.contains_key(fast_key(pgn, seq)),
        1 <= k <= 1 + continuation_frames(data.len() as int),
    ensures
        k <= continuation_frames(data.len() as int) ==> feed(
            fast,
            pgn,
            first_frames(seq, data, pad, k),
        ) == (fast.insert(fast_key(pgn, seq), partial_slot(data, k)), None::<Seq<u8>>),
        k == 1 + continuation_frames(data.len() as int) ==> feed(
            fast,
            pgn,
            first_frames(seq, data, pad, k),
        ) == (fast, Some(data)),
    decreases k,
{
    let n = continuation_frames(data.len() as int);
    let key = fast_key(pgn, seq);
    let frames = first_frames(seq, data, pad, k);
    let j = (k - 1) as nat;
    assert(frames.drop_last() =~= first_frames(seq, data, pad, j));
    assert(frames.last() == packet_frame(seq, data, pad, j as int));
    assert(feed(fast, pgn, frames) == fast_step(
        feed(fast, pgn, first_frames(seq, data, pad, j)).0,
        pgn,
        packet_frame(seq, data, pad, j as int),
    ));
    if j == 0 {
        assert(first_frames(seq, data, pad, 0) =~= Seq::<Seq<u8>>::empty());
        assert(feed(fast, pgn, first_frames(seq, data, pad, 0)) == (fast, None::<Seq<u8>>));
        lemma_fast_step_frame(fast, pgn, seq, data, pad, 0);
    } else {
        lemma_fast_transport(fast, pgn, seq, data, pad, j);
        let slot = partial_slot(data, j);
        lemma_fast_step_frame(fast.insert(key, slot), pgn, seq, data, pad, j);
        if j < n {
            assert(fast.insert(key, slot).insert(key, partial_slot(data, k)) =~= fast.insert(
                key,
                partial_slot(data, k),
            ));
        } else {
            assert(fast.insert(key, slot).remove(key) =~= fast);
        }
    }
}

/// One call of `on_packet_at`: the frame handed in, the slot ages it was
/// given, and what it returned.
#[verifier::ext_equal]
pub struct Reception {
    pub id: u32,
    pub data: Seq<u8>,
    pub ages: Seq<(u64, u128)>,
    pub result: Option<Packet>,
}

/// Call `i` of `calls` took the node from `states[i]` to `states[i + 1]`.
pub open spec fn handled(states: Seq<NodeState>, calls: Seq<Reception>, i: int) -> bool {
    received(states[i], states[i + 1], calls[i].id, calls[i].data, calls[i].ages, calls[i].result)
}

/// `states` are the states a node passes through as it handles `calls` in
/// order.
pub open spec fn run(states: Seq<NodeState>, calls: Seq<Reception>) -> bool {
    &&& states.len() == calls.len() + 1
    &&& forall|i: int| 0 <= i < calls.len() ==> #[trigger] handled(states, calls, i)
}

/// The call hands in a frame of `pgn` with sequence number `seq`.
pub open spec fn frame_of(call: Reception, pgn: u32, seq: u8) -> bool {
    header_of_id(call.id & 0x1FFF_FFFF).pgn == pgn && frame_sequence(call.data) == seq
}

/// Every age that `ages` lists for slot `key` is under a second.
pub open spec fn fresh(ages: Seq<(u64, u128)>, key: u64) -> bool {
    forall|e: int| 0 <= e < ages.len() && #[trigger] ages[e].0 == key ==> ages[e].1 < 1000
}

/// Distinct PGNs and sequence numbers have distinct reassembly slots.
proof fn lemma_fast_key_injective(p1: u32, s1: u8, p2: u32, s2: u8)
    ensures
        fast_key(p1, s1) == fast_key(p2, s2) ==> p1 == p2 && s1 == s2,
{
    let v1: int = p1 * 256 + s1;
    let v2: int = p2 * 256 + s2;
    assert(0 <= v1 < 0x1_0000_0000_0000 && 0 <= v2 < 0x1_0000_0000_0000);
    assert(fast_key(p1, s1) == v1);
    assert(fast_key(p2, s2) == v2);
    assert(v1 == v2 ==> p1 == p2 && s1 == s2) by (nonlinear_arith)
        requires
            v1 == p1 * 256 + s1,
            v2 == p2 * 256 + s2,
            0 <= s1 < 256,
            0 <= s2 < 256,
    ;
}

/// A call that hands in no frame of `pgn` and `seq`, while that slot is
/// under a second old, leaves the slot as it was.
proof fn lemma_other_frame_keeps_slot(s: NodeState, t: NodeState, call: Reception, pgn: u32, seq: u8)
    requires
        received(s, t, call.id, call.data, call.ages, call.result),
        !frame_of(call, pgn, seq),
        fresh(call.ages, fast_key(pgn, seq)),
    ensures
        t.fast.contains_key(fast_key(pgn, seq)) == s.fast.contains_key(fast_key(pgn, seq)),
        s.fast.contains_key(fast_key(pgn, seq)) ==> t.fast[fast_key(pgn, seq)] == s.fast[fast_key(
            pgn,
            seq,
        )],
{
    let key = fast_key(pgn, seq);
    let h = header_of_id(call.id & 0x1FFF_FFFF);
    let kept = s.fast.remove_keys(stale_keys(call.ages));
    assert(!stale_keys(call.ages).contains(key)) by {
        if stale_keys(call.ages).contains(key) {
            let i = choose|i: int| #[trigger] stale_at(call.ages, i, key);
            assert(call.ages[i].0 == key);
        }
    }
    let other = fast_key(h.pgn, frame_sequence(call.data));
    lemma_fast_key_injective(h.pgn, frame_sequence(call.data), pgn, seq);
    assert(other != key);
    let table = table_after(kept, h.pgn, call.data);
    assert(table.contains_key(key) == s.fast.contains_key(key));
    assert(s.fast.contains_key(key) ==> table[key] == s.fast[key]);
    let mid = NodeState { fast: table, seen_packets: true, ..s };
    assert(react(mid, h.source, call.result).fast == table);
}

/// Calls `a..b` hand in no frame of `pgn` and `seq` while that slot is under
/// a second old: the slot is as it was.
proof fn lemma_slot_untouched(
    states: Seq<NodeState>,
    calls: Seq<Reception>,
    pgn: u32,
    seq: u8,
    a: int,
    b: int,
)
    requires
        run(states, calls),
        0 <= a <= b <= calls.len(),
        forall|i: int|
            a <= i < b ==> !frame_of(#[trigger] calls[i], pgn, seq) && fresh(
                calls[i].ages,
                fast_key(pgn, seq),
            ),
    ensures
        states[b].fast.contains_key(fast_key(pgn, seq)) == states[a].fast.contains_key(
            fast_key(pgn, seq),
        ),
        states[a].fast.contains_key(fast_key(pgn, seq)) ==> states[b].fast[fast_key(pgn, seq)]
            == states[a].fast[fast_key(pgn, seq)],
    decreases b - a,
{
    if a < b {
        lemma_slot_untouched(states, calls, pgn, seq, a, b - 1);
        assert(handled(states, calls, b - 1));
        assert(!frame_of(calls[b - 1], pgn, seq));
        lemma_other_frame_keeps_slot(states[b - 1], states[b], calls[b - 1], pgn, seq);
    }
}

/// The calls `at` hand in the frames of `data` with sequence number `seq`,
/// in order, and no other call between the first and the last of them
/// hands in a frame of `pgn` and `seq` or ages that slot a second or more.
pub open spec fn frames_handed(
    calls: Seq<Reception>,
    at: Seq<int>,
    pgn: u32,
    seq: u8,
    data: Seq<u8>,
    pad: u8,
) -> bool {
    &&& at.len() == 1 + continuation_frames(data.len() as int)
    &&& 0 <= at[0]
    &&& at.last() < calls.len()
    &&& forall|a: int, b: int| 0 <= a < b < at.len() ==> at[a] < at[b]
    &&& forall|j: int|
        0 <= j < at.len() ==> header_of_id(#[trigger] calls[at[j]].id & 0x1FFF_FFFF).pgn == pgn
            && calls[at[j]].data == packet_frame(seq, data, pad, j)
    &&& forall|j: int, i: int|
        #![trigger at[j], calls[i]]
        0 <= j < at.len() - 1 && at[j] < i < at[j + 1] ==> !frame_of(calls[i], pgn, seq)
    &&& forall|i: int| at[0] < i <= at.last() ==> fresh(#[trigger] calls[i].ages, fast_key(pgn, seq))
}

/// The frames of `data` up to frame `j - 1` have been handled.
proof fn lemma_received_prefix(
    states: Seq<NodeState>,
    calls: Seq<Reception>,
    at: Seq<int>,
    pgn: u32,
    seq: u8,
    data: Seq<u8>,
    pad: u8,
    j: nat,
)
    requires
        run(states, calls),
        is_known_fast(pgn),
        seq < 8,
        data.len() <= 223,
        frames_handed(calls, at, pgn, seq, data, pad),
        1 <= j <= at.len(),
    ensures
        forall|i: int| 0 <= i < j && i < at.len() - 1 ==> (#[trigger] calls[at[i]]).result is None,
        j < at.len() ==> states[at[j - 1] + 1].fast.contains_key(fast_key(pgn, seq))
            && states[at[j - 1] + 1].fast[fast_key(pgn, seq)] == partial_slot(data, j),
        j == at.len() ==> is_fast_decoding(pgn, data, calls[at.last()].result) && ((data.len() > 6
            || !states[at[0]].fast.remove_keys(stale_keys(calls[at[0]].ages)).contains_key(
            fast_key(pgn, seq),
        )) ==> !states[at.last() + 1].fast.contains_key(fast_key(pgn, seq))),
    decreases j,
{
    let key = fast_key(pgn, seq);
    let n = continuation_frames(data.len() as int);
    let f = (j - 1) as nat;
    let i = at[f as int];
    let call = calls[i];
    assert(header_of_id(calls[at[f as int]].id & 0x1FFF_FFFF).pgn == pgn);
    assert(handled(states, calls, i));
    let kept = states[i].fast.remove_keys(stale_keys(call.ages));
    if f > 0 {
        lemma_received_prefix(states, calls, at, pgn, seq, data, pad, f);
        let prev = at[f - 1];
        assert(at[f - 1] < at[f as int]);
        assert forall|c: int| prev + 1 <= c < i implies !frame_of(#[trigger] calls[c], pgn, seq)
            && fresh(calls[c].ages, key) by {
            assert(at[0] <= at[f - 1]);
            assert(at[f as int] <= at.last());
        }
        lemma_slot_untouched(states, calls, pgn, seq, prev + 1, i);
        assert(at[0] < i && i <= at.last());
        assert(fresh(calls[i].ages, key));
        assert(!stale_keys(call.ages).contains(key)) by {
            if stale_keys(call.ages).contains(key) {
                let e = choose|e: int| #[trigger] stale_at(call.ages, e, key);
                assert(call.ages[e].0 == key);
            }
        }
        assert(kept.contains_key(key) && kept[key] == partial_slot(data, f));
    }
    lemma_fast_step_frame(kept, pgn, seq, data, pad, f);
    let step = fast_step(kept, pgn, packet_frame(seq, data, pad, f as int));
    let h = header_of_id(call.id & 0x1FFF_FFFF);
    let mid = NodeState { fast: table_after(kept, pgn, call.data), seen_packets: true, ..states[i] };
    assert(react(mid, h.source, call.result).fast == step.0);
    assert(states[i + 1].fast == step.0);
}

/// Fast-packet transport through `on_packet_at`: when a node handles the
/// frames of a payload of at most 223 bytes in order (frames of other PGNs
/// or sequence numbers may come between them), and every later call ages
/// the payload's slot under a second, every frame but the last yields
/// nothing and the last yields the payload's packet. Afterwards no slot is
/// left for the payload's PGN and sequence, unless the payload fits one
/// frame and such a slot was kept from before.
pub proof fn lemma_received_fast_packet(
    states: Seq<NodeState>,
    calls: Seq<Reception>,
    at: Seq<int>,
    pgn: u32,
    seq: u8,
    data: Seq<u8>,
    pad: u8,
)
    requires
        run(states, calls),
        is_known_fast(pgn),
        seq < 8,
        data.len() <= 223,
        frames_handed(calls, at, pgn, seq, data, pad),
    ensures
        forall|j: int| 0 <= j < at.len() - 1 ==> (#[trigger] calls[at[j]]).result is None,
        is_fast_decoding(pgn, data, calls[at.last()].result),
        data.len() > 6 || !states[at[0]].fast.remove_keys(stale_keys(calls[at[0]].ages)).contains_key(
            fast_key(pgn, seq),
        ) ==> !states[at.last() + 1].fast.contains_key(fast_key(pgn, seq)),
{
    lemma_received_prefix(states, calls, at, pgn, seq, data, pad, at.len());
}

/// A call on a node, with what the queue needs to know of it.
pub enum NodeCall {
    /// `enqueue` of a packet.
    Enqueue(Packet),
    /// `enqueue_raw` of a frame.
    EnqueueRaw((u32, Seq<u8>)),
    /// `on_packet_at`, or `on_packet` with the ages it read.
    Receive(Reception),
    /// `flush_at`, or `flush_queue`: whether the claim hold-off was over, and
    /// the frames returned.
    Flush(bool, Seq<(u32, Seq<u8>)>),
    /// `dequeue`: whether the claim hold-off was over.
    Dequeue(bool),
}

/// The call took the node from `s` to `t`, as the call's contract says.
pub open spec fn call_step(s: NodeState, call: NodeCall, t: NodeState) -> bool {
    match call {
        NodeCall::Enqueue(p) => t == NodeState { queue: s.queue + sent_frames(p), ..s },
        NodeCall::EnqueueRaw(f) => t == NodeState { queue: s.queue.push(f), ..s },
        NodeCall::Receive(c) => received(s, t, c.id, c.data, c.ages, c.result),
        NodeCall::Flush(expired, out) => (t, out) == flush(s, expired),
        NodeCall::Dequeue(expired) => flush(s, expired).0 == NodeState { fast: s.fast, ..t },
    }
}

/// The frames the call appended to the queue of a node it took from `s` to
/// `t`.
pub open spec fn appended(s: NodeState, call: NodeCall, t: NodeState) -> Seq<(u32, Seq<u8>)> {
    match call {
        NodeCall::Enqueue(p) => sent_frames(p),
        NodeCall::EnqueueRaw(f) => seq![f],
        NodeCall::Receive(_) => t.queue.skip(s.queue.len() as int),
        _ => Seq::empty(),
    }
}

/// The queued frames that the call returned from a node in state `s`: what
/// `flush_at` returns, except the claim it builds itself when no claim is
/// running.
pub open spec fn sent_from_queue(s: NodeState, call: NodeCall) -> Seq<(u32, Seq<u8>)> {
    match call {
        NodeCall::Flush(_, out) => if !s.address_claimed && !s.claim_pending && s.address != 0xFE {
            Seq::empty()
        } else {
            out
        },
        _ => Seq::empty(),
    }
}

/// `states` are the states a node passes through as it takes `calls` in
/// order.
pub open spec fn call_run(states: Seq<NodeState>, calls: Seq<NodeCall>) -> bool {
    &&& states.len() == calls.len() + 1
    &&& forall|i: int| 0 <= i < calls.len() ==> #[trigger] call_step(states[i], calls[i], states[i + 1])
}

/// The frames appended by the first `k` calls, in order.
pub open spec fn appended_upto(states: Seq<NodeState>, calls: Seq<NodeCall>, k: nat) -> Seq<
    (u32, Seq<u8>),
>
    decreases k,
{
    if k == 0 {
        Seq::empty()
    } else {
        appended_upto(states, calls, (k - 1) as nat) + appended(
            states[k - 1],
            calls[k - 1],
            states[k as int],
        )
    }
}

/// The queued frames returned by the first `k` calls, in order.
pub open spec fn sent_upto(states: Seq<NodeState>, calls: Seq<NodeCall>, k: nat) -> Seq<
    (u32, Seq<u8>),
>
    decreases k,
{
    if k == 0 {
        Seq::empty()
    } else {
        sent_upto(states, calls, (k - 1) as nat) + sent_from_queue(states[k - 1], calls[k - 1])
    }
}

/// `idx` places the items of `a` in `b`, in order and each at its own place.
pub open spec fn embeds<A>(idx: Seq<int>, a: Seq<A>, b: Seq<A>) -> bool {
    &&& idx.len() == a.len()
    &&& forall|k: int| 0 <= k < a.len() ==> 0 <= #[trigger] idx[k] < b.len() && a[k] == b[idx[k]]
    &&& forall|k1: int, k2: int| 0 <= k1 < k2 < idx.len() ==> idx[k1] < idx[k2]
}

/// `a` is a subsequence of `b`: its items occur in `b` in the same order,
/// each at its own place.
pub open spec fn is_subsequence<A>(a: Seq<A>, b: Seq<A>) -> bool {
    exists|idx: Seq<int>| embeds(idx, a, b)
}

/// A prefix of a subsequence is one.
proof fn lemma_subsequence_prefix<A>(a: Seq<A>, b: Seq<A>, n: int)
    requires
        is_subsequence(a, b),
        0 <= n <= a.len(),
    ensures
        is_subsequence(a.take(n), b),
{
    let idx = choose|idx: Seq<int>| embeds(idx, a, b);
    assert(embeds(idx.take(n), a.take(n), b));
}

/// Appending the same frames to both keeps a subsequence one.
proof fn lemma_subsequence_extend<A>(a: Seq<A>, b: Seq<A>, x: Seq<A>)
    requires
        is_subsequence(a, b),
    ensures
        is_subsequence(a + x, b + x),
{
    let idx = choose|idx: Seq<int>| embeds(idx, a, b);
    let more = idx + Seq::new(x.len(), |t: int| b.len() + t);
    assert forall|k: int| 0 <= k < (a + x).len() implies 0 <= #[trigger] more[k] < (b + x).len() && (
    a + x)[k] == (b + x)[more[k]] by {
        if k >= a.len() {
            assert(more[k] == b.len() + (k - a.len()));
        }
    }
    assert forall|k1: int, k2: int| 0 <= k1 < k2 < more.len() implies more[k1] < more[k2] by {
        if k1 < idx.len() && k2 >= idx.len() {
            assert(idx[k1] < b.len());
        }
    }
    assert(embeds(more, a + x, b + x));
}

/// Reacting to a packet leaves the queue as it was or appends the claim.
proof fn lemma_react_queue(s: NodeState, source: u8, r: Option<Packet>)
    ensures
        react(s, source, r).queue == s.queue || react(s, source, r).queue == s.queue.push(
            claim_frame(s.name),
        ),
{
}

/// The invariant behind `lemma_sent_in_order`: what was sent so far,
/// followed by what is queued now, is a subsequence of what was queued.
proof fn lemma_sent_then_queued(states: Seq<NodeState>, calls: Seq<NodeCall>, k: nat)
    requires
        call_run(states, calls),
        k <= calls.len(),
    ensures
        is_subsequence(
            sent_upto(states, calls, k) + states[k as int].queue,
            states[0].queue + appended_upto(states, calls, k),
        ),
    decreases k,
{
    if k == 0 {
        let q = states[0].queue;
        assert(Seq::<(u32, Seq<u8>)>::empty() + q =~= q);
        assert(q + Seq::<(u32, Seq<u8>)>::empty() =~= q);
        assert(embeds(Seq::new(q.len(), |t: int| t), q, q));
    } else {
        let i = (k - 1) as int;
        lemma_sent_then_queued(states, calls, (k - 1) as nat);
        let s = states[i];
        let t = states[i + 1];
        let call = calls[i];
        assert(call_step(states[i], calls[i], states[i + 1]));
        let sent = sent_upto(states, calls, (k - 1) as nat);
        let before = states[0].queue + appended_upto(states, calls, (k - 1) as nat);
        let x = appended(s, call, t);
        assert(states[0].queue + appended_upto(states, calls, k) =~= before + x);
        let sent_now = sent_upto(states, calls, k);
        match call {
            NodeCall::Flush(expired, out) => {
                assert(x =~= Seq::<(u32, Seq<u8>)>::empty());
                assert(before + x =~= before);
                if s.address == 0xFE {
                    assert(sent_now + t.queue =~= (sent + s.queue).take(sent.len() as int));
                    lemma_subsequence_prefix(sent + s.queue, before, sent.len() as int);
                } else {
                    assert(sent_now + t.queue =~= sent + s.queue);
                }
            },
            NodeCall::Dequeue(expired) => {
                assert(x =~= Seq::<(u32, Seq<u8>)>::empty());
                assert(before + x =~= before);
                assert(t.queue == flush(s, expired).0.queue);
                if t.queue == s.queue {
                    assert(sent_now + t.queue =~= sent + s.queue);
                } else {
                    assert(sent_now + t.queue =~= (sent + s.queue).take(sent.len() as int));
                    lemma_subsequence_prefix(sent + s.queue, before, sent.len() as int);
                }
            },
            NodeCall::Receive(c) => {
                let h = header_of_id(c.id & 0x1FFF_FFFF);
                let kept = s.fast.remove_keys(stale_keys(c.ages));
                let mid = NodeState { fast: table_after(kept, h.pgn, c.data), seen_packets: true, ..s };
                lemma_react_queue(mid, h.source, c.result);
                assert(t.queue =~= s.queue + x);
                assert(sent_now + t.queue =~= (sent + s.queue) + x);
                lemma_subsequence_extend(sent + s.queue, before, x);
            },
            _ => {
                assert(t.queue =~= s.queue + x);
                assert(sent_now + t.queue =~= (sent + s.queue) + x);
                lemma_subsequence_extend(sent + s.queue, before, x);
            },
        }
    }
}

/// The queue hands frames out in order, each at most once, and invents
/// none: over any sequence of calls on a node, the frames its flushes
/// returned from the queue (all but the claims they build themselves), taken
/// together in call order, are a subsequence of the frames queued (those
/// queued at the start, then those the calls appended).
pub proof fn lemma_sent_in_order(states: Seq<NodeState>, calls: Seq<NodeCall>)
    requires
        call_run(states, calls),
    ensures
        is_subsequence(
            sent_upto(states, calls, calls.len()),
            states[0].queue + appended_upto(states, calls, calls.len()),
        ),
{
    let m = calls.len();
    lemma_sent_then_queued(states, calls, m);
    let sent = sent_upto(states, calls, m);
    assert((sent + states[m as int].queue).take(sent.len() as int) =~= sent);
    lemma_subsequence_prefix(sent + states[m as int].queue, states[0].queue + appended_upto(states, calls, m), sent.len() as int);
}

/// A request for address claims (PGN 60928) is answered by queueing the
/// node's claim; an ISO request for any other PGN leaves the node as it was.
pub proof fn lemma_react_iso_request(s: NodeState, source: u8, q: IsoRequest)
    ensures
        q.pgn == 60928 ==> react(s, source, Some(Packet::IsoRequest(q))) == (NodeState {
            queue: s.queue.push(claim_frame(s.name)),
            ..s
        }),
        q.pgn != 60928 ==> react(s, source, Some(Packet::IsoRequest(q))) == s,
{
}

/// A frame of any PGN but the two fast-packet ones (126996 and 130850) is
/// decoded on its own: `on_packet_at` returns what its eight bytes decode to
/// as a single frame, and the reassembly table is only expired.
pub proof fn lemma_single_frame_received(
    s: NodeState,
    t: NodeState,
    id: u32,
    data: Seq<u8>,
    ages: Seq<(u64, u128)>,
    r: Option<Packet>,
)
    requires
        received(s, t, id, data, ages, r),
        header_of_id(id & 0x1FFF_FFFF).pgn != 126996,
        header_of_id(id & 0x1FFF_FFFF).pgn != 130850,
    ensures
        r == decode_single(header_of_id(id & 0x1FFF_FFFF).pgn, le_u64(data)),
        t.fast == s.fast.remove_keys(stale_keys(ages)),
        t.seen_packets,
{
    let h = header_of_id(id & 0x1FFF_FFFF);
    lemma_fast_pgns(h.pgn);
    let kept = s.fast.remove_keys(stale_keys(ages));
    let mid = NodeState { fast: kept, seen_packets: true, ..s };
    assert(react(mid, h.source, r).fast == kept);
    assert(react(mid, h.source, r).seen_packets);
}

/// An ISO request frame (PGN 59904) is answered with the node's claim
/// exactly when the PGN it asks for, its first three bytes read
/// little-endian, is that of address claims (60928); otherwise the queue,
/// the address and the claim procedure are left as they were.
pub proof fn lemma_iso_request_received(
    s: NodeState,
    t: NodeState,
    id: u32,
    data: Seq<u8>,
    ages: Seq<(u64, u128)>,
    r: Option<Packet>,
)
    requires
        received(s, t, id, data, ages, r),
        data.len() == 8,
        header_of_id(id & 0x1FFF_FFFF).pgn == 59904,
    ensures
        t.queue == if data[0] + 256 * data[1] + 65536 * data[2] == 60928 {
            s.queue.push(claim_frame(s.name))
        } else {
            s.queue
        },
        t.address == s.address,
        t.address_claimed == s.address_claimed,
        t.claim_pending == s.claim_pending,
{
    let h = header_of_id(id & 0x1FFF_FFFF);
    lemma_single_frame_received(s, t, id, data, ages, r);
    crate::packets::lemma_single_frame_fields(h.pgn, data);
    let q = r->0->IsoRequest_0;
    let kept = s.fast.remove_keys(stale_keys(ages));
    let mid = NodeState { fast: kept, seen_packets: true, ..s };
    lemma_react_iso_request(mid, h.source, q);
}

/// Expiry keeps every slot when each was read at under a second old.
pub proof fn lemma_fresh_slots_kept(fast: Map<u64, FastSlot>, ages: Seq<(u64, u128)>)
    requires
        forall|i: int| 0 <= i < ages.len() ==> #[trigger] ages[i].1 < 1000,
    ensures
        fast.remove_keys(stale_keys(ages)) == fast,
{
    assert forall|k: u64| !stale_keys(ages).contains(k) by {
        if stale_keys(ages).contains(k) {
            let i = choose|i: int| #[trigger] stale_at(ages, i, k);
            assert(ages[i].1 < 1000);
        }
    }
    assert(fast.remove_keys(stale_keys(ages)) =~= fast);
}

/// Frames queued after the claim holds come out in the order they were
/// queued, behind what was queued before, whatever the clock says.
pub proof fn lemma_queue_order(s: NodeState, p: Packet, expired: bool)
    requires
        s.address_claimed,
        s.address != 0xFE,
    ensures
        flush(NodeState { queue: s.queue + sent_frames(p), ..s }, expired).1 == s.queue
            + sent_frames(p),
        flush(NodeState { queue: s.queue + sent_frames(p), ..s }, expired).0.queue == Seq::<
            (u32, Seq<u8>),
        >::empty(),
{
}

/// The queue only ever leaves whole and in order: a flush hands out the
/// whole queue and empties it, or drops it at 0xFE, or leaves it untouched
/// (sending nothing or only a claim it builds itself).
pub proof fn lemma_flush_keeps_order(s: NodeState, expired: bool)
    ensures
        ({
            let (t, out) = flush(s, expired);
            ||| out == s.queue && t.queue == Seq::<(u32, Seq<u8>)>::empty()
            ||| s.address == 0xFE && out == Seq::<(u32, Seq<u8>)>::empty() && t.queue == Seq::<
                (u32, Seq<u8>),
            >::empty()
            ||| t.queue == s.queue && (out == Seq::<(u32, Seq<u8>)>::empty() || out == seq![
                claim_frame(s.name),
            ])
        }),
{
}

/// A node that could claim no address sends nothing and drops its queue.
pub proof fn lemma_gave_up_sends_nothing(s: NodeState, expired: bool)
    requires
        s.address == 0xFE,
    ensures
        flush(s, expired).1 == Seq::<(u32, Seq<u8>)>::empty(),
        flush(s, expired).0.queue == Seq::<(u32, Seq<u8>)>::empty(),
{
}

/// Before its claim holds, a node sends its claim first: from a fresh state
/// the only frame sent is the claim, and the hold-off starts.
pub proof fn lemma_claim_first(s: NodeState, expired: bool)
    requires
        !s.address_claimed,
        !s.claim_pending,
        s.address != 0xFE,
    ensures
        flush(s, expired).1 == seq![claim_frame(s.name)],
        flush(s, expired).0.claim_pending,
{
}

/// During the hold-off nothing is sent and nothing changes.
pub proof fn lemma_hold_off_waits(s: NodeState)
    requires
        !s.address_claimed,
        s.claim_pending,
        s.address != 0xFE,
    ensures
        flush(s, false) == (s, Seq::<(u32, Seq<u8>)>::empty()),
{
}

/// In an address contest the lower NAME wins: a node with the lower NAME
/// keeps its address and re-asserts its claim; otherwise it leaves the
/// contested address, and its NAME and start address never change.
pub proof fn lemma_address_contest(s: NodeState, c: AddressClaim)
    requires
        s.address < 0xFC,
    ensures
        ({
            let t = react(s, s.address, Some(Packet::AddressClaim(c)));
            &&& t.name == s.name
            &&& t.start_address == s.start_address
            &&& s.name.encoded() < c.encoded() ==> t.address == s.address && t.address_claimed
                && t.queue == s.queue.push(claim_frame(s.name))
            &&& !(s.name.encoded() < c.encoded()) ==> t.address != s.address && !t.address_claimed
                && !t.claim_pending && (t.address < 0xFC || t.address == 0xFE)
        }),
{
}

/// A received packet leaves the node's address as it was, moves it to the
/// next address below 0xFC, or makes it give up at 0xFE; the NAME and the
/// start address never change.
pub proof fn lemma_react_address(s: NodeState, source: u8, r: Option<Packet>)
    ensures
        ({
            let t = react(s, source, r);
            &&& t.address == s.address || (t.address == next_address(s.address) && t.address
                < 0xFC) || t.address == 0xFE
            &&& t.name == s.name
            &&& t.start_address == s.start_address
        }),
{
}

/// Every step keeps the node's invariant.
pub proof fn lemma_react_keeps_wf(s: NodeState, source: u8, r: Option<Packet>)
    requires
        model_wf(s),
    ensures
        model_wf(react(s, source, r)),
{
}

/// A node's claim reaches other nodes as its NAME: the frame carries the
/// address-claim PGN and its data decodes to the NAME, when every NAME field
/// fits its width.
pub proof fn lemma_claim_frame_decodes(name: AddressClaim)
    requires
        name.fits(),
    ensures
        header_of_id(claim_frame(name).0 & 0x1FFF_FFFF) == send_header(AddressClaim::PGN),
        decode_single(AddressClaim::PGN, le_u64(claim_frame(name).1)) == Some(
            Packet::AddressClaim(name),
        ),
{
    assert(((0xEE00u32 >> 8u32) & 0xFF) < 0xF0 && 0xEE00u32 & 0xFF == 0) by (bit_vector);
    crate::header::lemma_header_roundtrip(send_header(AddressClaim::PGN));
    crate::util::lemma_le_roundtrip(name.encoded());
    crate::packets::handshake::lemma_address_claim_roundtrip(name);
}

} // verus!
