//! Fast packets: payloads of up to 223 bytes carried over several frames.
//! Frame 0 holds a counter byte, the payload length and six bytes; every
//! later frame holds a counter byte and seven more bytes.

use std::time::Instant;

use vstd::prelude::*;

use crate::clock::instant_now;
use crate::header::{id_of_header, Header};
use crate::packets::handshake::ProductInformation;
use crate::packets::proprietary::SimnetAp;
use crate::packets::{frame_views, RawPacket};

verus! {

/// The PGNs that travel as fast packets.
pub open spec fn is_known_fast(pgn: u32) -> bool {
    pgn == ProductInformation::PGN || pgn == SimnetAp::PGN
}

/// Exactly two PGNs travel as fast packets: product information (126996)
/// and the Simnet autopilot command (130850).
pub proof fn lemma_fast_pgns(pgn: u32)
    ensures
        is_known_fast(pgn) <==> (pgn == 126996 || pgn == 130850),
{
}

/// Whether `pgn` travels as a fast packet.
pub fn is_known_fast_packet(pgn: u32) -> (r: bool)
    ensures
        r == is_known_fast(pgn),
{
    pgn == ProductInformation::PGN || pgn == SimnetAp::PGN
}

/// A fast packet being reassembled.
pub struct FastPacket {
    pub total_length: usize,
    pub data: Vec<u8>,
    pub started_at: Instant,
}

/// The payload bytes that frame 0 carries, for the length it announces.
pub open spec fn first_frame_payload(frame: Seq<u8>) -> Seq<u8> {
    let total = frame[1] as int;
    frame.subrange(2, 2 + if total < 6 {
        total
    } else {
        6
    })
}

/// The payload after appending a later frame to `data` when `total` bytes
/// are expected: at most seven bytes, and never more than are missing.
pub open spec fn appended_payload(total: int, data: Seq<u8>, frame: Seq<u8>) -> Seq<u8> {
    let missing = total - data.len();
    data + frame.subrange(1, 1 + if missing < 7 {
        missing
    } else {
        7
    })
}

/// `append` took the packet from `before` to `after` with frame `frame` and
/// returned `r`: the frame's bytes join the payload, and once every byte has
/// arrived the payload is handed out and the packet left empty.
pub open spec fn append_step(
    before: FastPacket,
    frame: Seq<u8>,
    after: FastPacket,
    r: Option<Vec<u8>>,
) -> bool {
    let full = appended_payload(before.total_length as int, before.data@, frame);
    &&& after.total_length == before.total_length
    &&& after.started_at == before.started_at
    &&& if full.len() == before.total_length {
        &&& r matches Some(v) && v@ == full
        &&& after.data@ == Seq::<u8>::empty()
    } else {
        &&& r is None
        &&& after.data@ == full
    }
}

impl FastPacket {
    /// Starts reassembly from frame 0.
    pub fn first(packet: [u8; 8]) -> (r: Self)
        ensures
            r.total_length == packet@[1] as usize,
            r.data@ == first_frame_payload(packet@),
    {
        let total_length = packet[1] as usize;
        let n: usize = if total_length < 6 {
            total_length
        } else {
            6
        };
        let mut data: Vec<u8> = Vec::with_capacity(total_length);
        let mut i: usize = 2;
        while i < 2 + n
            invariant
                n <= 6,
                2 <= i <= 2 + n,
                data@ == packet@.subrange(2, i as int),
            decreases 2 + n - i,
        {
            data.push(packet[i]);
            i = i + 1;
            assert(data@ =~= packet@.subrange(2, i as int));
        }
        Self { total_length, data, started_at: instant_now() }
    }

    /// Adds a later frame; once every byte has arrived, hands the payload out
    /// and leaves the packet empty.
    pub fn append(&mut self, data: [u8; 8]) -> (r: Option<Vec<u8>>)
        requires
            old(self).data@.len() <= old(self).total_length,
        ensures
            append_step(*old(self), data@, *final(self), r),
    {
        let missing = self.total_length - self.data.len();
        let expecting: usize = if missing < 7 {
            missing
        } else {
            7
        };
        let ghost start = self.data@;
        let mut i: usize = 1;
        while i < 1 + expecting
            invariant
                expecting <= 7,
                1 <= i <= 1 + expecting,
                self.total_length == old(self).total_length,
                self.started_at == old(self).started_at,
                self.data@ == start + data@.subrange(1, i as int),
            decreases 1 + expecting - i,
        {
            self.data.push(data[i]);
            i = i + 1;
            assert(self.data@ =~= start + data@.subrange(1, i as int));
        }
        self.finished()
    }

    /// Hands the payload out, leaving the packet empty, when every byte has
    /// arrived.
    pub fn finished(&mut self) -> (r: Option<Vec<u8>>)
        ensures
            final(self).total_length == old(self).total_length,
            final(self).started_at == old(self).started_at,
            if old(self).data@.len() == old(self).total_length {
                &&& r matches Some(v) && v@ == old(self).data@
                &&& final(self).data@ == Seq::<u8>::empty()
            } else {
                &&& r is None
                &&& final(self).data@ == old(self).data@
            },
    {
        if self.data.len() == self.total_length {
            let mut taken: Vec<u8> = Vec::new();
            std::mem::swap(&mut taken, &mut self.data);
            Some(taken)
        } else {
            None
        }
    }
}

/// Byte `i` of `data`, or `pad` past its end.
pub open spec fn byte_or(data: Seq<u8>, i: int, pad: u8) -> u8 {
    if 0 <= i < data.len() {
        data[i]
    } else {
        pad
    }
}

/// The number of frames after frame 0 that a payload of `len` bytes needs.
pub open spec fn continuation_frames(len: int) -> int {
    if len <= 6 {
        0
    } else {
        (len - 6 + 6) / 7
    }
}

/// The eight bytes of frame `k` of a fast packet whose counter bytes are
/// `base | k`, announcing `len_byte`, with bytes past the payload set to
/// `pad`.
pub open spec fn fast_frame(base: u8, len_byte: u8, data: Seq<u8>, pad: u8, k: int) -> Seq<u8> {
    if k == 0 {
        seq![
            base,
            len_byte,
            byte_or(data, 0, pad),
            byte_or(data, 1, pad),
            byte_or(data, 2, pad),
            byte_or(data, 3, pad),
            byte_or(data, 4, pad),
            byte_or(data, 5, pad),
        ]
    } else {
        let s = 7 * k - 1;
        seq![
            base | (k as u8),
            byte_or(data, s, pad),
            byte_or(data, s + 1, pad),
            byte_or(data, s + 2, pad),
            byte_or(data, s + 3, pad),
            byte_or(data, s + 4, pad),
            byte_or(data, s + 5, pad),
            byte_or(data, s + 6, pad),
        ]
    }
}

/// The frames (identifier and data bytes) that send `data` with
/// identifier `id` as a fast packet.
pub open spec fn fast_frames(id: u32, base: u8, len_byte: u8, data: Seq<u8>, pad: u8) -> Seq<
    (u32, Seq<u8>),
> {
    Seq::new(
        (1 + continuation_frames(data.len() as int)) as nat,
        |k: int| (id, fast_frame(base, len_byte, data, pad, k)),
    )
}

/// `r` is frame `k` of `data`.
pub open spec fn is_frame_k(r: RawPacket, id: u32, base: u8, len_byte: u8, data: Seq<u8>, pad: u8, k: int) -> bool {
    r.id == id && r.data@ == fast_frame(base, len_byte, data, pad, k)
}

/// Frame `k` of `data`, built from the slice.
fn frame_bytes(base: u8, len_byte: u8, data: &[u8], pad: u8, k: usize) -> (r: [u8; 8])
    requires
        1 <= k <= 31,
        7 * k + 6 <= usize::MAX,
    ensures
        r@ == fast_frame(base, len_byte, data@, pad, k as int),
{
    let s = 7 * k - 1;
    let r = [
        base | (k as u8),
        get_or(data, s, pad),
        get_or(data, s + 1, pad),
        get_or(data, s + 2, pad),
        get_or(data, s + 3, pad),
        get_or(data, s + 4, pad),
        get_or(data, s + 5, pad),
        get_or(data, s + 6, pad),
    ];
    assert(r@ =~= fast_frame(base, len_byte, data@, pad, k as int));
    r
}

/// Byte `i` of `data`, or `pad` past its end.
fn get_or(data: &[u8], i: usize, pad: u8) -> (b: u8)
    ensures
        b == byte_or(data@, i as int, pad),
{
    if i < data.len() {
        data[i]
    } else {
        pad
    }
}

/// Appends the frames of `data` to `out`: counter bytes `base | k`, the
/// length `len_byte` in frame 0, and `pad` past the end of the payload.
pub(crate) fn push_fast_frames(
    header: Header,
    base: u8,
    len_byte: u8,
    data: &[u8],
    pad: u8,
    out: &mut Vec<RawPacket>,
)
    requires
        data@.len() <= 223,
    ensures
        frame_views(final(out)@) == frame_views(old(out)@) + fast_frames(
            id_of_header(header),
            base,
            len_byte,
            data@,
            pad,
        ),
{
    let ghost start = old(out)@.len() as int;
    let first = [
        base,
        len_byte,
        get_or(data, 0, pad),
        get_or(data, 1, pad),
        get_or(data, 2, pad),
        get_or(data, 3, pad),
        get_or(data, 4, pad),
        get_or(data, 5, pad),
    ];
    assert(first@ =~= fast_frame(base, len_byte, data@, pad, 0));
    out.push(RawPacket::new_bytes(header, first));
    assert(out@.subrange(0, start) =~= old(out)@);
    let mut i: usize = 6;
    let mut frame: usize = 1;
    while i < data.len()
        invariant
            data@.len() <= 223,
            0 <= start,
            1 <= frame <= 33,
            i == 7 * frame - 1,
            i <= data@.len() + 6,
            frame - 1 <= continuation_frames(data@.len() as int),
            frame >= 2 ==> 7 * (frame - 1) - 1 < data@.len(),
            out@.len() == start + frame,
            out@.subrange(0, start) == old(out)@,
            forall|k: int|
                0 <= k < frame ==> is_frame_k(#[trigger] out@[start + k], id_of_header(header), base, len_byte, data@, pad, k),
        decreases data@.len() + 6 - i,
    {
        let bytes = frame_bytes(base, len_byte, data, pad, frame);
        let ghost prev = out@;
        out.push(RawPacket::new_bytes(header, bytes));
        assert(out@.subrange(0, start) =~= prev.subrange(0, start));
        let ghost next = frame + 1;
        assert forall|k: int| 0 <= k < next implies is_frame_k(#[trigger] out@[start + k], id_of_header(header), base, len_byte, data@, pad, k) by {
            if k < frame {
                assert(out@[start + k] == prev[start + k]);
            }
        }
        frame = frame + 1;
        i = i + 7;
        assert(frame == next);
    }
    assert(frame - 1 == continuation_frames(data@.len() as int));
    let ghost want = frame_views(old(out)@) + fast_frames(
        id_of_header(header),
        base,
        len_byte,
        data@,
        pad,
    );
    assert forall|j: int| 0 <= j < out@.len() implies #[trigger] frame_views(out@)[j] == want[j] by {
        if j < start {
            assert(out@[j] == out@.subrange(0, start)[j]);
        } else {
            assert(is_frame_k(out@[start + (j - start)], id_of_header(header), base, len_byte, data@, pad, j - start));
        }
    }
    assert(frame_views(out@) =~= want);
}

/// Appends the frames of `data` as a fast packet with sequence number
/// `seq`: counter bytes `seq << 5 | k`, the length in frame 0, and 0xFF past
/// the end of the payload. A payload needing more than 31 later frames (over
/// 223 bytes) cannot be sent.
pub fn encode_fast_packet(header: Header, seq: u8, data: &[u8], out: &mut Vec<RawPacket>)
    requires
        data@.len() <= 223,
    ensures
        frame_views(final(out)@) == frame_views(old(out)@) + fast_frames(
            id_of_header(header),
            seq << 5u8,
            data@.len() as u8,
            data@,
            0xFF,
        ),
{
    let len = data.len() as u8;
    let shifted = seq << 5;
    push_fast_frames(header, shifted, len, data, 0xFF, out);
}

/// The payload reassembled from frames `0..=k` of `data`, as `first` and
/// `append` build it.
pub open spec fn reassembled(base: u8, data: Seq<u8>, pad: u8, k: nat) -> Seq<u8>
    decreases k,
{
    if k == 0 {
        first_frame_payload(fast_frame(base, data.len() as u8, data, pad, 0))
    } else {
        appended_payload(
            data.len() as int,
            reassembled(base, data, pad, (k - 1) as nat),
            fast_frame(base, data.len() as u8, data, pad, k as int),
        )
    }
}

/// Reassembling the frames of a payload gives it back: after frame `k` the
/// first `min(len, 7k + 6)` bytes have arrived, and the payload is complete
/// at the last frame and not before.
pub proof fn lemma_fast_reassembly(base: u8, data: Seq<u8>, pad: u8, k: nat)
    requires
        data.len() <= 223,
        k <= continuation_frames(data.len() as int),
    ensures
        reassembled(base, data, pad, k) == data.subrange(
            0,
            if data.len() < 7 * k + 6 {
                data.len() as int
            } else {
                (7 * k + 6) as int
            },
        ),
        (reassembled(base, data, pad, k).len() == data.len()) == (k == continuation_frames(
            data.len() as int,
        )),
    decreases k,
{
    let len = data.len() as int;
    assert(data.len() as u8 as int == len);
    if k == 0 {
        let f = fast_frame(base, data.len() as u8, data, pad, 0);
        assert(reassembled(base, data, pad, 0) =~= data.subrange(0, if len < 6 { len } else { 6 }));
    } else {
        lemma_fast_reassembly(base, data, pad, (k - 1) as nat);
        let prev = reassembled(base, data, pad, (k - 1) as nat);
        assert(prev.len() == 7 * k - 1);
        let f = fast_frame(base, data.len() as u8, data, pad, k as int);
        let end = if len < 7 * k + 6 { len } else { (7 * k + 6) as int };
        assert(reassembled(base, data, pad, k) =~= data.subrange(0, end));
    }
}

/// Reassembly through `first` and `append`: a packet started from frame 0
/// of a payload of at most 223 bytes and handed its later frames in order
/// by `append` returns nothing until the last frame, which returns the
/// payload; a payload that fits frame 0 is whole at once, so `finished`
/// returns it.
pub proof fn lemma_append_reassembles(
    base: u8,
    data: Seq<u8>,
    pad: u8,
    packets: Seq<FastPacket>,
    outs: Seq<Option<Vec<u8>>>,
)
    requires
        data.len() <= 223,
        packets.len() == 1 + continuation_frames(data.len() as int),
        outs.len() == packets.len(),
        packets[0].total_length == fast_frame(base, data.len() as u8, data, pad, 0)[1],
        packets[0].data@ == first_frame_payload(fast_frame(base, data.len() as u8, data, pad, 0)),
        forall|j: int|
            1 <= j < packets.len() ==> #[trigger] append_step(
                packets[j - 1],
                fast_frame(base, data.len() as u8, data, pad, j),
                packets[j],
                outs[j],
            ),
    ensures
        forall|j: int| 1 <= j < packets.len() - 1 ==> (#[trigger] outs[j]) is None,
        packets.len() > 1 ==> (outs.last() matches Some(v) && v@ == data),
        packets.len() == 1 ==> packets[0].data@ == data && packets[0].total_length == data.len(),
{
    let n = continuation_frames(data.len() as int);
    assert(data.len() as u8 as int == data.len());
    assert forall|j: int| 0 <= j < n implies packets[j].total_length == data.len() && packets[j].data@
        == reassembled(base, data, pad, j as nat) && (j > 0 ==> outs[j] is None) by {
        lemma_prefix_reassembled(base, data, pad, packets, outs, j as nat);
    }
    lemma_prefix_reassembled(base, data, pad, packets, outs, n as nat);
    lemma_fast_reassembly(base, data, pad, n as nat);
    assert(data.subrange(0, data.len() as int) =~= data);
}

/// After frames `0..=k`, the packet holds what `reassembled` says.
proof fn lemma_prefix_reassembled(
    base: u8,
    data: Seq<u8>,
    pad: u8,
    packets: Seq<FastPacket>,
    outs: Seq<Option<Vec<u8>>>,
    k: nat,
)
    requires
        data.len() <= 223,
        packets.len() == 1 + continuation_frames(data.len() as int),
        outs.len() == packets.len(),
        packets[0].total_length == fast_frame(base, data.len() as u8, data, pad, 0)[1],
        packets[0].data@ == first_frame_payload(fast_frame(base, data.len() as u8, data, pad, 0)),
        forall|j: int|
            1 <= j < packets.len() ==> #[trigger] append_step(
                packets[j - 1],
                fast_frame(base, data.len() as u8, data, pad, j),
                packets[j],
                outs[j],
            ),
        k <= continuation_frames(data.len() as int),
    ensures
        packets[k as int].total_length == data.len(),
        k < continuation_frames(data.len() as int) ==> packets[k as int].data@ == reassembled(
            base,
            data,
            pad,
            k,
        ),
        k == continuation_frames(data.len() as int) && k > 0 ==> (outs[k as int] matches Some(v)
            && v@ == data),
        k == continuation_frames(data.len() as int) && k == 0 ==> packets[0].data@ == data,
        0 < k < continuation_frames(data.len() as int) ==> outs[k as int] is None,
    decreases k,
{
    let len = data.len() as int;
    assert(data.len() as u8 as int == len);
    lemma_fast_reassembly(base, data, pad, k);
    if k == 0 {
        assert(data.subrange(0, len) =~= data);
    } else {
        lemma_prefix_reassembled(base, data, pad, packets, outs, (k - 1) as nat);
        assert(append_step(
            packets[k - 1],
            fast_frame(base, data.len() as u8, data, pad, k as int),
            packets[k as int],
            outs[k as int],
        ));
        assert(data.subrange(0, len) =~= data);
    }
}

} // verus!
