//! RTP packets (RFC 3550): where the payload of a received packet lies,
//! and the packets the router sends.
use vstd::prelude::*;

verus! {

/// The big-endian value of two bytes (`u16::from_be_bytes`).
pub open spec fn be16(hi: u8, lo: u8) -> nat {
    hi as nat * 256 + lo as nat
}

/// The big-endian value of four bytes (`u32::from_be_bytes`).
pub open spec fn be32(b0: u8, b1: u8, b2: u8, b3: u8) -> nat {
    ((b0 as nat * 256 + b1 as nat) * 256 + b2 as nat) * 256 + b3 as nat
}

/// The big-endian bytes of a 16-bit value (`u16::to_be_bytes`).
pub open spec fn be16_bytes(v: u16) -> Seq<u8> {
    seq![(v / 256) as u8, (v % 256) as u8]
}

/// The big-endian bytes of a 32-bit value (`u32::to_be_bytes`).
pub open spec fn be32_bytes(v: u32) -> Seq<u8> {
    seq![(v / 0x100_0000) as u8, ((v / 0x1_0000) % 256) as u8, ((v / 256) % 256) as u8, (v % 256) as u8]
}

/// Where the payload of an RTP packet starts and ends: after the fixed
/// 12-byte header, the CSRC list and the header extension, and before the
/// padding. `None` when the packet is shorter than a header, is not
/// version 2, or its header, extension or padding run past its end.
pub open spec fn payload_range(p: Seq<u8>) -> Option<(int, int)> {
    if p.len() < 12 || p[0] >> 6 != 2 {
        None
    } else {
        let csrc_end: int = 12 + (p[0] & 0x0f) as int * 4;
        let ext = p[0] & 0x10 != 0;
        if ext && csrc_end + 4 > p.len() {
            None
        } else {
            let offset: int = if ext {
                csrc_end + 4 + be16(p[csrc_end + 2], p[csrc_end + 3]) * 4
            } else {
                csrc_end
            };
            let padding: int = if p[0] & 0x20 != 0 {
                p[p.len() - 1] as int
            } else {
                0
            };
            let end = p.len() - padding;
            if end < 0 || offset > end {
                None
            } else {
                Some((offset, end))
            }
        }
    }
}

/// The RTP timestamp of a packet of at least 12 bytes.
pub open spec fn rtp_timestamp(p: Seq<u8>) -> nat {
    be32(p[4], p[5], p[6], p[7])
}

/// Where the payload of an RTP packet lies, as `payload_range` says.
pub fn payload_bounds(packet: &[u8]) -> (r: Option<(usize, usize)>)
    ensures
        r is Some <==> payload_range(packet@) is Some,
        r matches Some((a, b)) ==> payload_range(packet@) == Some((a as int, b as int)) && a <= b
            <= packet@.len(),
{
    let n = packet.len();
    if n < 12 || packet[0] >> 6 != 2 {
        return None;
    }
    let first = packet[0];
    let csrc_count = (first & 0x0f) as usize;
    assert(first & 0x0f <= 15) by (bit_vector);
    let mut offset = 12 + csrc_count * 4;
    if first & 0x10 != 0 {
        if offset + 4 > n {
            return None;
        }
        let words = (packet[offset + 2] as usize) * 256 + (packet[offset + 3] as usize);
        offset = offset + 4 + words * 4;
    }
    let padding = if first & 0x20 != 0 {
        packet[n - 1] as usize
    } else {
        0
    };
    if padding > n {
        return None;
    }
    let end = n - padding;
    if offset > end {
        return None;
    }
    Some((offset, end))
}

/// The payload of an RTP packet, if its header is sound.
pub fn payload_of(packet: &[u8]) -> (r: Option<&[u8]>)
    ensures
        match payload_range(packet@) {
            Some((a, b)) => r matches Some(s) && s@ == packet@.subrange(a, b),
            None => r is None,
        },
{
    match payload_bounds(packet) {
        Some((a, b)) => Some(vstd::slice::slice_subrange(packet, a, b)),
        None => None,
    }
}

/// The RTP timestamp field of a packet.
pub fn timestamp_of(packet: &[u8]) -> (r: u32)
    requires
        packet@.len() >= 12,
    ensures
        r == rtp_timestamp(packet@),
{
    let v: u64 = (((packet[4] as u64) * 256 + packet[5] as u64) * 256 + packet[6] as u64) * 256
        + packet[7] as u64;
    v as u32
}

/// The header that the router puts in front of each payload: version 2,
/// no padding, extension or CSRC, payload type 96, then sequence number,
/// timestamp and SSRC.
pub open spec fn route_header(sequence: u16, timestamp: u32, ssrc: u32) -> Seq<u8> {
    seq![0x80u8, 96u8] + be16_bytes(sequence) + be32_bytes(timestamp) + be32_bytes(ssrc)
}

/// Appends the big-endian bytes of a 16-bit value.
pub fn push_be16(out: &mut Vec<u8>, v: u16)
    ensures
        final(out)@ == old(out)@ + be16_bytes(v),
{
    out.push((v / 256) as u8);
    out.push((v % 256) as u8);
    assert(out@ == old(out)@ + be16_bytes(v));
}

/// Appends the big-endian bytes of a 32-bit value.
pub fn push_be32(out: &mut Vec<u8>, v: u32)
    ensures
        final(out)@ == old(out)@ + be32_bytes(v),
{
    out.push((v / 0x100_0000) as u8);
    out.push(((v / 0x1_0000) % 256) as u8);
    out.push(((v / 256) % 256) as u8);
    out.push((v % 256) as u8);
    assert(out@ == old(out)@ + be32_bytes(v));
}

/// Appends all of `bytes`.
pub fn push_all(out: &mut Vec<u8>, bytes: &[u8])
    ensures
        final(out)@ == old(out)@ + bytes@,
{
    let n = bytes.len();
    for i in 0..n
        invariant
            n == bytes@.len(),
            out@ == old(out)@ + bytes@.take(i as int),
    {
        out.push(bytes[i]);
        assert(bytes@.take(i + 1) == bytes@.take(i as int).push(bytes@[i as int]));
    }
    assert(bytes@.take(n as int) == bytes@);
}

/// An RTP packet carrying `payload` with the router's header.
pub fn build_rtp_packet(payload: &[u8], sequence: u16, timestamp: u32, ssrc: u32) -> (r: Vec<u8>)
    ensures
        r@ == route_header(sequence, timestamp, ssrc) + payload@,
{
    let mut packet: Vec<u8> = Vec::new();
    packet.push(0x80);
    packet.push(96);
    push_be16(&mut packet, sequence);
    push_be32(&mut packet, timestamp);
    push_be32(&mut packet, ssrc);
    push_all(&mut packet, payload);
    packet
}

proof fn lemma_be32_roundtrip(v: u32)
    ensures
        be32(be32_bytes(v)[0], be32_bytes(v)[1], be32_bytes(v)[2], be32_bytes(v)[3]) == v,
{
}

/// Law: a packet that the router builds reads back with its own timestamp
/// and exactly its payload.
pub proof fn lemma_route_packet_roundtrip(payload: Seq<u8>, sequence: u16, timestamp: u32, ssrc: u32)
    ensures
        payload_range(route_header(sequence, timestamp, ssrc) + payload) == Some(
            (12int, 12 + payload.len() as int),
        ),
        rtp_timestamp(route_header(sequence, timestamp, ssrc) + payload) == timestamp,
{
    let p = route_header(sequence, timestamp, ssrc) + payload;
    assert(p.len() == 12 + payload.len());
    assert(p[0] == 0x80u8);
    assert(0x80u8 >> 6 == 2 && 0x80u8 & 0x0f == 0 && 0x80u8 & 0x10 == 0 && 0x80u8 & 0x20 == 0)
        by (bit_vector);
    assert(p[4] == be32_bytes(timestamp)[0] && p[5] == be32_bytes(timestamp)[1]);
    assert(p[6] == be32_bytes(timestamp)[2] && p[7] == be32_bytes(timestamp)[3]);
    lemma_be32_roundtrip(timestamp);
}

} // verus!
