//! Monitoring the RTP packets of one stream: sequence accounting (losses,
//! duplicates, reordering), traffic counters and liveness.
use vstd::prelude::*;
use crate::net::{Ipv4Address, ipv4_chars, ipv4_from_text, ipv4_text, is_multicast, multicast, parse_ipv4};
use crate::rtp::{be16, be32, rtp_timestamp};
use crate::text::{append_str, from_chars};

verus! {

/// The current time in whole milliseconds since the Unix epoch.
pub fn timestamp_ms() -> u64 {
    let (secs, nanos) = crate::clock::now_since_epoch();
    crate::clock::millis_of(secs, nanos)
}

/// What a request to monitor the stream at `address` through `interface_ip`
/// leads to, when a monitor of that stream `already_running` or not: an
/// error, nothing to do (`None`), or the group and interface to receive on.
pub open spec fn monitor_plan(address: Seq<char>, interface_ip: Seq<char>, already_running: bool) -> Result<
    Option<(Ipv4Address, Ipv4Address)>,
    Seq<char>,
> {
    match ipv4_from_text(address) {
        None => Err("Indirizzo multicast non valido"@),
        Some(group) => match ipv4_from_text(interface_ip) {
            None => Err("Interfaccia IPv4 non valida"@),
            Some(interface) => if already_running {
                Ok(None)
            } else if !multicast(group) {
                Err(ipv4_text(group) + " non \u{e8} un indirizzo multicast"@)
            } else {
                Ok(Some((group, interface)))
            },
        },
    }
}

/// Decides a request to monitor a stream: the addresses are read first, a
/// stream already monitored is left as it is, and the group must be
/// multicast.
pub fn plan_monitor(address: &str, interface_ip: &str, already_running: bool) -> (r: Result<
    Option<(Ipv4Address, Ipv4Address)>,
    String,
>)
    ensures
        match (r, monitor_plan(address@, interface_ip@, already_running)) {
            (Ok(a), Ok(b)) => a == b,
            (Err(e), Err(f)) => e@ == f,
            _ => false,
        },
{
    let group = match parse_ipv4(address) {
        Some(g) => g,
        None => return Err("Indirizzo multicast non valido".to_string()),
    };
    let interface = match parse_ipv4(interface_ip) {
        Some(i) => i,
        None => return Err("Interfaccia IPv4 non valida".to_string()),
    };
    if already_running {
        return Ok(None);
    }
    if !is_multicast(group) {
        let mut t = ipv4_chars(group);
        append_str(&mut t, " non \u{e8} un indirizzo multicast");
        return Err(from_chars(t.as_slice()));
    }
    Ok(Some((group, interface)))
}

/// The sequence number and timestamp of an RTP packet of at least 12 bytes.
pub fn rtp_header_fields(packet: &[u8]) -> (r: Option<(u16, u32)>)
    ensures
        r is Some <==> packet@.len() >= 12,
        r matches Some((s, t)) ==> s == be16(packet@[2], packet@[3]) && t == rtp_timestamp(
            packet@,
        ),
{
    if packet.len() < 12 {
        return None;
    }
    let sequence = ((packet[2] as u16) * 256 + packet[3] as u16) as u16;
    Some((sequence, crate::rtp::timestamp_of(packet)))
}

/// How far `sequence` lies ahead of `previous`, modulo 2^16
/// (`u16::wrapping_sub`).
pub open spec fn sequence_distance(previous: u16, sequence: u16) -> int {
    (sequence as int - previous as int + 0x1_0000) % 0x1_0000
}

/// The integer counters that the monitor keeps for one stream.
pub struct RtpCounters {
    pub stream_id: String,
    pub running: bool,
    pub online: bool,
    pub packets: u64,
    pub bytes: u64,
    pub estimated_lost: u64,
    pub out_of_order: u64,
    pub duplicates: u64,
    pub last_sequence: Option<u16>,
    pub last_packet_at: u64,
}

/// Whether the counters that a packet with `sequence` and `size` bytes adds
/// to have room for what it adds: the packet and byte counts always, and
/// only the one sequence counter that the packet moves.
pub open spec fn room_for_packet(c: RtpCounters, sequence: u16, size: u64) -> bool {
    &&& c.packets < u64::MAX
    &&& c.bytes + size <= u64::MAX
    &&& match c.last_sequence {
        Some(previous) => {
            let d = sequence_distance(previous, sequence);
            &&& (d == 0 ==> c.duplicates < u64::MAX)
            &&& (0 < d < 0x8000 ==> c.estimated_lost + d - 1 <= u64::MAX)
            &&& (d >= 0x8000 ==> c.out_of_order < u64::MAX)
        },
        None => true,
    }
}

impl RtpCounters {
    /// The counters of a stream whose monitoring has just begun.
    pub fn new(stream_id: String) -> (r: RtpCounters)
        ensures
            r.stream_id@ == stream_id@,
            r.running,
            !r.online,
            r.packets == 0,
            r.bytes == 0,
            r.estimated_lost == 0,
            r.out_of_order == 0,
            r.duplicates == 0,
            r.last_sequence is None,
            r.last_packet_at == 0,
    {
        RtpCounters {
            stream_id,
            running: true,
            online: false,
            packets: 0,
            bytes: 0,
            estimated_lost: 0,
            out_of_order: 0,
            duplicates: 0,
            last_sequence: None,
            last_packet_at: 0,
        }
    }

    /// Accounts for a packet of `size` bytes with `sequence`, received at
    /// `now_ms`. Against the last accepted sequence number: the same number
    /// is a duplicate; a step forward of less than 2^15 is accepted and
    /// counts the numbers skipped as lost; anything else is out of order.
    pub fn record_packet(&mut self, sequence: u16, size: u64, now_ms: u64)
        requires
            room_for_packet(*old(self), sequence, size),
        ensures
            final(self).running,
            final(self).online,
            final(self).packets == old(self).packets + 1,
            final(self).bytes == old(self).bytes + size,
            final(self).last_packet_at == now_ms,
            final(self).stream_id == old(self).stream_id,
            match old(self).last_sequence {
                None => {
                    &&& final(self).last_sequence == Some(sequence)
                    &&& final(self).duplicates == old(self).duplicates
                    &&& final(self).estimated_lost == old(self).estimated_lost
                    &&& final(self).out_of_order == old(self).out_of_order
                },
                Some(previous) => {
                    let d = sequence_distance(previous, sequence);
                    if d == 0 {
                        &&& final(self).duplicates == old(self).duplicates + 1
                        &&& final(self).last_sequence == old(self).last_sequence
                        &&& final(self).estimated_lost == old(self).estimated_lost
                        &&& final(self).out_of_order == old(self).out_of_order
                    } else if d < 0x8000 {
                        &&& final(self).last_sequence == Some(sequence)
                        &&& final(self).estimated_lost == old(self).estimated_lost + d - 1
                        &&& final(self).duplicates == old(self).duplicates
                        &&& final(self).out_of_order == old(self).out_of_order
                    } else {
                        &&& final(self).out_of_order == old(self).out_of_order + 1
                        &&& final(self).last_sequence == old(self).last_sequence
                        &&& final(self).estimated_lost == old(self).estimated_lost
                        &&& final(self).duplicates == old(self).duplicates
                    }
                },
            },
    {
        match self.last_sequence {
            Some(previous) => {
                let distance: u16 = sequence.wrapping_sub(previous);
                assert(distance == sequence_distance(previous, sequence));
                if distance == 0 {
                    self.duplicates = self.duplicates + 1;
                } else if distance < 32768 {
                    if distance > 1 {
                        self.estimated_lost = self.estimated_lost + (distance - 1) as u64;
                    }
                    self.last_sequence = Some(sequence);
                } else {
                    self.out_of_order = self.out_of_order + 1;
                }
            },
            None => {
                self.last_sequence = Some(sequence);
            },
        }
        self.running = true;
        self.online = true;
        self.packets = self.packets + 1;
        self.bytes = self.bytes + size;
        self.last_packet_at = now_ms;
    }

    /// After a receive timeout at `now_ms`: the stream goes offline when no
    /// packet came for more than 3 s. Tells whether it went offline.
    pub fn check_timeout(&mut self, now_ms: u64) -> (r: bool)
        ensures
            r == ((if now_ms >= old(self).last_packet_at {
                now_ms - old(self).last_packet_at
            } else {
                0
            }) > 3000),
            final(self).online == (old(self).online && !r),
            final(self).running == old(self).running,
            final(self).packets == old(self).packets,
            final(self).bytes == old(self).bytes,
            final(self).estimated_lost == old(self).estimated_lost,
            final(self).out_of_order == old(self).out_of_order,
            final(self).duplicates == old(self).duplicates,
            final(self).last_sequence == old(self).last_sequence,
            final(self).last_packet_at == old(self).last_packet_at,
            final(self).stream_id == old(self).stream_id,
    {
        if now_ms.saturating_sub(self.last_packet_at) > 3000 {
            self.online = false;
            true
        } else {
            false
        }
    }

    /// Marks the monitoring of the stream as ended.
    pub fn finish(&mut self)
        ensures
            !final(self).running,
            !final(self).online,
            final(self).stream_id == old(self).stream_id,
            final(self).packets == old(self).packets,
            final(self).bytes == old(self).bytes,
            final(self).estimated_lost == old(self).estimated_lost,
            final(self).out_of_order == old(self).out_of_order,
            final(self).duplicates == old(self).duplicates,
            final(self).last_sequence == old(self).last_sequence,
            final(self).last_packet_at == old(self).last_packet_at,
    {
        self.running = false;
        self.online = false;
    }
}

} // verus!
