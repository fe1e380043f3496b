//! PTPv2 (IEEE 1588-2008) monitoring: reading Sync, Follow_Up and
//! Announce messages, and the clock state that they update.
use vstd::prelude::*;
use std::collections::HashMap;
use crate::rtp::{be16, be32, be32_bytes};
use crate::text::{append_str, from_chars, hex_byte_upper, push_hex_byte_upper};

verus! {

broadcast use vstd::std_specs::hash::group_hash_axioms;

/// The current time in whole milliseconds since the Unix epoch.
pub fn timestamp_ms() -> u64 {
    let (secs, nanos) = crate::clock::now_since_epoch();
    crate::clock::millis_of(secs, nanos)
}

/// The current time in nanoseconds since the Unix epoch: never negative,
/// and at most the nanoseconds of the longest `Duration`.
pub fn timestamp_ns() -> (r: i128)
    ensures
        0 <= r <= u64::MAX * 1_000_000_000 + 999_999_999,
{
    let (secs, nanos) = crate::clock::now_since_epoch();
    crate::clock::nanos_of(secs, nanos)
}

/// Whether a datagram can be a PTP version 2 message: at least the 34-byte
/// common header, and version 2 in the low nibble of its second byte.
pub open spec fn ptpv2(p: Seq<u8>) -> bool {
    p.len() >= 34 && p[1] & 0x0f == 2
}

/// Whether a datagram can be a PTP version 2 message.
pub fn valid_ptpv2(packet: &[u8]) -> (r: bool)
    ensures
        r == ptpv2(packet@),
{
    packet.len() >= 34 && packet[1] & 0x0f == 2
}

/// The message type of a PTP message (low nibble of its first byte).
pub fn message_type(packet: &[u8]) -> (r: u8)
    requires
        packet@.len() >= 1,
    ensures
        r == packet@[0] & 0x0f,
{
    packet[0] & 0x0f
}

/// The sequence identifier of a PTP message (bytes 30 and 31).
pub fn sequence_id(packet: &[u8]) -> (r: u16)
    requires
        packet@.len() >= 32,
    ensures
        r == be16(packet@[30], packet@[31]),
{
    ((packet[30] as u16) * 256 + (packet[31] as u16)) as u16
}

/// Whether a message announces a two-step clock: bit 0x0200 of the flags
/// field (bytes 6 and 7).
pub fn two_step(packet: &[u8]) -> (r: bool)
    requires
        packet@.len() >= 8,
    ensures
        r == ((be16(packet@[6], packet@[7]) / 0x200) % 2 == 1),
{
    let flags: u32 = (packet[6] as u32) * 256 + (packet[7] as u32);
    (flags / 0x200) % 2 == 1
}

/// The signed value of eight big-endian bytes.
pub open spec fn be64_signed(p: Seq<u8>, off: int) -> int {
    let u = be32(p[off], p[off + 1], p[off + 2], p[off + 3]) * 0x1_0000_0000 + be32(
        p[off + 4],
        p[off + 5],
        p[off + 6],
        p[off + 7],
    );
    if u >= 0x8000_0000_0000_0000 {
        u - 0x1_0000_0000_0000_0000
    } else {
        u as int
    }
}

/// The correction field of a PTP message (bytes 8 to 15, a signed count of
/// 2^-16 nanoseconds).
pub fn correction_field(packet: &[u8]) -> (r: i64)
    requires
        packet@.len() >= 16,
    ensures
        r == be64_signed(packet@, 8),
{
    let hi: u64 = (((packet[8] as u64) * 256 + packet[9] as u64) * 256 + packet[10] as u64) * 256
        + packet[11] as u64;
    let lo: u64 = (((packet[12] as u64) * 256 + packet[13] as u64) * 256 + packet[14] as u64)
        * 256 + packet[15] as u64;
    let u: u128 = (hi as u128) * 0x1_0000_0000 + (lo as u128);
    if u >= 0x8000_0000_0000_0000 {
        (u as i128 - 0x1_0000_0000_0000_0000) as i64
    } else {
        u as i64
    }
}

/// The 48-bit seconds and the nanoseconds of the PTP timestamp at `off`,
/// in nanoseconds; none when the message is too short.
pub open spec fn timestamp_at(p: Seq<u8>, off: int) -> Option<int> {
    if p.len() < off + 10 {
        None
    } else {
        let seconds = be16(p[off], p[off + 1]) * 0x1_0000_0000 + be32(
            p[off + 2],
            p[off + 3],
            p[off + 4],
            p[off + 5],
        );
        Some((seconds * 1_000_000_000 + be32(p[off + 6], p[off + 7], p[off + 8], p[off + 9])) as int)
    }
}

/// The PTP timestamp at `offset` in nanoseconds.
pub fn ptp_timestamp_ns(packet: &[u8], offset: usize) -> (r: Option<i128>)
    requires
        offset + 10 <= usize::MAX,
    ensures
        match timestamp_at(packet@, offset as int) {
            Some(v) => r == Some(v as i128),
            None => r is None,
        },
{
    if packet.len() < offset + 10 {
        return None;
    }
    let seconds: u64 = ((packet[offset] as u64) * 256 + packet[offset + 1] as u64) * 0x1_0000_0000
        + ((((packet[offset + 2] as u64) * 256 + packet[offset + 3] as u64) * 256
        + packet[offset + 4] as u64) * 256 + packet[offset + 5] as u64);
    let nanoseconds: u64 = (((packet[offset + 6] as u64) * 256 + packet[offset + 7] as u64) * 256
        + packet[offset + 8] as u64) * 256 + packet[offset + 9] as u64;
    Some((seconds as i128) * 1_000_000_000 + (nanoseconds as i128))
}

/// A clock identity as colon-separated upper-case hexadecimal bytes.
pub open spec fn identity_text(bytes: Seq<u8>) -> Seq<char>
    decreases bytes.len(),
{
    if bytes.len() == 0 {
        Seq::empty()
    } else if bytes.len() == 1 {
        hex_byte_upper(bytes[0])
    } else {
        identity_text(bytes.drop_last()).push(':') + hex_byte_upper(bytes.last())
    }
}

/// A clock identity as text, e.g. `00:1D:C1:FF:FE:12:34:56`.
pub fn clock_identity(bytes: &[u8]) -> (r: String)
    ensures
        r@ == identity_text(bytes@),
{
    let mut t: Vec<char> = Vec::new();
    let n = bytes.len();
    assert(bytes@.take(0) == Seq::<u8>::empty());
    for i in 0..n
        invariant
            n == bytes@.len(),
            t@ == identity_text(bytes@.take(i as int)),
    {
        assert(bytes@.take(i + 1).drop_last() == bytes@.take(i as int));
        if i > 0 {
            t.push(':');
        }
        push_hex_byte_upper(&mut t, bytes[i]);
        if i == 0 {
            assert(t@ == hex_byte_upper(bytes@[0]));
        }
    }
    assert(bytes@.take(n as int) == bytes@);
    from_chars(t.as_slice())
}

/// What an Announce message says of the grandmaster clock.
pub struct AnnounceInfo {
    pub domain: u8,
    pub utc_offset: i16,
    pub priority1: u8,
    pub clock_class: u8,
    pub clock_accuracy: u8,
    pub clock_variance: u16,
    pub priority2: u8,
    pub grandmaster_identity: String,
    pub steps_removed: u16,
    pub time_source: u8,
}

/// The signed value of two big-endian bytes (`i16::from_be_bytes`).
pub open spec fn be16_signed(hi: u8, lo: u8) -> int {
    if be16(hi, lo) >= 0x8000 {
        be16(hi, lo) - 0x1_0000
    } else {
        be16(hi, lo) as int
    }
}

/// Whether a datagram is an Announce message long enough to read.
pub open spec fn is_announce(p: Seq<u8>) -> bool {
    ptpv2(p) && p[0] & 0x0f == 11 && p.len() >= 64
}

/// Reads an Announce message (type 11, at least 64 bytes).
pub fn parse_announce(packet: &[u8]) -> (r: Option<AnnounceInfo>)
    ensures
        r is Some <==> is_announce(packet@),
        r matches Some(a) ==> {
            let p = packet@;
            &&& a.domain == p[4]
            &&& a.utc_offset == be16_signed(p[44], p[45])
            &&& a.priority1 == p[47]
            &&& a.clock_class == p[48]
            &&& a.clock_accuracy == p[49]
            &&& a.clock_variance == be16(p[50], p[51])
            &&& a.priority2 == p[52]
            &&& a.grandmaster_identity@ == identity_text(p.subrange(53, 61))
            &&& a.steps_removed == be16(p[61], p[62])
            &&& a.time_source == p[63]
        },
{
    if !valid_ptpv2(packet) || packet[0] & 0x0f != 11 || packet.len() < 64 {
        return None;
    }
    let raw: i32 = (packet[44] as i32) * 256 + (packet[45] as i32);
    let utc_offset: i16 = if raw >= 0x8000 {
        (raw - 0x1_0000) as i16
    } else {
        raw as i16
    };
    Some(
        AnnounceInfo {
            domain: packet[4],
            utc_offset,
            priority1: packet[47],
            clock_class: packet[48],
            clock_accuracy: packet[49],
            clock_variance: ((packet[50] as u16) * 256 + packet[51] as u16) as u16,
            priority2: packet[52],
            grandmaster_identity: clock_identity(vstd::slice::slice_subrange(packet, 53, 61)),
            steps_removed: ((packet[61] as u16) * 256 + packet[62] as u16) as u16,
            time_source: packet[63],
        },
    )
}

/// The integer part of the monitor's view of the PTP clock.
pub struct PtpState {
    pub running: bool,
    pub interface_ip: String,
    pub domain: u8,
    pub grandmaster_identity: String,
    pub priority1: u8,
    pub priority2: u8,
    pub clock_class: u8,
    pub clock_accuracy: u8,
    pub clock_variance: u16,
    pub steps_removed: u16,
    pub time_source: u8,
    pub utc_offset: Option<i16>,
    pub last_sync_ms: u64,
    pub last_announce_ms: u64,
    pub sync_packets: u64,
    pub announce_packets: u64,
    pub message: String,
}

/// Whether a clock seen at these times is healthy at `now`: the monitor
/// runs, a Sync came within 3 s and an Announce within 10 s.
pub open spec fn healthy_at(running: bool, now: u64, last_sync: u64, last_announce: u64) -> bool {
    running && (if now >= last_sync { now - last_sync } else { 0 }) < 3000 && (if now
        >= last_announce {
        now - last_announce
    } else {
        0
    }) < 10000
}

/// Whether `t` is `s` after a Sync of `domain` received at `now`: the
/// domain, the time of the last Sync, the Sync count and the message
/// change, nothing else.
pub open spec fn synced(s: PtpState, domain: u8, now: u64, t: PtpState) -> bool {
    &&& t.domain == domain
    &&& t.last_sync_ms == now
    &&& t.sync_packets == s.sync_packets + 1
    &&& t.message@ == "PTPv2 Sync ricevuto"@
    &&& t.running == s.running
    &&& t.interface_ip == s.interface_ip
    &&& t.grandmaster_identity == s.grandmaster_identity
    &&& t.priority1 == s.priority1
    &&& t.priority2 == s.priority2
    &&& t.clock_class == s.clock_class
    &&& t.clock_accuracy == s.clock_accuracy
    &&& t.clock_variance == s.clock_variance
    &&& t.steps_removed == s.steps_removed
    &&& t.time_source == s.time_source
    &&& t.utc_offset == s.utc_offset
    &&& t.last_announce_ms == s.last_announce_ms
    &&& t.announce_packets == s.announce_packets
}

/// Whether `t` is `s` after the Announce message `p` received at `now`: the
/// grandmaster's description, the domain, the time of the last Announce,
/// the Announce count and the message change; the rest stays.
pub open spec fn announced(s: PtpState, p: Seq<u8>, now: u64, t: PtpState) -> bool {
    &&& t.domain == p[4]
    &&& (t.utc_offset matches Some(u) && u == be16_signed(p[44], p[45]))
    &&& t.priority1 == p[47]
    &&& t.clock_class == p[48]
    &&& t.clock_accuracy == p[49]
    &&& t.clock_variance == be16(p[50], p[51])
    &&& t.priority2 == p[52]
    &&& t.grandmaster_identity@ == identity_text(p.subrange(53, 61))
    &&& t.steps_removed == be16(p[61], p[62])
    &&& t.time_source == p[63]
    &&& t.last_announce_ms == now
    &&& t.announce_packets == s.announce_packets + 1
    &&& t.message@ == "PTPv2 Grandmaster rilevato"@
    &&& t.running == s.running
    &&& t.interface_ip == s.interface_ip
    &&& t.last_sync_ms == s.last_sync_ms
    &&& t.sync_packets == s.sync_packets
}

/// Whether `t` keeps everything that `s` knows of the clock and the
/// monitor's interface: all but whether it runs and its message.
pub open spec fn same_clock(s: PtpState, t: PtpState) -> bool {
    &&& t.interface_ip == s.interface_ip
    &&& t.domain == s.domain
    &&& t.grandmaster_identity == s.grandmaster_identity
    &&& t.priority1 == s.priority1
    &&& t.priority2 == s.priority2
    &&& t.clock_class == s.clock_class
    &&& t.clock_accuracy == s.clock_accuracy
    &&& t.clock_variance == s.clock_variance
    &&& t.steps_removed == s.steps_removed
    &&& t.time_source == s.time_source
    &&& t.utc_offset == s.utc_offset
    &&& t.last_sync_ms == s.last_sync_ms
    &&& t.last_announce_ms == s.last_announce_ms
    &&& t.sync_packets == s.sync_packets
    &&& t.announce_packets == s.announce_packets
}

/// Whether the state knows nothing of a clock yet: every field of the
/// clock's description and every count and time is zero, empty or absent.
pub open spec fn nothing_known(s: PtpState) -> bool {
    &&& s.domain == 0
    &&& s.grandmaster_identity@ == Seq::<char>::empty()
    &&& s.priority1 == 0
    &&& s.priority2 == 0
    &&& s.clock_class == 0
    &&& s.clock_accuracy == 0
    &&& s.clock_variance == 0
    &&& s.steps_removed == 0
    &&& s.time_source == 0
    &&& s.utc_offset is None
    &&& s.last_sync_ms == 0
    &&& s.last_announce_ms == 0
    &&& s.sync_packets == 0
    &&& s.announce_packets == 0
}

/// Whether a datagram is a Sync message (type 0).
pub open spec fn is_sync(p: Seq<u8>) -> bool {
    ptpv2(p) && p[0] & 0x0f == 0
}

/// Whether a datagram is a Follow_Up message (type 8).
pub open spec fn is_follow_up(p: Seq<u8>) -> bool {
    ptpv2(p) && p[0] & 0x0f == 8
}

/// Whether a message carries the two-step flag (bit 0x0200 of its flags).
pub open spec fn two_step_flag(p: Seq<u8>) -> bool {
    (be16(p[6], p[7]) / 0x200) % 2 == 1
}

/// The sequence identifier of a message (bytes 30 and 31).
pub open spec fn sequence_of(p: Seq<u8>) -> u16 {
    be16(p[30], p[31]) as u16
}

/// What estimating the offset of the local clock takes: when the Sync
/// arrived, the origin timestamp (TAI nanoseconds), the UTC offset that the
/// grandmaster announced, and the correction fields (in 2^-16 ns) of the
/// Sync and of its Follow_Up (zero for a one-step Sync).
#[derive(Clone, Copy)]
pub struct OffsetSample {
    pub arrival_ns: i128,
    pub origin_ns: i128,
    pub utc_offset: i16,
    pub sync_correction: i64,
    pub follow_up_correction: i64,
}

/// What an event message did.
pub enum EventOutcome {
    /// Not a PTPv2 Sync: nothing changed.
    Ignored,
    /// A Sync, with the offset sample it completes, if any.
    Sync(Option<OffsetSample>),
}

/// The offset sample of a one-step Sync `p` that arrived at `arrival`, when
/// it carries an origin timestamp and the UTC offset is known.
pub open spec fn one_step_sample(p: Seq<u8>, arrival: i128, utc: Option<i16>) -> Option<OffsetSample> {
    match (timestamp_at(p, 34), utc) {
        (Some(origin), Some(u)) => Some(
            OffsetSample {
                arrival_ns: arrival,
                origin_ns: origin as i128,
                utc_offset: u,
                sync_correction: be64_signed(p, 8) as i64,
                follow_up_correction: 0,
            },
        ),
        _ => None,
    }
}

/// The offset sample that the Follow_Up `p` completes: the pending Sync with
/// its sequence, its precise origin timestamp and the known UTC offset.
pub open spec fn follow_up_sample(p: Seq<u8>, pending: Map<u16, PendingSync>, utc: Option<i16>) -> Option<
    OffsetSample,
> {
    if pending.contains_key(sequence_of(p)) {
        match (timestamp_at(p, 34), utc) {
            (Some(origin), Some(u)) => Some(
                OffsetSample {
                    arrival_ns: pending[sequence_of(p)].arrival_ns,
                    origin_ns: origin as i128,
                    utc_offset: u,
                    sync_correction: pending[sequence_of(p)].correction,
                    follow_up_correction: be64_signed(p, 8) as i64,
                },
            ),
            _ => None,
        }
    } else {
        None
    }
}

impl PtpState {
    /// Handles a datagram received on the event port (319) at `arrival_ns`
    /// (`now_ms` in milliseconds). A PTPv2 Sync is recorded; a two-step
    /// Sync waits in `pending` for its Follow_Up, a one-step Sync gives its
    /// offset sample at once. Anything else changes nothing.
    pub fn handle_event_message(
        &mut self,
        pending: &mut PendingSyncs,
        packet: &[u8],
        arrival_ns: i128,
        now_ms: u64,
    ) -> (r: EventOutcome)
        requires
            is_sync(packet@) ==> old(self).sync_packets < u64::MAX,
        ensures
            !is_sync(packet@) ==> r is Ignored && *final(self) == *old(self) && final(pending)@
                == old(pending)@,
            is_sync(packet@) ==> synced(*old(self), packet@[4], now_ms, *final(self)),
            is_sync(packet@) && two_step_flag(packet@) ==> r == EventOutcome::Sync(None)
                && final(pending)@ == old(pending)@.insert(
                sequence_of(packet@),
                PendingSync { arrival_ns, correction: be64_signed(packet@, 8) as i64 },
            ),
            is_sync(packet@) && !two_step_flag(packet@) ==> r == EventOutcome::Sync(
                one_step_sample(packet@, arrival_ns, old(self).utc_offset),
            ) && final(pending)@ == old(pending)@,
    {
        if !valid_ptpv2(packet) || message_type(packet) != 0 {
            return EventOutcome::Ignored;
        }
        let sequence = sequence_id(packet);
        let correction = correction_field(packet);
        let sample = if two_step(packet) {
            pending.remember(sequence, PendingSync { arrival_ns, correction });
            None
        } else {
            match (ptp_timestamp_ns(packet, 34), self.utc_offset) {
                (Some(origin), Some(u)) => Some(
                    OffsetSample {
                        arrival_ns,
                        origin_ns: origin,
                        utc_offset: u,
                        sync_correction: correction,
                        follow_up_correction: 0,
                    },
                ),
                _ => None,
            }
        };
        self.record_sync(packet[4], now_ms);
        EventOutcome::Sync(sample)
    }

    /// Handles a datagram received on the general port (320) at `now_ms`.
    /// A PTPv2 Announce updates the grandmaster's description; a Follow_Up
    /// takes its pending Sync and gives the offset sample they complete.
    /// Anything else changes nothing.
    pub fn handle_general_message(&mut self, pending: &mut PendingSyncs, packet: &[u8], now_ms: u64) -> (r:
        Option<OffsetSample>)
        requires
            is_announce(packet@) ==> old(self).announce_packets < u64::MAX,
        ensures
            is_announce(packet@) ==> announced(*old(self), packet@, now_ms, *final(self)),
            !is_announce(packet@) ==> *final(self) == *old(self),
            is_follow_up(packet@) ==> final(pending)@ == old(pending)@.remove(sequence_of(packet@))
                && r == follow_up_sample(packet@, old(pending)@, old(self).utc_offset),
            !is_follow_up(packet@) ==> final(pending)@ == old(pending)@ && r is None,
    {
        if !valid_ptpv2(packet) {
            return None;
        }
        match parse_announce(packet) {
            Some(info) => {
                self.record_announce(info, now_ms);
            },
            None => {},
        }
        if message_type(packet) != 8 {
            return None;
        }
        let sequence = sequence_id(packet);
        let taken = pending.take(sequence);
        match (taken, ptp_timestamp_ns(packet, 34), self.utc_offset) {
            (Some(sync), Some(origin), Some(u)) => Some(
                OffsetSample {
                    arrival_ns: sync.arrival_ns,
                    origin_ns: origin,
                    utc_offset: u,
                    sync_correction: sync.correction,
                    follow_up_correction: correction_field(packet),
                },
            ),
            _ => None,
        }
    }
}

impl PtpState {
    /// A monitor that has not started.
    pub fn new() -> (r: PtpState)
        ensures
            !r.running,
            r.interface_ip@ == Seq::<char>::empty(),
            r.message@ == Seq::<char>::empty(),
            nothing_known(r),
    {
        PtpState {
            running: false,
            interface_ip: String::new(),
            domain: 0,
            grandmaster_identity: String::new(),
            priority1: 0,
            priority2: 0,
            clock_class: 0,
            clock_accuracy: 0,
            clock_variance: 0,
            steps_removed: 0,
            time_source: 0,
            utc_offset: None,
            last_sync_ms: 0,
            last_announce_ms: 0,
            sync_packets: 0,
            announce_packets: 0,
            message: String::new(),
        }
    }

    /// A monitor just started on `interface_ip`, waiting for messages.
    pub fn started(interface_ip: String) -> (r: PtpState)
        ensures
            r.running,
            r.interface_ip@ == interface_ip@,
            r.message@ == "In attesa di messaggi PTPv2"@,
            nothing_known(r),
    {
        let mut r = PtpState::new();
        r.running = true;
        r.interface_ip = interface_ip;
        r.message = "In attesa di messaggi PTPv2".to_string();
        r
    }

    /// Whether the monitor already runs on `interface_ip`.
    pub fn monitoring(&self, interface_ip: &str) -> (r: bool)
        ensures
            r == (self.running && self.interface_ip@ == interface_ip@),
    {
        self.running && crate::text::chars_eq(
            crate::text::to_chars(self.interface_ip.as_str()).as_slice(),
            crate::text::to_chars(interface_ip).as_slice(),
        )
    }

    /// Records a Sync message of `domain` received at `now_ms`.
    pub fn record_sync(&mut self, domain: u8, now_ms: u64)
        requires
            old(self).sync_packets < u64::MAX,
        ensures
            synced(*old(self), domain, now_ms, *final(self)),
    {
        self.domain = domain;
        self.last_sync_ms = now_ms;
        self.sync_packets = self.sync_packets + 1;
        self.message = "PTPv2 Sync ricevuto".to_string();
    }

    /// Records an Announce message received at `now_ms`.
    pub fn record_announce(&mut self, info: AnnounceInfo, now_ms: u64)
        requires
            old(self).announce_packets < u64::MAX,
        ensures
            final(self).domain == info.domain,
            final(self).utc_offset == Some(info.utc_offset),
            final(self).priority1 == info.priority1,
            final(self).clock_class == info.clock_class,
            final(self).clock_accuracy == info.clock_accuracy,
            final(self).clock_variance == info.clock_variance,
            final(self).priority2 == info.priority2,
            final(self).grandmaster_identity@ == info.grandmaster_identity@,
            final(self).steps_removed == info.steps_removed,
            final(self).time_source == info.time_source,
            final(self).last_announce_ms == now_ms,
            final(self).announce_packets == old(self).announce_packets + 1,
            final(self).message@ == "PTPv2 Grandmaster rilevato"@,
            final(self).running == old(self).running,
            final(self).interface_ip == old(self).interface_ip,
            final(self).last_sync_ms == old(self).last_sync_ms,
            final(self).sync_packets == old(self).sync_packets,
    {
        self.domain = info.domain;
        self.utc_offset = Some(info.utc_offset);
        self.priority1 = info.priority1;
        self.clock_class = info.clock_class;
        self.clock_accuracy = info.clock_accuracy;
        self.clock_variance = info.clock_variance;
        self.priority2 = info.priority2;
        self.grandmaster_identity = info.grandmaster_identity;
        self.steps_removed = info.steps_removed;
        self.time_source = info.time_source;
        self.last_announce_ms = now_ms;
        self.announce_packets = self.announce_packets + 1;
        self.message = "PTPv2 Grandmaster rilevato".to_string();
    }

    /// Records that a receiving socket failed with `error`.
    pub fn record_error(&mut self, error: String)
        ensures
            final(self).message@ == error@,
            final(self).running == old(self).running,
            same_clock(*old(self), *final(self)),
    {
        self.message = error;
    }

    /// Marks the monitor as stopped.
    pub fn stop(&mut self)
        ensures
            !final(self).running,
            final(self).message@ == "Monitor PTP arrestato"@,
            same_clock(*old(self), *final(self)),
    {
        self.running = false;
        self.message = "Monitor PTP arrestato".to_string();
    }

    /// Whether the clock is healthy at `now_ms`.
    pub fn healthy(&self, now_ms: u64) -> (r: bool)
        ensures
            r == healthy_at(self.running, now_ms, self.last_sync_ms, self.last_announce_ms),
    {
        self.running && now_ms.saturating_sub(self.last_sync_ms) < 3000 && now_ms.saturating_sub(
            self.last_announce_ms,
        ) < 10000
    }
}

/// A two-step Sync waiting for its Follow_Up: when it arrived, and its
/// correction field.
#[derive(Clone, Copy)]
pub struct PendingSync {
    pub arrival_ns: i128,
    pub correction: i64,
}

/// Two-step Syncs waiting for their Follow_Up, by sequence identifier.
pub struct PendingSyncs {
    pending: HashMap<u16, PendingSync>,
}

impl View for PendingSyncs {
    type V = Map<u16, PendingSync>;

    closed spec fn view(&self) -> Map<u16, PendingSync> {
        self.pending@
    }
}

impl PendingSyncs {
    /// No pending Sync.
    pub fn new() -> (r: PendingSyncs)
        ensures
            r@ == Map::<u16, PendingSync>::empty(),
    {
        PendingSyncs { pending: HashMap::new() }
    }

    /// Remembers a two-step Sync, replacing one with the same sequence.
    pub fn remember(&mut self, sequence: u16, sync: PendingSync)
        ensures
            final(self)@ == old(self)@.insert(sequence, sync),
    {
        self.pending.insert(sequence, sync);
    }

    /// Takes the Sync that a Follow_Up with `sequence` completes.
    pub fn take(&mut self, sequence: u16) -> (r: Option<PendingSync>)
        ensures
            final(self)@ == old(self)@.remove(sequence),
            match r {
                Some(s) => old(self)@.contains_key(sequence) && s == old(self)@[sequence],
                None => !old(self)@.contains_key(sequence),
            },
    {
        self.pending.remove(&sequence)
    }
}

/// Law: the Follow_Up of a remembered two-step Sync finds exactly that
/// Sync, and finds it only once.
pub proof fn lemma_pending_remember_take(pending: Map<u16, PendingSync>, sequence: u16, sync: PendingSync)
    ensures
        pending.insert(sequence, sync).contains_key(sequence),
        pending.insert(sequence, sync)[sequence] == sync,
        !pending.insert(sequence, sync).remove(sequence).contains_key(sequence),
        pending.insert(sequence, sync).remove(sequence) == pending.remove(sequence),
{
    assert(pending.insert(sequence, sync).remove(sequence) =~= pending.remove(sequence));
}

/// The big-endian bytes of a 48-bit value, as PTP writes the seconds of a
/// timestamp.
pub open spec fn be48_bytes(v: u64) -> Seq<u8> {
    seq![
        (v / 0x100_0000_0000) as u8,
        ((v / 0x1_0000_0000) % 256) as u8,
        ((v / 0x100_0000) % 256) as u8,
        ((v / 0x1_0000) % 256) as u8,
        ((v / 256) % 256) as u8,
        (v % 256) as u8,
    ]
}

/// Law: a PTP timestamp written as 48-bit big-endian seconds and 32-bit
/// big-endian nanoseconds at `off` reads back as those seconds and
/// nanoseconds in nanoseconds.
pub proof fn lemma_timestamp_roundtrip(p: Seq<u8>, off: int, seconds: u64, nanos: u32)
    requires
        0 <= off,
        off + 10 <= p.len(),
        seconds < 0x1_0000_0000_0000,
        p.subrange(off, off + 6) == be48_bytes(seconds),
        p.subrange(off + 6, off + 10) == be32_bytes(nanos),
    ensures
        timestamp_at(p, off) == Some(seconds * 1_000_000_000 + nanos),
{
    let s = p.subrange(off, off + 6);
    let n = p.subrange(off + 6, off + 10);
    assert(p[off] == s[0] && p[off + 1] == s[1] && p[off + 2] == s[2]);
    assert(p[off + 3] == s[3] && p[off + 4] == s[4] && p[off + 5] == s[5]);
    assert(p[off + 6] == n[0] && p[off + 7] == n[1] && p[off + 8] == n[2] && p[off + 9] == n[3]);
    let c0: u64 = s[0] as u64;
    let c1: u64 = s[1] as u64;
    let c2: u64 = s[2] as u64;
    let c3: u64 = s[3] as u64;
    let c4: u64 = s[4] as u64;
    let c5: u64 = s[5] as u64;
    assert(c0 == seconds / 0x100_0000_0000);
    assert(c1 == (seconds / 0x1_0000_0000) % 256);
    assert(c2 == (seconds / 0x100_0000) % 256);
    assert(c3 == (seconds / 0x1_0000) % 256);
    assert(c4 == (seconds / 256) % 256);
    assert(c5 == seconds % 256);
    assert(c0 * 0x100_0000_0000 + c1 * 0x1_0000_0000 + c2 * 0x100_0000 + c3 * 0x1_0000 + c4 * 256
        + c5 == seconds) by (bit_vector)
        requires
            seconds < 0x1_0000_0000_0000u64,
            c0 == seconds / 0x100_0000_0000u64,
            c1 == (seconds / 0x1_0000_0000u64) % 256u64,
            c2 == (seconds / 0x100_0000u64) % 256u64,
            c3 == (seconds / 0x1_0000u64) % 256u64,
            c4 == (seconds / 256u64) % 256u64,
            c5 == seconds % 256u64,
    ;
    assert(be32(n[0], n[1], n[2], n[3]) == nanos);
}

} // verus!
