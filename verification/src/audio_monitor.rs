//! Listening to two channels of a stream on a local output device: request
//! checks, the samples taken from each packet, the playback buffer bound
//! and the monitor's status.
use vstd::prelude::*;
use crate::net::{Ipv4Address, ipv4_from_text, parse_ipv4};
use crate::pcm::{Codec, codec_named, parse_codec, sample_bytes, selected_samples};
use crate::rtp::payload_range;

verus! {

/// An audio output device, by name.
pub struct AudioDevice {
    pub name: String,
}

/// What the listening monitor reports.
pub struct AudioStatus {
    pub running: bool,
    pub stream_id: String,
    pub device_name: String,
    pub buffered_frames: usize,
    pub underruns: u64,
    pub error: String,
}

impl AudioStatus {
    /// The status before any listening started.
    pub fn new() -> (r: AudioStatus)
        ensures
            !r.running,
            r.stream_id@ == Seq::<char>::empty(),
            r.device_name@ == Seq::<char>::empty(),
            r.buffered_frames == 0,
            r.underruns == 0,
            r.error@ == Seq::<char>::empty(),
    {
        AudioStatus {
            running: false,
            stream_id: String::new(),
            device_name: String::new(),
            buffered_frames: 0,
            underruns: 0,
            error: String::new(),
        }
    }

    /// The status of a monitor that starts playing `stream_id` on `device_name`.
    pub fn started(stream_id: String, device_name: String) -> (r: AudioStatus)
        ensures
            r.running,
            r.stream_id@ == stream_id@,
            r.device_name@ == device_name@,
            r.buffered_frames == 0,
            r.underruns == 0,
            r.error@ == Seq::<char>::empty(),
    {
        AudioStatus {
            running: true,
            stream_id,
            device_name,
            buffered_frames: 0,
            underruns: 0,
            error: String::new(),
        }
    }

    /// After the output device took its samples: `queued_samples` remain
    /// (two per frame) and `missing` frames found none.
    pub fn record_playback(&mut self, queued_samples: usize, missing: u64)
        requires
            old(self).underruns + missing <= u64::MAX,
        ensures
            final(self).buffered_frames == queued_samples / 2,
            final(self).underruns == old(self).underruns + missing,
            final(self).running == old(self).running,
            final(self).error == old(self).error,
            final(self).stream_id == old(self).stream_id,
            final(self).device_name == old(self).device_name,
    {
        self.buffered_frames = queued_samples / 2;
        self.underruns = self.underruns + missing;
    }

    /// Records that listening failed with `error`.
    pub fn fail(&mut self, error: String)
        ensures
            !final(self).running,
            final(self).error@ == error@,
            final(self).buffered_frames == old(self).buffered_frames,
            final(self).underruns == old(self).underruns,
            final(self).stream_id == old(self).stream_id,
            final(self).device_name == old(self).device_name,
    {
        self.running = false;
        self.error = error;
    }

    /// Records that listening ended normally.
    pub fn stop(&mut self)
        ensures
            !final(self).running,
            final(self).buffered_frames == 0,
            final(self).underruns == old(self).underruns,
            final(self).error == old(self).error,
            final(self).stream_id == old(self).stream_id,
            final(self).device_name == old(self).device_name,
    {
        self.running = false;
        self.buffered_frames = 0;
    }
}

/// The payload of a received RTP packet.
pub fn rtp_payload(packet: &[u8]) -> (r: Option<&[u8]>)
    ensures
        match payload_range(packet@) {
            Some((a, b)) => r matches Some(s) && s@ == packet@.subrange(a, b),
            None => r is None,
        },
{
    crate::rtp::payload_of(packet)
}

/// The error that a listening request meets first among its codec and
/// channel checks, if any.
pub open spec fn monitor_request_error(codec: Seq<char>, channels: u16, left: u16, right: u16) -> Option<
    Seq<char>,
> {
    if codec_named(codec) is None {
        Some("Ascolto disponibile soltanto per PCM L16/L24"@)
    } else if channels == 0 || left >= channels || right >= channels {
        Some("Selezione canali non valida"@)
    } else {
        None
    }
}

/// Law: a listening request passes its checks exactly when its codec is
/// L16 or L24 and both the left and the right channel exist in the stream.
pub proof fn lemma_monitor_request_accepted(codec: Seq<char>, channels: u16, left: u16, right: u16)
    ensures
        monitor_request_error(codec, channels, left, right) is None <==> (codec_named(codec) is Some
            && left < channels && right < channels),
{
}

/// Checks the codec and the two channels of a listening request.
pub fn check_monitor_request(codec: &str, channels: u16, left_channel: u16, right_channel: u16) -> (r:
    Result<Codec, String>)
    ensures
        r is Err <==> monitor_request_error(codec@, channels, left_channel, right_channel) is Some,
        r matches Err(e) ==> monitor_request_error(codec@, channels, left_channel, right_channel)
            == Some(e@),
        r matches Ok(c) ==> codec_named(codec@) == Some(c),
        r is Ok ==> left_channel < channels && right_channel < channels,
        codec_named(codec@) is Some && left_channel < channels && right_channel < channels ==> r is Ok,
{
    let c = match parse_codec(codec) {
        Some(c) => c,
        None => return Err("Ascolto disponibile soltanto per PCM L16/L24".to_string()),
    };
    if channels == 0 || left_channel >= channels || right_channel >= channels {
        return Err("Selezione canali non valida".to_string());
    }
    Ok(c)
}

/// Reads the group and interface addresses of a listening request.
pub fn parse_monitor_addresses(address: &str, interface_ip: &str) -> (r: Result<
    (Ipv4Address, Ipv4Address),
    String,
>)
    ensures
        ipv4_from_text(address@) is None ==> (r matches Err(e) && e@ == "Multicast non valido"@),
        ipv4_from_text(address@) is Some && ipv4_from_text(interface_ip@) is None ==> (r matches Err(
            e,
        ) && e@ == "Interfaccia non valida"@),
        ipv4_from_text(address@) is Some && ipv4_from_text(interface_ip@) is Some ==> r == Ok::<
            (Ipv4Address, Ipv4Address),
            String,
        >((ipv4_from_text(address@)->0, ipv4_from_text(interface_ip@)->0)),
        r matches Ok((g, i)) ==> ipv4_from_text(address@) == Some(g) && ipv4_from_text(interface_ip@)
            == Some(i),
{
    let group = match parse_ipv4(address) {
        Some(a) => a,
        None => return Err("Multicast non valido".to_string()),
    };
    let interface = match parse_ipv4(interface_ip) {
        Some(a) => a,
        None => return Err("Interfaccia non valida".to_string()),
    };
    Ok((group, interface))
}

/// The left and right samples of every complete frame of a packet's
/// payload, interleaved, before they are scaled for the output device.
pub fn stereo_samples(
    codec: Codec,
    payload: &[u8],
    channels: usize,
    left_channel: usize,
    right_channel: usize,
) -> (r: Vec<i32>)
    requires
        channels * 3 <= usize::MAX,
        left_channel < channels,
        right_channel < channels,
    ensures
        r@.map_values(|v: i32| v as int) == selected_samples(
            codec,
            payload@,
            (channels * sample_bytes(codec)) as nat,
            seq![left_channel, right_channel],
        ),
{
    let mut selected: Vec<usize> = Vec::new();
    selected.push(left_channel);
    selected.push(right_channel);
    assert(selected@ == seq![left_channel, right_channel]);
    crate::pcm::select_samples(codec, payload, channels, selected.as_slice())
}

/// Whether a device configuration whose sample rates run from `range.0` to
/// `range.1` plays `rate`.
pub open spec fn rate_in(range: (u32, u32), rate: u32) -> bool {
    range.0 <= rate && rate <= range.1
}

/// The first output configuration, by its sample-rate range, that plays
/// `rate`; none when no configuration does.
pub fn choose_config(ranges: &[(u32, u32)], rate: u32) -> (r: Option<usize>)
    ensures
        match r {
            Some(i) => i < ranges@.len() && rate_in(ranges@[i as int], rate) && forall|j: int|
                0 <= j < i ==> !rate_in(#[trigger] ranges@[j], rate),
            None => forall|j: int| 0 <= j < ranges@.len() ==> !rate_in(#[trigger] ranges@[j], rate),
        },
{
    let n = ranges.len();
    for i in 0..n
        invariant
            n == ranges@.len(),
            forall|j: int| 0 <= j < i ==> !rate_in(#[trigger] ranges@[j], rate),
    {
        let (low, high) = ranges[i];
        if low <= rate && rate <= high {
            return Some(i);
        }
    }
    None
}

/// The most samples that the playback buffer holds: four seconds of one
/// channel's samples, i.e. two seconds of stereo frames.
pub fn max_buffered_samples(sample_rate: u32) -> (r: usize)
    requires
        sample_rate * 4 <= usize::MAX,
    ensures
        r == sample_rate * 4,
{
    (sample_rate as usize) * 4
}

/// How many samples leave the front of a playback buffer of `len` samples
/// to bring it to at most `maximum` samples, dropping whole stereo pairs.
pub open spec fn excess_samples(len: nat, maximum: nat) -> nat
    decreases len,
{
    if len <= maximum {
        0
    } else if len < 2 {
        len
    } else {
        2 + excess_samples((len - 2) as nat, maximum)
    }
}

/// How many samples to drop from the front of the playback buffer.
pub fn samples_to_drop(len: usize, maximum: usize) -> (r: usize)
    ensures
        r == excess_samples(len as nat, maximum as nat),
        r <= len,
{
    let mut remaining = len;
    let mut dropped: usize = 0;
    while remaining > maximum
        invariant
            remaining + dropped == len,
            excess_samples(len as nat, maximum as nat) == dropped + excess_samples(
                remaining as nat,
                maximum as nat,
            ),
        decreases remaining,
    {
        if remaining < 2 {
            dropped = dropped + remaining;
            remaining = 0;
        } else {
            dropped = dropped + 2;
            remaining = remaining - 2;
        }
    }
    dropped
}

} // verus!
