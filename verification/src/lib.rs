//! Verified core of an AES67 audio-over-IP monitoring desk: stream
//! discovery through SAP/SDP, RTP packet handling, PTP message decoding,
//! PCM sample selection and conversion, multicast routing packets and
//! NMOS registry data.
use vstd::prelude::*;

pub mod audio_monitor;
pub mod clock;
pub mod discovery;
pub mod net;
pub mod nmos;
pub mod pcm;
pub mod ptp_monitor;
pub mod recorder;
pub mod routing;
pub mod rtp;
pub mod rtp_monitor;
pub mod text;

verus! {

} // verus!
