use aes67_matrix::audio_monitor::{
    check_monitor_request, choose_config, max_buffered_samples, parse_monitor_addresses, samples_to_drop,
    stereo_samples, AudioStatus,
};
use aes67_matrix::clock::{millis_of, nanos_of};
use aes67_matrix::net::Ipv4Address;
use aes67_matrix::pcm::Codec;
use aes67_matrix::ptp_monitor::{
    clock_identity, correction_field, message_type, parse_announce, ptp_timestamp_ns, sequence_id,
    timestamp_ms, timestamp_ns, two_step, valid_ptpv2, EventOutcome, PendingSync, PendingSyncs,
    PtpState,
};
use aes67_matrix::rtp_monitor::{plan_monitor, rtp_header_fields, RtpCounters};

fn announce_packet() -> Vec<u8> {
    let mut p = vec![0u8; 64];
    p[0] = 0x0b;
    p[1] = 0x02;
    p[4] = 3;
    p[44] = 0;
    p[45] = 37;
    p[47] = 128;
    p[48] = 6;
    p[49] = 0x21;
    p[50] = 0x4e;
    p[51] = 0x5d;
    p[52] = 127;
    p[53..61].copy_from_slice(&[0x00, 0x1d, 0xc1, 0xff, 0xfe, 0x12, 0x34, 0x56]);
    p[61] = 0;
    p[62] = 1;
    p[63] = 0x20;
    p
}

#[test]
fn ptp_header_fields() {
    let mut p = vec![0u8; 44];
    assert!(!valid_ptpv2(&p));
    p[1] = 0x12;
    assert!(valid_ptpv2(&p));
    assert!(!valid_ptpv2(&p[..33]));
    p[0] = 0x18;
    assert_eq!(message_type(&p), 8);
    p[30] = 0x01;
    p[31] = 0x02;
    assert_eq!(sequence_id(&p), 0x0102);
    p[6] = 0x02;
    assert!(two_step(&p));
    p[6] = 0x04;
    assert!(!two_step(&p));
    p[8..16].copy_from_slice(&[0xff; 8]);
    assert_eq!(correction_field(&p), -1);
    p[8..16].copy_from_slice(&[0, 0, 0, 0, 0, 1, 0, 0]);
    assert_eq!(correction_field(&p), 65536);
    p[34..44].copy_from_slice(&[0, 0, 0, 0, 0, 2, 0, 0, 0, 7]);
    assert_eq!(ptp_timestamp_ns(&p, 34), Some(2_000_000_007));
    assert_eq!(ptp_timestamp_ns(&p, 35), None);
}

#[test]
fn ptp_announce_and_identity() {
    assert_eq!(clock_identity(&[0x00, 0x1d, 0xc1]), "00:1D:C1");
    assert_eq!(clock_identity(&[]), "");
    let a = parse_announce(&announce_packet()).unwrap();
    assert_eq!(a.domain, 3);
    assert_eq!(a.utc_offset, 37);
    assert_eq!((a.priority1, a.clock_class, a.clock_accuracy), (128, 6, 0x21));
    assert_eq!(a.clock_variance, 0x4e5d);
    assert_eq!(a.priority2, 127);
    assert_eq!(a.grandmaster_identity, "00:1D:C1:FF:FE:12:34:56");
    assert_eq!(a.steps_removed, 1);
    assert_eq!(a.time_source, 0x20);
    let mut neg = announce_packet();
    neg[44] = 0xff;
    neg[45] = 0xfe;
    assert_eq!(parse_announce(&neg).unwrap().utc_offset, -2);
    assert!(parse_announce(&announce_packet()[..63]).is_none());
    let mut sync = announce_packet();
    sync[0] = 0x00;
    assert!(parse_announce(&sync).is_none());
}

#[test]
fn ptp_state_and_health() {
    let mut state = PtpState::started("192.168.1.2".to_string());
    assert!(state.monitoring("192.168.1.2"));
    assert!(!state.monitoring("10.0.0.1"));
    assert_eq!(state.message, "In attesa di messaggi PTPv2");
    state.record_sync(0, 10_000);
    assert_eq!((state.sync_packets, state.last_sync_ms), (1, 10_000));
    assert_eq!(state.message, "PTPv2 Sync ricevuto");
    assert!(!state.healthy(10_500));
    state.record_announce(parse_announce(&announce_packet()).unwrap(), 10_200);
    assert_eq!(state.utc_offset, Some(37));
    assert_eq!(state.message, "PTPv2 Grandmaster rilevato");
    assert!(state.healthy(12_999));
    assert!(!state.healthy(13_000));
    assert!(state.healthy(5));
    state.stop();
    assert!(!state.running);
    assert_eq!(state.message, "Monitor PTP arrestato");
    assert!(!state.healthy(10_500));
    assert!(!PtpState::new().healthy(0));
}

#[test]
fn ptp_pending_syncs() {
    let mut pending = PendingSyncs::new();
    pending.remember(7, PendingSync { arrival_ns: 5, correction: -3 });
    assert!(pending.take(8).is_none());
    let s = pending.take(7).unwrap();
    assert_eq!((s.arrival_ns, s.correction), (5, -3));
    assert!(pending.take(7).is_none());
}

#[test]
fn clock_conversions() {
    assert_eq!(millis_of(1, 999_999_999), 1999);
    assert_eq!(nanos_of(2, 5), 2_000_000_005);
    assert_eq!(millis_of(u64::MAX, 0), u64::MAX.wrapping_mul(1000));
    assert!(timestamp_ms() > 1_600_000_000_000);
    assert!(timestamp_ns() > 1_600_000_000_000_000_000);
}

#[test]
fn rtp_sequence_accounting() {
    let mut header = vec![0x80u8, 96, 0x12, 0x34, 0, 0, 1, 0];
    assert!(rtp_header_fields(&header).is_none());
    header.extend_from_slice(&[0, 0, 0, 0]);
    assert_eq!(rtp_header_fields(&header), Some((0x1234, 256)));

    let mut c = RtpCounters::new("s1".to_string());
    assert!(c.running && !c.online);
    c.record_packet(10, 100, 1000);
    c.record_packet(11, 100, 1001);
    c.record_packet(11, 100, 1002);
    assert_eq!(c.duplicates, 1);
    c.record_packet(15, 100, 1003);
    assert_eq!(c.estimated_lost, 3);
    assert_eq!(c.last_sequence, Some(15));
    c.record_packet(14, 100, 1004);
    assert_eq!(c.out_of_order, 1);
    assert_eq!(c.last_sequence, Some(15));
    assert_eq!((c.packets, c.bytes, c.last_packet_at), (5, 500, 1004));
    let mut w = RtpCounters::new("s2".to_string());
    w.record_packet(65535, 10, 0);
    w.record_packet(0, 10, 0);
    assert_eq!((w.estimated_lost, w.out_of_order, w.last_sequence), (0, 0, Some(0)));
    assert!(c.online);
    assert!(!c.check_timeout(4004));
    assert!(c.online);
    assert!(c.check_timeout(4005));
    assert!(!c.online);
    c.finish();
    assert!(!c.running);
}

#[test]
fn audio_requests_and_buffer() {
    assert_eq!(check_monitor_request("l16", 2, 0, 1), Ok(Codec::L16));
    assert_eq!(
        check_monitor_request("AAC", 2, 0, 1),
        Err("Ascolto disponibile soltanto per PCM L16/L24".to_string())
    );
    assert_eq!(check_monitor_request("L24", 0, 0, 0), Err("Selezione canali non valida".to_string()));
    assert_eq!(check_monitor_request("L24", 2, 0, 2), Err("Selezione canali non valida".to_string()));
    assert_eq!(
        parse_monitor_addresses("239.1.1.1", "192.168.1.2"),
        Ok((Ipv4Address(239, 1, 1, 1), Ipv4Address(192, 168, 1, 2)))
    );
    assert_eq!(parse_monitor_addresses("239.1.1", "x"), Err("Multicast non valido".to_string()));
    assert_eq!(parse_monitor_addresses("239.1.1.1", "x"), Err("Interfaccia non valida".to_string()));
    assert_eq!(max_buffered_samples(48000), 192000);
    assert_eq!(samples_to_drop(7, 4), 4);
    assert_eq!(samples_to_drop(5, 0), 5);
    assert_eq!(samples_to_drop(4, 4), 0);
    let payload = [0, 1, 0, 2, 0, 3, 0, 4];
    assert_eq!(stereo_samples(Codec::L16, &payload, 2, 1, 1), vec![2, 2, 4, 4]);
}

#[test]
fn audio_status_transitions() {
    let mut s = AudioStatus::started("id".to_string(), "Speakers".to_string());
    assert!(s.running);
    s.record_playback(9, 2);
    s.record_playback(4, 1);
    assert_eq!((s.buffered_frames, s.underruns), (2, 3));
    s.stop();
    assert!(!s.running);
    assert_eq!(s.buffered_frames, 0);
    s.fail("device lost".to_string());
    assert_eq!(s.error, "device lost");
    assert!(!AudioStatus::new().running);
}

fn sync_packet(two_step: bool, sequence: u16) -> Vec<u8> {
    let mut p = vec![0u8; 44];
    p[0] = 0x00;
    p[1] = 0x02;
    p[4] = 5;
    if two_step {
        p[6] = 0x02;
    }
    p[15] = 0x10;
    p[30] = (sequence >> 8) as u8;
    p[31] = sequence as u8;
    p[39] = 2;
    p[43] = 9;
    p
}

#[test]
fn ptp_event_messages() {
    let mut state = PtpState::started("10.0.0.2".to_string());
    let mut pending = PendingSyncs::new();

    let mut not_sync = sync_packet(false, 1);
    not_sync[0] = 0x01;
    assert!(matches!(state.handle_event_message(&mut pending, &not_sync, 100, 1), EventOutcome::Ignored));
    assert!(matches!(state.handle_event_message(&mut pending, &not_sync[..20], 100, 1), EventOutcome::Ignored));
    assert_eq!(state.sync_packets, 0);

    match state.handle_event_message(&mut pending, &sync_packet(false, 1), 100, 7) {
        EventOutcome::Sync(None) => {}
        _ => panic!("a one-step Sync without a known UTC offset gives no sample"),
    }
    assert_eq!((state.sync_packets, state.domain, state.last_sync_ms), (1, 5, 7));

    state.record_announce(parse_announce(&announce_packet()).unwrap(), 8);
    match state.handle_event_message(&mut pending, &sync_packet(false, 2), 100, 9) {
        EventOutcome::Sync(Some(s)) => {
            assert_eq!((s.arrival_ns, s.origin_ns, s.utc_offset), (100, 2_000_000_009, 37));
            assert_eq!((s.sync_correction, s.follow_up_correction), (16, 0));
        }
        _ => panic!("a one-step Sync gives its sample"),
    }

    match state.handle_event_message(&mut pending, &sync_packet(true, 3), 500, 10) {
        EventOutcome::Sync(None) => {}
        _ => panic!("a two-step Sync waits for its Follow_Up"),
    }
    assert_eq!(state.sync_packets, 3);

    let mut follow_up = sync_packet(false, 3);
    follow_up[0] = 0x08;
    follow_up[15] = 0x20;
    let sample = state.handle_general_message(&mut pending, &follow_up, 11).unwrap();
    assert_eq!((sample.arrival_ns, sample.origin_ns), (500, 2_000_000_009));
    assert_eq!((sample.sync_correction, sample.follow_up_correction), (16, 32));
    assert!(state.handle_general_message(&mut pending, &follow_up, 12).is_none());
    assert_eq!(state.sync_packets, 3);
}

#[test]
fn ptp_general_messages() {
    let mut state = PtpState::started("10.0.0.2".to_string());
    let mut pending = PendingSyncs::new();
    assert!(state.handle_general_message(&mut pending, &announce_packet(), 42).is_none());
    assert_eq!(state.utc_offset, Some(37));
    assert_eq!(state.grandmaster_identity, "00:1D:C1:FF:FE:12:34:56");
    assert_eq!((state.announce_packets, state.last_announce_ms, state.domain), (1, 42, 3));
    let short = &announce_packet()[..60];
    assert!(state.handle_general_message(&mut pending, short, 50).is_none());
    assert_eq!(state.announce_packets, 1);
}

#[test]
fn rtp_counters_near_their_limits() {
    let mut c = RtpCounters::new("s".to_string());
    c.record_packet(1, 10, 0);
    c.estimated_lost = u64::MAX - 2;
    c.record_packet(4, 10, 1);
    assert_eq!(c.estimated_lost, u64::MAX);
    c.record_packet(4, 10, 2);
    c.record_packet(3, 10, 3);
    assert_eq!((c.duplicates, c.out_of_order), (1, 1));
}

#[test]
fn output_configs() {
    let ranges = [(8000, 16000), (44100, 48000), (8000, 192000)];
    assert_eq!(choose_config(&ranges, 48000), Some(1));
    assert_eq!(choose_config(&ranges, 96000), Some(2));
    assert_eq!(choose_config(&ranges, 12000), Some(0));
    assert_eq!(choose_config(&ranges, 200000), None);
    assert_eq!(choose_config(&[], 48000), None);
}

#[test]
fn rtp_monitor_requests() {
    assert_eq!(plan_monitor("239.1.2.3", "10.0.0.2", false), Ok(Some((Ipv4Address(239, 1, 2, 3), Ipv4Address(10, 0, 0, 2)))));
    assert_eq!(plan_monitor("239.1.2.3", "10.0.0.2", true), Ok(None));
    assert_eq!(plan_monitor("10.1.2.3", "10.0.0.2", true), Ok(None));
    assert_eq!(plan_monitor("10.1.2.3", "10.0.0.2", false), Err("10.1.2.3 non \u{e8} un indirizzo multicast".to_string()));
    assert_eq!(plan_monitor("239.1.2", "10.0.0.2", true), Err("Indirizzo multicast non valido".to_string()));
    assert_eq!(plan_monitor("239.1.2.3", "x", false), Err("Interfaccia IPv4 non valida".to_string()));
}

#[test]
fn status_updates_keep_what_they_do_not_touch() {
    let mut a = AudioStatus::started("s1".to_string(), "Speakers".to_string());
    a.record_playback(10, 2);
    a.fail("boom".to_string());
    a.stop();
    assert_eq!((a.stream_id.as_str(), a.device_name.as_str()), ("s1", "Speakers"));
    assert_eq!((a.underruns, a.buffered_frames, a.error.as_str()), (2, 0, "boom"));

    let mut p = PtpState::started("10.0.0.2".to_string());
    p.record_announce(parse_announce(&announce_packet()).unwrap(), 5);
    p.record_error("down".to_string());
    assert_eq!(p.message, "down");
    p.stop();
    assert_eq!(p.interface_ip, "10.0.0.2");
    assert_eq!((p.domain, p.priority1, p.last_announce_ms, p.utc_offset), (3, 128, 5, Some(37)));
    assert_eq!(p.grandmaster_identity, "00:1D:C1:FF:FE:12:34:56");
}

#[test]
fn timeouts_keep_the_counters() {
    let mut c = RtpCounters::new("s9".to_string());
    c.record_packet(1, 100, 0);
    c.record_packet(4, 100, 1);
    c.record_packet(4, 100, 2);
    assert!(c.check_timeout(10_000));
    assert_eq!((c.packets, c.bytes, c.estimated_lost, c.duplicates), (3, 300, 2, 1));
    assert_eq!(c.stream_id, "s9");
    c.finish();
    assert_eq!((c.stream_id.as_str(), c.bytes), ("s9", 300));
}

#[test]
fn ptp_state_starts_empty() {
    for s in [PtpState::new(), PtpState::started("10.0.0.2".to_string())] {
        assert_eq!((s.domain, s.priority1, s.priority2, s.clock_class, s.clock_accuracy), (0, 0, 0, 0, 0));
        assert_eq!((s.clock_variance, s.steps_removed, s.time_source), (0, 0, 0));
        assert_eq!(s.grandmaster_identity, "");
        assert_eq!(s.utc_offset, None);
    }
}
