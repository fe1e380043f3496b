use aes67_matrix::net::Ipv4Address;
use aes67_matrix::pcm::Codec;
use aes67_matrix::recorder::{
    check_recording_request, parse_recording_addresses, recording_samples, rtp_payload,
    sanitize_filename, segment_file_name, segment_path, unix_timestamp, RecorderProgress,
};

#[test]
fn base_names() {
    assert_eq!(sanitize_filename("Studio A/B"), "Studio_A_B");
    assert_eq!(sanitize_filename("__rec-1__"), "rec-1");
    assert_eq!(sanitize_filename("***"), "AES67_recording");
    assert_eq!(sanitize_filename(""), "AES67_recording");
    assert_eq!(sanitize_filename("café"), "caf");
    for v in ["Studio A/B", "***", " a b ", "x__y"] {
        let once = sanitize_filename(v);
        assert_eq!(sanitize_filename(&once), once);
    }
}

#[test]
fn segment_names_and_paths() {
    assert_eq!(segment_file_name("rec", 1700000000, 7), "rec_1700000000_part007.wav");
    assert_eq!(segment_file_name("rec", 0, 1234), "rec_0_part1234.wav");
    let path = segment_path("/tmp/recordings", "rec", 5, 2);
    assert!(path.starts_with("/tmp/recordings"));
    assert!(path.ends_with("rec_5_part002.wav"));
    assert!(unix_timestamp() > 1_600_000_000);
}

#[test]
fn recording_requests() {
    assert_eq!(check_recording_request("l24", 8, &[0, 1]), Ok(Codec::L24));
    assert_eq!(
        check_recording_request("mp3", 8, &[0]),
        Err("Registrazione disponibile soltanto per L16/L24".to_string())
    );
    assert_eq!(check_recording_request("L16", 8, &[]), Err("Seleziona almeno un canale".to_string()));
    assert_eq!(check_recording_request("L16", 8, &[8]), Err("Selezione canali non valida".to_string()));
    assert_eq!(
        parse_recording_addresses("239.1.1.1", "10.0.0.2"),
        Ok((Ipv4Address(239, 1, 1, 1), Ipv4Address(10, 0, 0, 2)))
    );
    assert_eq!(
        parse_recording_addresses("nope", "10.0.0.2"),
        Err("Indirizzo multicast non valido".to_string())
    );
    assert_eq!(
        parse_recording_addresses("239.1.1.1", "10.0.0"),
        Err("Interfaccia non valida".to_string())
    );
}

#[test]
fn recording_samples_and_segments() {
    let payload = [0, 0, 1, 0, 0, 2, 0, 0, 3, 0, 0, 4, 7];
    let (samples, frames) = recording_samples(Codec::L24, &payload, 2, &[1]);
    assert_eq!(samples, vec![2, 4]);
    assert_eq!(frames, 2);
    let mut packet = vec![0x80u8, 96, 0, 1, 0, 0, 0, 1, 0, 0, 0, 1];
    packet.extend_from_slice(&payload);
    assert_eq!(rtp_payload(&packet), Some(&payload[..]));

    let mut p = RecorderProgress::new(Codec::L16, 100, 1, 2);
    assert_eq!(p.segment_limit, 6000);
    assert!(!p.add_frames(5999));
    assert!(p.add_frames(1));
    assert_eq!((p.segment, p.segment_frames, p.total_frames), (2, 0, 6000));
    assert_eq!(p.bytes_written(), 6000 * 2 * 2);
    let mut q = RecorderProgress::new(Codec::L24, 48000, 0, 1);
    assert!(!q.add_frames(1_000_000_000));
    assert_eq!(q.segment, 1);
    assert_eq!(q.bytes_written(), 3_000_000_000);
}

#[test]
fn segment_counter_limit_only_matters_on_rotation() {
    let mut p = RecorderProgress::new(Codec::L16, 1, 1, 1);
    p.segment = u32::MAX;
    assert!(!p.add_frames(59));
    assert_eq!(p.segment, u32::MAX);
}

#[test]
fn segment_path_inside_its_folder() {
    let path = segment_path("/rec", "take", 1700000000, 1);
    let expected = std::path::Path::new("/rec").join("take_1700000000_part001.wav");
    assert_eq!(path, expected.to_string_lossy());
    assert_eq!(path, "/rec/take_1700000000_part001.wav");
    assert_eq!(segment_path("/rec/", "take", 1, 1), "/rec/take_1_part001.wav");
    assert_eq!(segment_path("", "take", 1, 1), "take_1_part001.wav");
    assert_eq!(segment_path("rec", "take", 1, 12), "rec/take_1_part012.wav");
}
