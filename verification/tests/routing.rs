use aes67_matrix::discovery::parse_sdp_at;
use aes67_matrix::net::{ipv4_to_string, is_loopback, is_multicast, parse_ipv4, Ipv4Address};
use aes67_matrix::pcm::{encode_samples, parse_codec, read_sample, select_samples, Codec};
use aes67_matrix::routing::{
    build_sap, build_sdp, check_route_request, create_rtp_packet, destination_text, route_hash,
    route_id, route_ssrc, rtp_payload, sap_due, sap_message_hash, RouteTraffic,
};
use std::collections::hash_map::DefaultHasher;
use std::hash::{Hash, Hasher};

fn text_hash(value: &str) -> u64 {
    let mut hasher = DefaultHasher::new();
    value.hash(&mut hasher);
    hasher.finish()
}

#[test]
fn rtp_packet_layout_and_read_back() {
    let packet = create_rtp_packet(&[1, 2, 3], 0x1234, 0xdead_beef, 0x0102_0304);
    assert_eq!(
        packet,
        vec![0x80, 96, 0x12, 0x34, 0xde, 0xad, 0xbe, 0xef, 1, 2, 3, 4, 1, 2, 3]
    );
    let (ts, payload) = rtp_payload(&packet).unwrap();
    assert_eq!(ts, 0xdead_beef);
    assert_eq!(payload, &[1, 2, 3]);
}

#[test]
fn rtp_payload_header_variants() {
    let mut base = vec![0x80u8, 96, 0, 1, 0, 0, 0, 9, 0, 0, 0, 1];
    assert!(rtp_payload(&base[..11]).is_none());
    // Version 1 is refused.
    let mut v1 = base.clone();
    v1[0] = 0x40;
    assert!(rtp_payload(&v1).is_none());
    // Two CSRC identifiers.
    let mut csrc = base.clone();
    csrc[0] = 0x82;
    csrc.extend_from_slice(&[0; 8]);
    csrc.extend_from_slice(&[7, 7]);
    assert_eq!(rtp_payload(&csrc).unwrap().1, &[7, 7]);
    // A header extension of one word.
    let mut ext = base.clone();
    ext[0] = 0x90;
    ext.extend_from_slice(&[0xbe, 0xde, 0, 1, 9, 9, 9, 9, 5]);
    assert_eq!(rtp_payload(&ext).unwrap().1, &[5]);
    // An extension that runs past the end.
    let mut short_ext = base.clone();
    short_ext[0] = 0x90;
    short_ext.extend_from_slice(&[0xbe, 0xde]);
    assert!(rtp_payload(&short_ext).is_none());
    // Padding of two bytes.
    let mut pad = base.clone();
    pad[0] = 0xa0;
    pad.extend_from_slice(&[4, 4, 0, 2]);
    assert_eq!(rtp_payload(&pad).unwrap().1, &[4, 4]);
    // Padding longer than the packet.
    let mut bad = base.clone();
    bad[0] = 0xa0;
    bad[11] = 200;
    assert!(rtp_payload(&bad).is_none());
    base.push(42);
    assert_eq!(rtp_payload(&base).unwrap(), (9, &[42u8][..]));
}

#[test]
fn sdp_text_of_a_route() {
    let sdp = build_sdp(
        "Bus 1",
        Ipv4Address(192, 168, 1, 10),
        Ipv4Address(239, 1, 2, 3),
        5004,
        "L24",
        48000,
        2,
        1700000000123,
    );
    assert_eq!(
        sdp,
        "v=0\r\no=- 1700000000123 1700000000123 IN IP4 192.168.1.10\r\ns=Bus 1\r\nc=IN IP4 239.1.2.3/32\r\nt=0 0\r\nm=audio 5004 RTP/AVP 96\r\na=rtpmap:96 L24/48000/2\r\na=ptime:1\r\n"
    );
    let st = parse_sdp_at(&sdp, "x", 0).unwrap();
    assert_eq!(st.name, "Bus 1");
    assert_eq!(st.address, "239.1.2.3");
    assert_eq!(st.port, 5004);
    assert_eq!((st.codec.as_str(), st.sample_rate, st.channels), ("L24", 48000, 2));
}

#[test]
fn sap_packet_layout() {
    let packet = build_sap("v=0", Ipv4Address(10, 1, 2, 3), 0xbeef, false);
    let mut expected = vec![0x20, 0, 0xbe, 0xef, 10, 1, 2, 3];
    expected.extend_from_slice(b"application/sdp\0v=0");
    assert_eq!(packet, expected);
    assert_eq!(build_sap("v=0", Ipv4Address(10, 1, 2, 3), 0xbeef, true)[0], 0x24);
}

#[test]
fn route_hashes_follow_the_default_hasher() {
    assert_eq!(route_hash("route-1-1"), text_hash("route-1-1"));
    assert_eq!(route_ssrc("route-1-1"), text_hash("route-1-1") as u32);
    assert_eq!(sap_message_hash("v=0"), (text_hash("v=0") & 0xffff) as u16);
}

#[test]
fn route_request_checks() {
    let ok = check_route_request("l16", 8, &[0, 7], "239.1.1.1", "239.2.2.2", "192.168.1.2").unwrap();
    assert_eq!(ok.codec, Codec::L16);
    assert_eq!(ok.destination, Ipv4Address(239, 2, 2, 2));
    let err = |r: Result<_, String>| r.err().unwrap();
    assert_eq!(
        err(check_route_request("AM824", 8, &[0], "239.1.1.1", "239.2.2.2", "1.2.3.4")),
        "Routing disponibile solamente per L16/L24"
    );
    assert_eq!(
        err(check_route_request("L24", 8, &[], "239.1.1.1", "239.2.2.2", "1.2.3.4")),
        "Selezione canali non valida"
    );
    assert_eq!(
        err(check_route_request("L24", 8, &[8], "239.1.1.1", "239.2.2.2", "1.2.3.4")),
        "Selezione canali non valida"
    );
    assert_eq!(
        err(check_route_request("L24", 8, &[1], "239.1.1", "239.2.2.2", "1.2.3.4")),
        "Multicast sorgente non valido"
    );
    assert_eq!(
        err(check_route_request("L24", 8, &[1], "239.1.1.1", "x", "1.2.3.4")),
        "Multicast destinazione non valido"
    );
    assert_eq!(
        err(check_route_request("L24", 8, &[1], "239.1.1.1", "239.2.2.2", "1.2.3.400")),
        "Interfaccia non valida"
    );
    assert_eq!(
        err(check_route_request("L24", 8, &[1], "239.1.1.1", "10.2.2.2", "1.2.3.4")),
        "La destinazione deve essere multicast"
    );
}

#[test]
fn route_texts_and_traffic() {
    assert_eq!(route_id(1700000000000, 3), "route-1700000000000-3");
    assert_eq!(destination_text(Ipv4Address(239, 0, 0, 9), 5004), "239.0.0.9:5004");
    let mut traffic = RouteTraffic::new();
    traffic.record_sent(100);
    traffic.record_sent(60);
    assert_eq!((traffic.packets_sent, traffic.bytes_sent), (2, 160));
}

#[test]
fn ipv4_text_both_ways() {
    assert_eq!(parse_ipv4("192.168.0.1"), Some(Ipv4Address(192, 168, 0, 1)));
    assert_eq!(parse_ipv4("0.0.0.0"), Some(Ipv4Address(0, 0, 0, 0)));
    assert_eq!(parse_ipv4("01.2.3.4"), None);
    assert_eq!(parse_ipv4("256.1.1.1"), None);
    assert_eq!(parse_ipv4("1.2.3"), None);
    assert_eq!(parse_ipv4("1.2.3.4.5"), None);
    assert_eq!(parse_ipv4("1.2.3.4 "), None);
    assert_eq!(parse_ipv4("+1.2.3.4"), None);
    assert_eq!(parse_ipv4(""), None);
    let cases = [
        (Ipv4Address(0, 0, 0, 0), "0.0.0.0"),
        (Ipv4Address(255, 10, 7, 100), "255.10.7.100"),
        (Ipv4Address(239, 69, 1, 2), "239.69.1.2"),
    ];
    for (a, expected) in cases {
        let text = ipv4_to_string(a);
        assert_eq!(text, expected);
        assert_eq!(parse_ipv4(&text), Some(a));
    }
    assert!(is_multicast(Ipv4Address(224, 0, 0, 1)));
    assert!(is_multicast(Ipv4Address(239, 255, 255, 255)));
    assert!(!is_multicast(Ipv4Address(240, 0, 0, 1)));
    assert!(is_loopback(Ipv4Address(127, 5, 0, 1)));
    assert!(!is_loopback(Ipv4Address(128, 0, 0, 1)));
}

#[test]
fn pcm_codecs_and_samples() {
    assert_eq!(parse_codec("l24"), Some(Codec::L24));
    assert_eq!(parse_codec("L16"), Some(Codec::L16));
    assert_eq!(parse_codec("L20"), None);
    assert_eq!(parse_codec("L16 "), None);
    assert_eq!(read_sample(Codec::L16, &[0xff, 0xfe], 0), -2);
    assert_eq!(read_sample(Codec::L16, &[0x7f, 0xff], 0), 32767);
    assert_eq!(read_sample(Codec::L24, &[0, 0x80, 0, 0], 1), -8_388_608);
    assert_eq!(read_sample(Codec::L24, &[0x01, 0x02, 0x03], 0), 0x010203);
}

#[test]
fn pcm_channel_selection() {
    // Two frames of three L16 channels, then a partial frame.
    let payload = [0, 1, 0, 2, 0, 3, 0, 4, 0, 5, 0, 6, 9];
    assert_eq!(select_samples(Codec::L16, &payload, 3, &[2, 0]), vec![3, 1, 6, 4]);
    assert_eq!(select_samples(Codec::L16, &payload, 0, &[]), Vec::<i32>::new());
    let l24 = [0xff, 0xff, 0xff, 0, 0, 1];
    assert_eq!(select_samples(Codec::L24, &l24, 2, &[1, 0, 1]), vec![1, -1, 1]);
}

#[test]
fn pcm_samples_write_back() {
    let values = [-32768, -1, 0, 1, 32767];
    let bytes = encode_samples(Codec::L16, &values);
    assert_eq!(bytes, vec![0x80, 0, 0xff, 0xff, 0, 0, 0, 1, 0x7f, 0xff]);
    let back: Vec<i32> = (0..5).map(|i| read_sample(Codec::L16, &bytes, i * 2)).collect();
    assert_eq!(back, values.to_vec());
    let values = [-8_388_608, -2, 8_388_607];
    let bytes = encode_samples(Codec::L24, &values);
    assert_eq!(bytes, vec![0x80, 0, 0, 0xff, 0xff, 0xfe, 0x7f, 0xff, 0xff]);
    let back: Vec<i32> = (0..3).map(|i| read_sample(Codec::L24, &bytes, i * 3)).collect();
    assert_eq!(back, values.to_vec());
}

#[test]
fn sap_announcements_every_five_seconds() {
    assert!(!sap_due(0));
    assert!(!sap_due(4999));
    assert!(sap_due(5000));
    assert!(sap_due(u64::MAX));
}
