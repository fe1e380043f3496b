use aes67_matrix::discovery::{
    extract_sap_sdp, parse_sdp, parse_sdp_at, read_session, select_interfaces, stream_from_fields,
    stream_id, timestamp, DiscoveryStatus, StreamStore,
};
use aes67_matrix::net::Ipv4Address;
use aes67_matrix::routing::build_sap;
use std::collections::hash_map::DefaultHasher;
use std::hash::{Hash, Hasher};

fn expected_id(name: &str, address: &str, port: u16) -> String {
    let mut hasher = DefaultHasher::new();
    (name, address, port).hash(&mut hasher);
    format!("{:x}", hasher.finish())
}

const STUDIO: &str = "v=0\r\no=- 1 1 IN IP4 192.168.1.10\r\ns=Studio A\r\nc=IN IP4 239.69.1.2/32\r\nt=0 0\r\nm=audio 5004 RTP/AVP 97\r\na=rtpmap:97 L24/48000/8\r\n";

#[test]
fn parse_sdp_reads_session_fields() {
    let st = parse_sdp_at(STUDIO, "SDP manuale", 1234).unwrap();
    assert_eq!(st.name, "Studio A");
    assert_eq!(st.address, "239.69.1.2");
    assert_eq!(st.port, 5004);
    assert_eq!(st.codec, "L24");
    assert_eq!(st.sample_rate, 48000);
    assert_eq!(st.channels, 8);
    assert_eq!(st.source, "SDP manuale");
    assert_eq!(st.last_seen, 1234);
    assert_eq!(st.id, expected_id("Studio A", "239.69.1.2", 5004));
}

#[test]
fn parse_sdp_defaults_and_errors() {
    let err = parse_sdp_at("v=0\r\nm=audio 5004 RTP/AVP 96\r\n", "x", 0).err().unwrap();
    assert_eq!(err, "SDP privo di multicast o porta audio validi");
    let err = parse_sdp_at("c=IN IP4 239.1.1.1\nm=audio abc RTP/AVP 96\n", "x", 0).err().unwrap();
    assert_eq!(err, "SDP privo di multicast o porta audio validi");
    let err = parse_sdp_at("c=IN IP4 239.1.1.1\nm=audio 0 RTP/AVP 96\n", "x", 0).err().unwrap();
    assert_eq!(err, "SDP privo di multicast o porta audio validi");
    let st = parse_sdp_at("s=\nc=IN IP4 239.1.1.1/32/2\nm=audio 5004 RTP/AVP 96\n", "x", 0).unwrap();
    assert_eq!(st.name, "Flusso AES67");
    assert_eq!(st.address, "239.1.1.1");
    assert_eq!(st.codec, "L24");
    assert_eq!(st.sample_rate, 48000);
    assert_eq!(st.channels, 2);
}

#[test]
fn parse_sdp_rtpmap_rules() {
    // An rtpmap for another payload type is ignored.
    let st = parse_sdp_at(
        "c=IN IP4 239.1.1.1\nm=audio 5004 RTP/AVP 97\na=rtpmap:96 L16/44100/4\n",
        "x",
        0,
    )
    .unwrap();
    assert_eq!((st.codec.as_str(), st.sample_rate, st.channels), ("L24", 48000, 2));
    // Before any m= line every rtpmap counts.
    let st = parse_sdp_at(
        "a=rtpmap:96 L16/44100/4\nc=IN IP4 239.1.1.1\nm=audio 5004 RTP/AVP 97\n",
        "x",
        0,
    )
    .unwrap();
    assert_eq!((st.codec.as_str(), st.sample_rate, st.channels), ("L16", 44100, 4));
    // Unreadable numbers fall back to their defaults; `+` is accepted.
    let st = parse_sdp_at(
        "c=IN IP4 239.1.1.1\nm=audio +5004 RTP/AVP 96\na=rtpmap:96 L16/abc/70000\n",
        "x",
        0,
    )
    .unwrap();
    assert_eq!(st.port, 5004);
    assert_eq!((st.codec.as_str(), st.sample_rate, st.channels), ("L16", 48000, 2));
    // Surrounding whitespace of a line goes.
    let st = parse_sdp_at("  s=Name  \n\tc=IN IP4 239.1.1.1 \nm=audio 6000\n", "x", 0).unwrap();
    assert_eq!(st.name, "Name");
    assert_eq!(st.address, "239.1.1.1");
    assert_eq!(st.port, 6000);
}

#[test]
fn parse_sdp_stamps_the_current_time() {
    let before = timestamp();
    let st = parse_sdp(STUDIO, "SDP manuale").unwrap();
    assert!(st.last_seen >= before && st.last_seen > 1_600_000_000);
}

#[test]
fn stream_id_is_hex_of_the_key_hash() {
    assert_eq!(stream_id("a", "b", 1), expected_id("a", "b", 1));
    assert_ne!(stream_id("a", "b", 1), stream_id("a", "b", 2));
}

#[test]
fn sap_announcement_reads_back() {
    let iface = Ipv4Address(192, 168, 1, 10);
    let packet = build_sap(STUDIO, iface, 0xabcd, false);
    assert_eq!(extract_sap_sdp(&packet), Some(STUDIO));
    let deletion = build_sap("v=0\r\ns=Ü\r\n", iface, 1, true);
    assert_eq!(deletion[0], 0x24);
    assert_eq!(extract_sap_sdp(&deletion), Some("v=0\r\ns=Ü\r\n"));
}

#[test]
fn sap_extraction_edge_cases() {
    assert_eq!(extract_sap_sdp(&[0x20, 0, 0, 0, 1, 2, 3]), None);
    // SDP right after the header, without a payload type.
    let mut p = vec![0x20, 0, 0, 1, 10, 0, 0, 1];
    p.extend_from_slice(b"v=0\r\n");
    assert_eq!(extract_sap_sdp(&p), Some("v=0\r\n"));
    // Authentication data that runs past the end.
    assert_eq!(extract_sap_sdp(&[0x20, 5, 0, 1, 10, 0, 0, 1]), None);
    // Payload type without its terminating zero.
    let mut q = vec![0x20, 0, 0, 1, 10, 0, 0, 1];
    q.extend_from_slice(b"application/sdp");
    assert_eq!(extract_sap_sdp(&q), None);
    // Invalid UTF-8.
    let mut r = vec![0x20, 0, 0, 1, 10, 0, 0, 1, 0];
    r.extend_from_slice(&[0xff, 0xfe]);
    assert_eq!(extract_sap_sdp(&r), None);
    // IPv6 origin: 16 source bytes.
    let mut v6 = vec![0x30, 0, 0, 1];
    v6.extend_from_slice(&[0u8; 16]);
    v6.extend_from_slice(b"v=0");
    assert_eq!(extract_sap_sdp(&v6), Some("v=0"));
}

#[test]
fn store_insert_replace_get_clear() {
    let mut store = StreamStore::new();
    let a = parse_sdp_at(STUDIO, "one", 1).unwrap();
    let id = a.id.clone();
    store.insert(a);
    assert_eq!(store.len(), 1);
    let b = parse_sdp_at(STUDIO, "two", 2).unwrap();
    store.insert(b);
    assert_eq!(store.len(), 1);
    let got = store.get(&id).unwrap();
    assert_eq!(got.source, "two");
    assert_eq!(got.last_seen, 2);
    assert!(store.get("missing").is_none());
    store.clear();
    assert_eq!(store.len(), 0);
}

#[test]
fn store_lists_by_name() {
    let mut store = StreamStore::new();
    for name in ["Zeta", "Alpha", "Mu", "Alpha2"] {
        let sdp = format!("s={name}\nc=IN IP4 239.1.1.1\nm=audio 5004 RTP/AVP 96\n");
        store.insert(parse_sdp_at(&sdp, "x", 0).unwrap());
    }
    let names: Vec<String> = store.sorted_by_name().into_iter().map(|s| s.name).collect();
    assert_eq!(names, vec!["Alpha", "Alpha2", "Mu", "Zeta"]);
}

#[test]
fn store_import_and_sap_packets() {
    let mut store = StreamStore::new();
    let st = store.import_sdp(STUDIO).unwrap();
    assert_eq!(st.source, "SDP manuale");
    assert!(store.import_sdp("v=0\r\n").is_err());
    assert_eq!(store.len(), 1);
    let other = "s=Other\r\nc=IN IP4 239.2.2.2/32\r\nm=audio 5006 RTP/AVP 96\r\n";
    let packet = build_sap(other, Ipv4Address(10, 0, 0, 1), 7, false);
    let seen = store.handle_sap_packet(&packet, "10.0.0.1").unwrap();
    assert_eq!(seen.source, "SAP · 10.0.0.1");
    assert_eq!(seen.name, "Other");
    assert_eq!(store.len(), 2);
    assert!(store.handle_sap_packet(&[1, 2, 3], "10.0.0.1").is_none());
    assert_eq!(store.len(), 2);
}

#[test]
fn interfaces_skip_loopback_and_repeats() {
    let entries = vec![
        ("lo".to_string(), Ipv4Address(127, 0, 0, 1)),
        ("eth0".to_string(), Ipv4Address(192, 168, 1, 2)),
        ("eth0:1".to_string(), Ipv4Address(192, 168, 1, 2)),
        ("wlan0".to_string(), Ipv4Address(10, 0, 0, 5)),
    ];
    let list = select_interfaces(&entries);
    let pairs: Vec<(String, String)> = list.into_iter().map(|i| (i.name, i.ip)).collect();
    assert_eq!(
        pairs,
        vec![
            ("eth0".to_string(), "192.168.1.2".to_string()),
            ("wlan0".to_string(), "10.0.0.5".to_string())
        ]
    );
}

#[test]
fn discovery_status_transitions() {
    let mut status = DiscoveryStatus::new();
    assert!(!status.running);
    status.listening("192.168.1.2");
    assert!(status.running);
    assert_eq!(status.interface_ip, "192.168.1.2");
    assert_eq!(status.message, "SAP attivo su 192.168.1.2");
    status.failed("socket chiuso".to_string());
    assert!(!status.running);
    assert_eq!(status.message, "socket chiuso");
}

#[test]
fn stream_from_read_fields() {
    let f = read_session(STUDIO);
    assert_eq!(f.port, 5004);
    let st = stream_from_fields(f, "abc".to_string(), "SAP \u{b7} 10.0.0.1", 99);
    assert_eq!(st.id, "abc");
    assert_eq!(st.name, "Studio A");
    assert_eq!(st.address, "239.69.1.2");
    assert_eq!((st.port, st.sample_rate, st.channels), (5004, 48000, 8));
    assert_eq!(st.codec, "L24");
    assert_eq!(st.source, "SAP \u{b7} 10.0.0.1");
    assert_eq!(st.last_seen, 99);
}
