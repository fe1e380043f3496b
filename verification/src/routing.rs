//! Routing a received AES67 stream to a new multicast group: request
//! checks, the outgoing RTP packets, and the SDP/SAP announcement of the
//! new stream.
use vstd::prelude::*;
use vstd::utf8::{decode_utf8, encode_utf8, encode_utf8_decode_utf8, encode_utf8_valid_utf8, valid_utf8};
use crate::discovery::{
    SessionFields, apply_line, apply_lines, first_index_of, initial_fields, piece_or_empty,
    number_or, sap_sdp_start, sap_sdp_text, sdp_lines, sdp_version_line, session_complete,
    session_fields,
};
use crate::net::{
    Ipv4Address, ipv4_chars, ipv4_from_text, ipv4_text, is_multicast, lemma_ipv4_text_plain, multicast,
    parse_ipv4,
};
use crate::pcm::{Codec, codec_named, parse_codec};
use crate::rtp::{
    be16_bytes, build_rtp_packet, payload_of, payload_range, push_all, push_be16, route_header,
    rtp_timestamp, timestamp_of,
};
use crate::text::{
    Separator, append_chars, append_str, crlf_pieces, crlf_text, decimal, decimal_chars, free_of,
    from_chars, has_prefix, is_whitespace, lemma_crlf_split, lemma_decimal_parse,
    lemma_decimal_plain, lemma_filter_all_nonempty, lemma_split_append_piece, lemma_split_single,
    lemma_trim_line, lemma_free_concat, nonempty_piece, separates, split_by, to_chars, trim, words,
};

verus! {

/// The current time in whole milliseconds since the Unix epoch.
pub fn timestamp_ms() -> u64 {
    let (secs, nanos) = crate::clock::now_since_epoch();
    crate::clock::millis_of(secs, nanos)
}

/// The hash of a text as the standard library's `DefaultHasher` computes it.
pub uninterp spec fn text_hash(value: Seq<char>) -> u64;

/// Hashes a text with `std::collections::hash_map::DefaultHasher` created by
/// `new()`. The contract names the result: the same text gives the same
/// hash (`DefaultHasher::new` uses fixed keys, no per-process seed). What
/// the hash is on a given text is left unsaid: the standard library does not
/// specify its algorithm across releases.
#[verifier::external_body]
fn hash_text(value: &str) -> (h: u64)
    ensures
        h == text_hash(value@),
{
    let mut hasher = std::collections::hash_map::DefaultHasher::new();
    std::hash::Hash::hash(value, &mut hasher);
    std::hash::Hasher::finish(&hasher)
}

/// The hash of a route's text (its identifier or its SDP).
pub fn route_hash(value: &str) -> (r: u64)
    ensures
        r == text_hash(value@),
{
    hash_text(value)
}

/// The SSRC of a route's packets: the low 32 bits of its identifier's hash.
pub fn route_ssrc(id: &str) -> (r: u32)
    ensures
        r == text_hash(id@) % 0x1_0000_0000,
{
    (route_hash(id) % 0x1_0000_0000) as u32
}

/// The SAP message hash of an announcement: the low 16 bits of its SDP's hash.
pub fn sap_message_hash(sdp: &str) -> (r: u16)
    ensures
        r == text_hash(sdp@) % 0x1_0000,
{
    (route_hash(sdp) % 0x1_0000) as u16
}

/// The timestamp and payload of a received RTP packet.
pub fn rtp_payload(packet: &[u8]) -> (r: Option<(u32, &[u8])>)
    ensures
        match payload_range(packet@) {
            Some((a, b)) => r matches Some((t, s)) && t == rtp_timestamp(packet@) && s@
                == packet@.subrange(a, b),
            None => r is None,
        },
{
    match payload_of(packet) {
        Some(payload) => Some((timestamp_of(packet), payload)),
        None => None,
    }
}

/// The RTP packet that carries `payload` on a route.
pub fn create_rtp_packet(payload: &[u8], sequence: u16, timestamp: u32, ssrc: u32) -> (r: Vec<u8>)
    ensures
        r@ == route_header(sequence, timestamp, ssrc) + payload@,
{
    build_rtp_packet(payload, sequence, timestamp, ssrc)
}

/// The lines of the SDP text that announces a routed stream.
pub open spec fn route_sdp_lines(
    name: Seq<char>,
    interface: Ipv4Address,
    destination: Ipv4Address,
    port: u16,
    codec: Seq<char>,
    sample_rate: u32,
    channels: u16,
    session: u64,
) -> Seq<Seq<char>> {
    seq![
        "v=0"@,
        "o=- "@ + decimal(session as nat) + " "@ + decimal(session as nat) + " IN IP4 "@ + ipv4_text(interface),
        "s="@ + name,
        "c=IN IP4 "@ + ipv4_text(destination) + "/32"@,
        "t=0 0"@,
        "m=audio "@ + decimal(port as nat) + " RTP/AVP 96"@,
        "a=rtpmap:96 "@ + codec + "/"@ + decimal(sample_rate as nat) + "/"@ + decimal(channels as nat),
        "a=ptime:1"@,
    ]
}

/// The SDP text that announces a routed stream: its lines, each ended by
/// CR LF.
pub open spec fn route_sdp(
    name: Seq<char>,
    interface: Ipv4Address,
    destination: Ipv4Address,
    port: u16,
    codec: Seq<char>,
    sample_rate: u32,
    channels: u16,
    session: u64,
) -> Seq<char> {
    crlf_text(route_sdp_lines(name, interface, destination, port, codec, sample_rate, channels, session))
}

fn push_line(t: &mut Vec<char>, line: Vec<char>, Ghost(done): Ghost<Seq<Seq<char>>>)
    requires
        old(t)@ == crlf_text(done),
    ensures
        final(t)@ == crlf_text(done.push(line@)),
{
    append_chars(t, line.as_slice());
    t.push('\r');
    t.push('\n');
    assert(done.push(line@).drop_last() == done);
    assert(final(t)@ == crlf_text(done) + line@ + seq!['\r', '\n']);
}

/// The SDP text that announces a routed stream: session `session`, origin
/// `interface`, group `destination` and `port`, payload type 96 in `codec`.
pub fn build_sdp(
    name: &str,
    interface: Ipv4Address,
    destination: Ipv4Address,
    port: u16,
    codec: &str,
    sample_rate: u32,
    channels: u16,
    session: u64,
) -> (r: String)
    ensures
        r@ == route_sdp(name@, interface, destination, port, codec@, sample_rate, channels, session),
{
    let ghost lines = route_sdp_lines(
        name@,
        interface,
        destination,
        port,
        codec@,
        sample_rate,
        channels,
        session,
    );
    let mut t: Vec<char> = Vec::new();
    assert(lines.take(0) == Seq::<Seq<char>>::empty());
    let l0 = to_chars("v=0");
    assert(lines.take(1) == lines.take(0).push(l0@));
    push_line(&mut t, l0, Ghost(lines.take(0)));
    let mut l1 = to_chars("o=- ");
    append_chars(&mut l1, decimal_chars(session).as_slice());
    append_str(&mut l1, " ");
    append_chars(&mut l1, decimal_chars(session).as_slice());
    append_str(&mut l1, " IN IP4 ");
    append_chars(&mut l1, ipv4_chars(interface).as_slice());
    assert(lines.take(2) == lines.take(1).push(l1@));
    push_line(&mut t, l1, Ghost(lines.take(1)));
    let mut l2 = to_chars("s=");
    append_str(&mut l2, name);
    assert(lines.take(3) == lines.take(2).push(l2@));
    push_line(&mut t, l2, Ghost(lines.take(2)));
    let mut l3 = to_chars("c=IN IP4 ");
    append_chars(&mut l3, ipv4_chars(destination).as_slice());
    append_str(&mut l3, "/32");
    assert(lines.take(4) == lines.take(3).push(l3@));
    push_line(&mut t, l3, Ghost(lines.take(3)));
    let l4 = to_chars("t=0 0");
    assert(lines.take(5) == lines.take(4).push(l4@));
    push_line(&mut t, l4, Ghost(lines.take(4)));
    let mut l5 = to_chars("m=audio ");
    append_chars(&mut l5, decimal_chars(port as u64).as_slice());
    append_str(&mut l5, " RTP/AVP 96");
    assert(lines.take(6) == lines.take(5).push(l5@));
    push_line(&mut t, l5, Ghost(lines.take(5)));
    let mut l6 = to_chars("a=rtpmap:96 ");
    append_str(&mut l6, codec);
    append_str(&mut l6, "/");
    append_chars(&mut l6, decimal_chars(sample_rate as u64).as_slice());
    append_str(&mut l6, "/");
    append_chars(&mut l6, decimal_chars(channels as u64).as_slice());
    assert(lines.take(7) == lines.take(6).push(l6@));
    push_line(&mut t, l6, Ghost(lines.take(6)));
    let l7 = to_chars("a=ptime:1");
    assert(lines.take(8) == lines.take(7).push(l7@));
    push_line(&mut t, l7, Ghost(lines.take(7)));
    assert(lines.take(8) == lines);
    from_chars(t.as_slice())
}

proof fn lemma_no_prefix(l: Seq<char>, p: Seq<char>, k: int)
    requires
        0 <= k < p.len(),
        k < l.len(),
        l[k] != p[k],
    ensures
        !has_prefix(l, p),
{
    if has_prefix(l, p) {
        assert(l.take(p.len() as int)[k] == l[k]);
    }
}

proof fn lemma_s_line(f: SessionFields, name: Seq<char>)
    requires
        name.len() > 0,
    ensures
        apply_line(f, "s="@ + name) == (SessionFields { name: name, ..f }),
{
    reveal_strlit("s=");
    let l = "s="@ + name;
    assert(l.take(2) == "s="@);
    assert(l.skip(2) == name);
}

proof fn lemma_c_line(f: SessionFields, d: Ipv4Address)
    ensures
        apply_line(f, "c=IN IP4 "@ + ipv4_text(d) + "/32"@) == (SessionFields {
            address: ipv4_text(d),
            ..f
        }),
{
    reveal_strlit("s=");
    reveal_strlit("c=IN IP4 ");
    reveal_strlit("/32");
    let ip = ipv4_text(d);
    let l = "c=IN IP4 "@ + ip + "/32"@;
    lemma_no_prefix(l, "s="@, 0);
    assert(l.take(9) == "c=IN IP4 "@);
    let v = l.skip(9);
    let sep = Separator::Char('/');
    assert(v == ip.push('/') + seq!['3', '2']);
    lemma_ipv4_text_plain(d);
    assert(free_of(ip, sep));
    assert(free_of(seq!['3', '2'], sep));
    lemma_split_single(ip, sep);
    lemma_split_append_piece(ip, '/', seq!['3', '2'], sep);
    assert(split_by(v, sep)[0] == ip);
}

proof fn lemma_m_line(f: SessionFields, port: u16)
    ensures
        apply_line(f, "m=audio "@ + decimal(port as nat) + " RTP/AVP 96"@) == (SessionFields {
            port: port,
            payload: "96"@,
            ..f
        }),
{
    reveal_strlit("s=");
    reveal_strlit("c=IN IP4 ");
    reveal_strlit("m=audio ");
    reveal_strlit(" RTP/AVP 96");
    reveal_strlit("96");
    let d = decimal(port as nat);
    let l = "m=audio "@ + d + " RTP/AVP 96"@;
    lemma_no_prefix(l, "s="@, 0);
    lemma_no_prefix(l, "c=IN IP4 "@, 0);
    assert(l.take(8) == "m=audio "@);
    let v = l.skip(8);
    let ws = Separator::Whitespace;
    let rtp = seq!['R', 'T', 'P', '/', 'A', 'V', 'P'];
    let ninety_six = seq!['9', '6'];
    assert(v == (d.push(' ') + rtp).push(' ') + ninety_six);
    lemma_decimal_plain(port as nat);
    assert(free_of(d, ws));
    assert(free_of(rtp, ws));
    assert(free_of(ninety_six, ws));
    lemma_split_single(d, ws);
    lemma_split_append_piece(d, ' ', rtp, ws);
    lemma_split_append_piece(d.push(' ') + rtp, ' ', ninety_six, ws);
    let pieces = split_by(v, ws);
    assert(pieces == seq![d, rtp, ninety_six]);
    assert(pieces[0].len() > 0 && pieces[1].len() > 0 && pieces[2].len() > 0);
    lemma_filter_all_nonempty(pieces);
    assert(words(v) == pieces);
    lemma_decimal_parse(port as nat, 65535);
    assert(ninety_six == "96"@);
}

proof fn lemma_a_line(f: SessionFields, codec: Seq<char>, rate: u32, channels: u16)
    requires
        f.payload == "96"@,
        free_of(codec, Separator::Char('/')),
        free_of(codec, Separator::Whitespace),
    ensures
        apply_line(f, "a=rtpmap:96 "@ + codec + "/"@ + decimal(rate as nat) + "/"@ + decimal(channels as nat))
            == (SessionFields { codec: codec, sample_rate: rate, channels: channels, ..f }),
{
    reveal_strlit("s=");
    reveal_strlit("c=IN IP4 ");
    reveal_strlit("m=audio ");
    reveal_strlit("a=rtpmap:");
    reveal_strlit("a=rtpmap:96 ");
    reveal_strlit("/");
    reveal_strlit("96");
    let dr = decimal(rate as nat);
    let dn = decimal(channels as nat);
    let l = "a=rtpmap:96 "@ + codec + "/"@ + dr + "/"@ + dn;
    lemma_no_prefix(l, "s="@, 0);
    lemma_no_prefix(l, "c=IN IP4 "@, 0);
    lemma_no_prefix(l, "m=audio "@, 0);
    assert(l.take(9) == "a=rtpmap:"@);
    let v = l.skip(9);
    let rest = (codec.push('/') + dr).push('/') + dn;
    let ninety_six = seq!['9', '6'];
    assert(v == ninety_six.push(' ') + rest);
    lemma_decimal_plain(rate as nat);
    lemma_decimal_plain(channels as nat);
    let ws = Separator::Whitespace;
    assert(free_of(ninety_six, ws));
    assert(free_of(rest, ws)) by {
        assert forall|i: int| 0 <= i < rest.len() implies !separates(ws, #[trigger] rest[i]) by {
            if i < codec.len() {
                assert(rest[i] == codec[i]);
            } else if i == codec.len() {
            } else if i < codec.len() + 1 + dr.len() {
                assert(rest[i] == dr[i - codec.len() - 1]);
            } else if i == codec.len() + 1 + dr.len() {
            } else {
                assert(rest[i] == dn[i - codec.len() - 2 - dr.len()]);
            }
        }
    }
    lemma_split_single(ninety_six, ws);
    lemma_split_append_piece(ninety_six, ' ', rest, ws);
    let pieces = split_by(v, ws);
    assert(pieces == seq![ninety_six, rest]);
    assert(pieces[0].len() > 0 && pieces[1].len() > 0);
    lemma_filter_all_nonempty(pieces);
    assert(words(v) == pieces);
    let w = words(v);
    assert(piece_or_empty(w, 0) == ninety_six);
    assert(piece_or_empty(w, 1) == rest);
    let slash = Separator::Char('/');
    assert(free_of(dr, slash));
    assert(free_of(dn, slash));
    lemma_split_single(codec, slash);
    lemma_split_append_piece(codec, '/', dr, slash);
    lemma_split_append_piece(codec.push('/') + dr, '/', dn, slash);
    assert(split_by(rest, slash) == seq![codec, dr, dn]);
    lemma_decimal_parse(rate as nat, 0xffff_ffff);
    lemma_decimal_parse(channels as nat, 65535);
    assert(ninety_six == "96"@);
}

proof fn lemma_other_line(f: SessionFields, l: Seq<char>)
    requires
        l.len() == 0 || (l[0] != 's' && l[0] != 'c' && l[0] != 'm' && l[0] != 'a'),
    ensures
        apply_line(f, l) == f,
{
    reveal_strlit("s=");
    reveal_strlit("c=IN IP4 ");
    reveal_strlit("m=audio ");
    reveal_strlit("a=rtpmap:");
    if l.len() > 0 {
        lemma_no_prefix(l, "s="@, 0);
        lemma_no_prefix(l, "c=IN IP4 "@, 0);
        lemma_no_prefix(l, "m=audio "@, 0);
        lemma_no_prefix(l, "a=rtpmap:"@, 0);
    }
}

/// Law: another desk that reads the announcement of a route finds the
/// route's stream: its name, destination group, port, codec, sample rate
/// and channel count. The name must be one line without trailing
/// whitespace (otherwise it is read back trimmed or split), and the codec
/// one word without `/`.
pub proof fn lemma_route_sdp_read_back(
    name: Seq<char>,
    interface: Ipv4Address,
    destination: Ipv4Address,
    port: u16,
    codec: Seq<char>,
    sample_rate: u32,
    channels: u16,
    session: u64,
)
    requires
        name.len() > 0,
        !is_whitespace(name.last()),
        free_of(name, Separator::Char('\n')),
        free_of(codec, Separator::Char('/')),
        free_of(codec, Separator::Whitespace),
    ensures
        session_fields(route_sdp(name, interface, destination, port, codec, sample_rate, channels, session))
            == (SessionFields {
            name: name,
            address: ipv4_text(destination),
            port: port,
            payload: "96"@,
            codec: codec,
            sample_rate: sample_rate,
            channels: channels,
        }),
{
    let ls = route_sdp_lines(name, interface, destination, port, codec, sample_rate, channels, session);
    let nl = Separator::Char('\n');
    reveal_strlit("v=0");
    reveal_strlit("o=- ");
    reveal_strlit(" ");
    reveal_strlit(" IN IP4 ");
    reveal_strlit("s=");
    reveal_strlit("c=IN IP4 ");
    reveal_strlit("/32");
    reveal_strlit("t=0 0");
    reveal_strlit("m=audio ");
    reveal_strlit(" RTP/AVP 96");
    reveal_strlit("a=rtpmap:96 ");
    reveal_strlit("/");
    reveal_strlit("a=ptime:1");
    let ds = decimal(session as nat);
    let dp = decimal(port as nat);
    let dr = decimal(sample_rate as nat);
    let dn = decimal(channels as nat);
    let ipi = ipv4_text(interface);
    let ipd = ipv4_text(destination);
    lemma_decimal_plain(session as nat);
    lemma_decimal_plain(port as nat);
    lemma_decimal_plain(sample_rate as nat);
    lemma_decimal_plain(channels as nat);
    lemma_ipv4_text_plain(interface);
    lemma_ipv4_text_plain(destination);
    assert(free_of(ds, nl) && free_of(dp, nl) && free_of(dr, nl) && free_of(dn, nl));
    assert(free_of(ipi, nl) && free_of(ipd, nl));
    assert(free_of(codec, nl)) by {
        assert forall|i: int| 0 <= i < codec.len() implies !separates(nl, #[trigger] codec[i]) by {
            assert(!separates(Separator::Whitespace, codec[i]));
        }
    }
    assert(free_of("v=0"@, nl));
    assert(free_of("o=- "@, nl));
    assert(free_of(" "@, nl));
    assert(free_of(" IN IP4 "@, nl));
    assert(free_of("s="@, nl));
    assert(free_of("c=IN IP4 "@, nl));
    assert(free_of("/32"@, nl));
    assert(free_of("t=0 0"@, nl));
    assert(free_of("m=audio "@, nl));
    assert(free_of(" RTP/AVP 96"@, nl));
    assert(free_of("a=rtpmap:96 "@, nl));
    assert(free_of("/"@, nl));
    assert(free_of("a=ptime:1"@, nl));
    lemma_free_concat("o=- "@, ds, nl);
    lemma_free_concat("o=- "@ + ds, " "@, nl);
    lemma_free_concat("o=- "@ + ds + " "@, ds, nl);
    lemma_free_concat("o=- "@ + ds + " "@ + ds, " IN IP4 "@, nl);
    lemma_free_concat("o=- "@ + ds + " "@ + ds + " IN IP4 "@, ipi, nl);
    lemma_free_concat("s="@, name, nl);
    lemma_free_concat("c=IN IP4 "@, ipd, nl);
    lemma_free_concat("c=IN IP4 "@ + ipd, "/32"@, nl);
    lemma_free_concat("m=audio "@, dp, nl);
    lemma_free_concat("m=audio "@ + dp, " RTP/AVP 96"@, nl);
    lemma_free_concat("a=rtpmap:96 "@, codec, nl);
    lemma_free_concat("a=rtpmap:96 "@ + codec, "/"@, nl);
    lemma_free_concat("a=rtpmap:96 "@ + codec + "/"@, dr, nl);
    lemma_free_concat("a=rtpmap:96 "@ + codec + "/"@ + dr, "/"@, nl);
    lemma_free_concat("a=rtpmap:96 "@ + codec + "/"@ + dr + "/"@, dn, nl);
    assert forall|i: int| 0 <= i < ls.len() implies free_of(#[trigger] ls[i], nl) by {}
    lemma_crlf_split(ls);
    let sdp = route_sdp(name, interface, destination, port, codec, sample_rate, channels, session);
    assert(split_by(sdp, nl) == crlf_pieces(ls));
    // Every line starts and ends with a visible character, so trimming keeps it.
    assert forall|i: int| 0 <= i < ls.len() implies trim((#[trigger] ls[i]).push('\r')) == ls[i] by {
        if i == 0 {
            lemma_trim_line(ls[0]);
        } else if i == 1 {
            assert(ls[1].last() == ipi.last());
            lemma_trim_line(ls[1]);
        } else if i == 2 {
            assert(ls[2].last() == name.last());
            lemma_trim_line(ls[2]);
        } else if i == 3 {
            lemma_trim_line(ls[3]);
        } else if i == 4 {
            lemma_trim_line(ls[4]);
        } else if i == 5 {
            lemma_trim_line(ls[5]);
        } else if i == 6 {
            assert(ls[6].last() == dn.last());
            lemma_trim_line(ls[6]);
        } else {
            lemma_trim_line(ls[7]);
        }
    }
    let tl = sdp_lines(sdp);
    assert(trim(Seq::<char>::empty()) == Seq::<char>::empty());
    assert(tl == ls.push(Seq::<char>::empty()));
    // Reading the lines in order.
    let f0 = initial_fields();
    lemma_other_line(f0, ls[0]);
    lemma_other_line(f0, ls[1]);
    lemma_s_line(f0, name);
    let f2 = SessionFields { name: name, ..f0 };
    lemma_c_line(f2, destination);
    let f3 = SessionFields { address: ipd, ..f2 };
    lemma_other_line(f3, ls[4]);
    lemma_m_line(f3, port);
    let f5 = SessionFields { port: port, payload: "96"@, ..f3 };
    lemma_a_line(f5, codec, sample_rate, channels);
    let f6 = SessionFields { codec: codec, sample_rate: sample_rate, channels: channels, ..f5 };
    reveal_strlit("a=rtpmap:");
    lemma_no_prefix(ls[7], "a=rtpmap:"@, 2);
    lemma_other_line(f6, Seq::<char>::empty());
    assert(ls[7][0] == 'a');
    assert(apply_line(f6, ls[7]) == f6) by {
        lemma_no_prefix(ls[7], "s="@, 0);
        lemma_no_prefix(ls[7], "c=IN IP4 "@, 0);
        lemma_no_prefix(ls[7], "m=audio "@, 0);
    }
    assert(tl.drop_last() == ls);
    assert(ls.drop_last() == ls.take(7));
    assert(ls.take(7).drop_last() == ls.take(6));
    assert(ls.take(6).drop_last() == ls.take(5));
    assert(ls.take(5).drop_last() == ls.take(4));
    assert(ls.take(4).drop_last() == ls.take(3));
    assert(ls.take(3).drop_last() == ls.take(2));
    assert(ls.take(2).drop_last() == ls.take(1));
    assert(ls.take(1).drop_last() == ls.take(0));
    assert(apply_lines(ls.take(0)) == f0);
    assert(apply_lines(ls.take(1)) == f0);
    assert(apply_lines(ls.take(2)) == f0);
    assert(apply_lines(ls.take(3)) == f2);
    assert(apply_lines(ls.take(4)) == f3);
    assert(apply_lines(ls.take(5)) == f3);
    assert(apply_lines(ls.take(6)) == f5);
    assert(apply_lines(ls.take(7)) == f6);
    assert(apply_lines(ls) == f6);
    assert(apply_lines(tl) == f6);
}

/// Law: a desk listening for SAP announcements discovers the stream that
/// a route announces, with the route's name, group, port, codec, sample
/// rate and channel count (under the conditions of
/// `lemma_route_sdp_read_back`); it is usable exactly when the port is not 0.
pub proof fn lemma_route_announcement_discovered(
    name: Seq<char>,
    interface: Ipv4Address,
    destination: Ipv4Address,
    port: u16,
    codec: Seq<char>,
    sample_rate: u32,
    channels: u16,
    session: u64,
    message_hash: u16,
)
    requires
        name.len() > 0,
        !is_whitespace(name.last()),
        free_of(name, Separator::Char('\n')),
        free_of(codec, Separator::Char('/')),
        free_of(codec, Separator::Whitespace),
    ensures
        ({
            let sdp = route_sdp(name, interface, destination, port, codec, sample_rate, channels, session);
            let text = sap_sdp_text(sap_packet(sdp, interface, message_hash, false));
            &&& text == Some(sdp)
            &&& session_fields(text->0) == (SessionFields {
                name: name,
                address: ipv4_text(destination),
                port: port,
                payload: "96"@,
                codec: codec,
                sample_rate: sample_rate,
                channels: channels,
            })
            &&& session_complete(session_fields(text->0)) == (port != 0)
        }),
{
    let sdp = route_sdp(name, interface, destination, port, codec, sample_rate, channels, session);
    lemma_sap_roundtrip(sdp, interface, message_hash, false);
    lemma_route_sdp_read_back(name, interface, destination, port, codec, sample_rate, channels, session);
    lemma_ipv4_text_plain(destination);
}

/// The bytes `application/sdp` followed by a zero byte: the payload type
/// of a SAP announcement.
pub open spec fn sap_payload_type() -> Seq<u8> {
    seq![97u8, 112, 112, 108, 105, 99, 97, 116, 105, 111, 110, 47, 115, 100, 112, 0]
}

/// A SAP packet (RFC 2974, version 1, IPv4 origin, no authentication)
/// announcing `sdp`, or deleting the announcement when `deletion` holds.
pub open spec fn sap_packet(sdp: Seq<char>, interface: Ipv4Address, message_hash: u16, deletion: bool) -> Seq<u8> {
    seq![if deletion { 0x24u8 } else { 0x20u8 }, 0u8] + be16_bytes(message_hash) + seq![
        interface.0,
        interface.1,
        interface.2,
        interface.3,
    ] + sap_payload_type() + encode_utf8(sdp)
}

/// The SAP packet that announces (or withdraws) a routed stream.
pub fn build_sap(sdp: &str, interface: Ipv4Address, message_hash: u16, deletion: bool) -> (r: Vec<u8>)
    ensures
        r@ == sap_packet(sdp@, interface, message_hash, deletion),
{
    let mut packet: Vec<u8> = Vec::new();
    packet.push(if deletion {
        0x24
    } else {
        0x20
    });
    packet.push(0);
    push_be16(&mut packet, message_hash);
    packet.push(interface.0);
    packet.push(interface.1);
    packet.push(interface.2);
    packet.push(interface.3);
    let mime: [u8; 16] = [97, 112, 112, 108, 105, 99, 97, 116, 105, 111, 110, 47, 115, 100, 112, 0];
    push_all(&mut packet, mime.as_slice());
    assert(mime@ == sap_payload_type());
    push_all(&mut packet, sdp.as_bytes());
    packet
}

proof fn lemma_first_index_at(s: Seq<u8>, x: u8, k: int)
    requires
        0 <= k < s.len(),
        s[k] == x,
        forall|i: int| 0 <= i < k ==> s[i] != x,
    ensures
        first_index_of(s, x) == Some(k),
    decreases k,
{
    if k > 0 {
        let t = s.drop_first();
        assert forall|i: int| 0 <= i < k - 1 implies t[i] != x by {
            assert(t[i] == s[i + 1]);
        }
        lemma_first_index_at(t, x, k - 1);
    }
}

/// Law: the SDP text of an announcement that `build_sap` makes is read back
/// unchanged from the packet.
pub proof fn lemma_sap_roundtrip(sdp: Seq<char>, interface: Ipv4Address, message_hash: u16, deletion: bool)
    ensures
        sap_sdp_text(sap_packet(sdp, interface, message_hash, deletion)) == Some(sdp),
{
    let p = sap_packet(sdp, interface, message_hash, deletion);
    let first: u8 = if deletion { 0x24u8 } else { 0x20u8 };
    assert(p[0] == first);
    assert(p[1] == 0);
    assert(first & 0x10 == 0) by (bit_vector)
        requires
            first == 0x24u8 || first == 0x20u8,
    ;
    let payload = p.skip(8);
    let text = encode_utf8(sdp);
    let mime = sap_payload_type();
    assert(payload == mime + text);
    assert forall|i: int| 0 <= i < 15 implies payload[i] != 0u8 by {
        assert(payload[i] == mime[i]);
    }
    assert(payload[15] == mime[15]);
    lemma_first_index_at(payload, 0, 15);
    assert(!(payload.take(3) == sdp_version_line())) by {
        assert(payload.take(3)[0] == payload[0]);
        assert(payload[0] == 97u8);
    }
    assert(p.skip(24) == text);
    encode_utf8_valid_utf8(sdp);
    encode_utf8_decode_utf8(sdp);
}

/// Where a route reads from and sends to, once its request is checked.
pub struct RoutePlan {
    pub codec: Codec,
    pub source_group: Ipv4Address,
    pub destination: Ipv4Address,
    pub interface: Ipv4Address,
}

/// The error that a routing request meets first, if any.
pub open spec fn route_request_error(
    codec: Seq<char>,
    source_channels: u16,
    selected: Seq<u16>,
    source_address: Seq<char>,
    destination_address: Seq<char>,
    interface_ip: Seq<char>,
) -> Option<Seq<char>> {
    if codec_named(codec) is None {
        Some("Routing disponibile solamente per L16/L24"@)
    } else if !channels_valid(selected, source_channels) {
        Some("Selezione canali non valida"@)
    } else if ipv4_from_text(source_address) is None {
        Some("Multicast sorgente non valido"@)
    } else if ipv4_from_text(destination_address) is None {
        Some("Multicast destinazione non valido"@)
    } else if ipv4_from_text(interface_ip) is None {
        Some("Interfaccia non valida"@)
    } else if !multicast(ipv4_from_text(destination_address)->0) {
        Some("La destinazione deve essere multicast"@)
    } else {
        None
    }
}

/// Checks a routing request: the codec (L16 or L24, any case), the channel
/// selection (not empty, every channel below `source_channels`), the three
/// addresses, and that the destination is a multicast group; the first
/// failing check gives the error.
pub fn check_route_request(
    codec: &str,
    source_channels: u16,
    selected_channels: &[u16],
    source_address: &str,
    destination_address: &str,
    interface_ip: &str,
) -> (r: Result<RoutePlan, String>)
    ensures
        r is Err <==> route_request_error(
            codec@,
            source_channels,
            selected_channels@,
            source_address@,
            destination_address@,
            interface_ip@,
        ) is Some,
        r matches Err(e) ==> route_request_error(
            codec@,
            source_channels,
            selected_channels@,
            source_address@,
            destination_address@,
            interface_ip@,
        ) == Some(e@),
        r matches Ok(plan) ==> {
            &&& codec_named(codec@) == Some(plan.codec)
            &&& channels_valid(selected_channels@, source_channels)
            &&& ipv4_from_text(source_address@) == Some(plan.source_group)
            &&& ipv4_from_text(destination_address@) == Some(plan.destination)
            &&& ipv4_from_text(interface_ip@) == Some(plan.interface)
            &&& multicast(plan.destination)
        },
{
    let codec = match parse_codec(codec) {
        Some(c) => c,
        None => return Err("Routing disponibile solamente per L16/L24".to_string()),
    };
    if !check_channels(selected_channels, source_channels) {
        return Err("Selezione canali non valida".to_string());
    }
    let source_group = match parse_ipv4(source_address) {
        Some(a) => a,
        None => return Err("Multicast sorgente non valido".to_string()),
    };
    let destination = match parse_ipv4(destination_address) {
        Some(a) => a,
        None => return Err("Multicast destinazione non valido".to_string()),
    };
    let interface = match parse_ipv4(interface_ip) {
        Some(a) => a,
        None => return Err("Interfaccia non valida".to_string()),
    };
    if !is_multicast(destination) {
        return Err("La destinazione deve essere multicast".to_string());
    }
    Ok(RoutePlan { codec, source_group, destination, interface })
}

/// A channel selection is usable when it is not empty and names only
/// channels that the source has.
pub open spec fn channels_valid(selected: Seq<u16>, channels: u16) -> bool {
    selected.len() > 0 && forall|i: int| 0 <= i < selected.len() ==> #[trigger] selected[i] < channels
}

/// Whether a channel selection is usable.
pub fn check_channels(selected: &[u16], channels: u16) -> (r: bool)
    ensures
        r == channels_valid(selected@, channels),
{
    if selected.len() == 0 {
        return false;
    }
    let n = selected.len();
    for i in 0..n
        invariant
            n == selected@.len(),
            n > 0,
            forall|k: int| 0 <= k < i ==> #[trigger] selected@[k] < channels,
    {
        if selected[i] >= channels {
            return false;
        }
    }
    true
}

/// The identifier of the `number`-th route started at `now_ms`.
pub open spec fn route_id_text(now_ms: u64, number: u64) -> Seq<char> {
    "route-"@ + decimal(now_ms as nat) + "-"@ + decimal(number as nat)
}

/// The identifier of the `number`-th route started at `now_ms`
/// (`route-{now_ms}-{number}`).
pub fn route_id(now_ms: u64, number: u64) -> (r: String)
    ensures
        r@ == route_id_text(now_ms, number),
{
    let mut t: Vec<char> = Vec::new();
    append_str(&mut t, "route-");
    append_chars(&mut t, decimal_chars(now_ms).as_slice());
    append_str(&mut t, "-");
    append_chars(&mut t, decimal_chars(number).as_slice());
    from_chars(t.as_slice())
}

/// The destination of a route as `address:port`.
pub fn destination_text(destination: Ipv4Address, port: u16) -> (r: String)
    ensures
        r@ == ipv4_text(destination) + ":"@ + decimal(port as nat),
{
    let mut t = ipv4_chars(destination);
    append_str(&mut t, ":");
    append_chars(&mut t, decimal_chars(port as u64).as_slice());
    from_chars(t.as_slice())
}

/// Whether a route's SAP announcement is due, `elapsed_ms` milliseconds
/// after the last one: every 5 seconds.
pub fn sap_due(elapsed_ms: u64) -> (r: bool)
    ensures
        r == (elapsed_ms >= 5000),
{
    elapsed_ms >= 5000
}

/// What a route has sent so far.
pub struct RouteTraffic {
    pub packets_sent: u64,
    pub bytes_sent: u64,
}

impl RouteTraffic {
    /// A route that has sent nothing.
    pub fn new() -> (r: RouteTraffic)
        ensures
            r.packets_sent == 0,
            r.bytes_sent == 0,
    {
        RouteTraffic { packets_sent: 0, bytes_sent: 0 }
    }

    /// Counts one packet of `bytes` bytes as sent.
    pub fn record_sent(&mut self, bytes: u64)
        requires
            old(self).packets_sent < u64::MAX,
            old(self).bytes_sent + bytes <= u64::MAX,
        ensures
            final(self).packets_sent == old(self).packets_sent + 1,
            final(self).bytes_sent == old(self).bytes_sent + bytes,
    {
        self.packets_sent = self.packets_sent + 1;
        self.bytes_sent = self.bytes_sent + bytes;
    }
}

} // verus!
