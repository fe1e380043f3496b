//! AES67 stream discovery: SAP announcements carrying SDP session
//! descriptions, and the streams read from them.
use vstd::prelude::*;
use vstd::utf8::{decode_utf8, valid_utf8};
use std::hash::{Hash, Hasher};
use crate::net::{Ipv4Address, ipv4_chars, ipv4_text, loopback};
use crate::text::{
    Separator, from_chars, has_prefix, hex_lower, hex_lower_chars, lemma_split_by_nonempty,
    parse_unsigned, parse_unsigned_chars, split_by, split_chars, split_words, starts_with,
    to_chars, trim, trim_chars, views, words, text_le, text_le_chars, lemma_text_le_total,
    lemma_text_le_transitive, chars_eq, append_str, append_chars, free_of, separates,
    is_whitespace, decimal, lemma_split_single, lemma_split_append_piece, lemma_filter_all_nonempty,
    lemma_decimal_plain, lemma_decimal_parse, crlf_text, lemma_crlf_split, lemma_trim_line,
};

verus! {

/// One AES67 stream announced through SAP or imported from an SDP text.
pub struct Aes67Stream {
    pub id: String,
    pub name: String,
    pub address: String,
    pub port: u16,
    pub codec: String,
    pub sample_rate: u32,
    pub channels: u16,
    pub source: String,
    pub last_seen: u64,
}

/// The session fields gathered while reading an SDP text line by line.
pub struct SessionFields {
    pub name: Seq<char>,
    pub address: Seq<char>,
    pub port: u16,
    pub payload: Seq<char>,
    pub codec: Seq<char>,
    pub sample_rate: u32,
    pub channels: u16,
}

/// What a session looks like before any line was read.
pub open spec fn initial_fields() -> SessionFields {
    SessionFields {
        name: "Flusso AES67"@,
        address: Seq::empty(),
        port: 0,
        payload: Seq::empty(),
        codec: "L24"@,
        sample_rate: 48000,
        channels: 2,
    }
}

/// `s` read as an unsigned number no larger than `max`, or `default`.
pub open spec fn number_or(s: Seq<char>, max: nat, default: nat) -> nat {
    match parse_unsigned(s, max) {
        Some(v) => v,
        None => default,
    }
}

/// The `i`-th piece of `pieces`, or the empty text.
pub open spec fn piece_or_empty(pieces: Seq<Seq<char>>, i: int) -> Seq<char> {
    if 0 <= i < pieces.len() {
        pieces[i]
    } else {
        Seq::empty()
    }
}

/// The effect of one trimmed SDP line on the session fields:
/// `s=` names the session (unless empty), `c=IN IP4 ` gives the address
/// (up to the first `/`), `m=audio ` gives the port and the payload type,
/// and `a=rtpmap:` for that payload type (or any, while none is known)
/// gives codec, sample rate and channel count.
pub open spec fn apply_line(f: SessionFields, line: Seq<char>) -> SessionFields {
    if has_prefix(line, "s="@) {
        let v = line.skip("s="@.len() as int);
        if v.len() > 0 {
            SessionFields { name: v, ..f }
        } else {
            f
        }
    } else if has_prefix(line, "c=IN IP4 "@) {
        let v = line.skip("c=IN IP4 "@.len() as int);
        SessionFields { address: split_by(v, Separator::Char('/'))[0], ..f }
    } else if has_prefix(line, "m=audio "@) {
        let w = words(line.skip("m=audio "@.len() as int));
        SessionFields {
            port: (if w.len() > 0 {
                number_or(w[0], 65535, 0)
            } else {
                0
            }) as u16,
            payload: piece_or_empty(w, 2),
            ..f
        }
    } else if has_prefix(line, "a=rtpmap:"@) {
        let w = words(line.skip("a=rtpmap:"@.len() as int));
        let rtp_payload = piece_or_empty(w, 0);
        let format = piece_or_empty(w, 1);
        if f.payload.len() == 0 || f.payload == rtp_payload {
            let values = split_by(format, Separator::Char('/'));
            SessionFields {
                codec: values[0],
                sample_rate: (if values.len() > 1 {
                    number_or(values[1], 0xffff_ffff, 48000)
                } else {
                    48000
                }) as u32,
                channels: (if values.len() > 2 {
                    number_or(values[2], 65535, 2)
                } else {
                    2
                }) as u16,
                ..f
            }
        } else {
            f
        }
    } else {
        f
    }
}

/// The session fields after reading `lines` in order.
pub open spec fn apply_lines(lines: Seq<Seq<char>>) -> SessionFields
    decreases lines.len(),
{
    if lines.len() == 0 {
        initial_fields()
    } else {
        apply_line(apply_lines(lines.drop_last()), lines.last())
    }
}

/// The trimmed lines of an SDP text.
pub open spec fn sdp_lines(sdp: Seq<char>) -> Seq<Seq<char>> {
    split_by(sdp, Separator::Char('\n')).map_values(|l: Seq<char>| trim(l))
}

/// The session fields that an SDP text describes.
pub open spec fn session_fields(sdp: Seq<char>) -> SessionFields {
    apply_lines(sdp_lines(sdp))
}

/// Whether the session has what a stream needs: an address and a port.
pub open spec fn session_complete(f: SessionFields) -> bool {
    f.address.len() > 0 && f.port != 0
}

/// Whether a text is a stream identifier: some 64-bit hash written in
/// lower-case hexadecimal.
pub open spec fn hex_id(s: Seq<char>) -> bool {
    exists|h: u64| s == #[trigger] hex_lower(h as nat)
}

/// Hashes `(name, address, port)` with `std::collections::hash_map::DefaultHasher`
/// created by `new()`. Nothing is claimed of the result: the port is hashed
/// as native-endian bytes, so the same three values hash differently on
/// machines of different byte order, and the standard library does not
/// specify the algorithm across releases.
#[verifier::external_body]
fn hash_stream_key(name: &str, address: &str, port: u16) -> u64 {
    let mut hasher = std::collections::hash_map::DefaultHasher::new();
    (name, address, port).hash(&mut hasher);
    hasher.finish()
}

/// The identifier of a stream: the hash of its name, address and port in
/// lower-case hexadecimal.
pub fn stream_id(name: &str, address: &str, port: u16) -> (r: String)
    ensures
        hex_id(r@),
{
    let h = hash_stream_key(name, address, port);
    let r = from_chars(hex_lower_chars(h).as_slice());
    assert(r@ == hex_lower(h as nat));
    r
}

/// The current time in whole seconds since the Unix epoch.
pub fn timestamp() -> u64 {
    let (secs, _nanos) = crate::clock::now_since_epoch();
    secs
}

/// The session fields of an SDP text as it is read.
pub struct SessionDraft {
    pub name: Vec<char>,
    pub address: Vec<char>,
    pub port: u16,
    pub payload: Vec<char>,
    pub codec: Vec<char>,
    pub sample_rate: u32,
    pub channels: u16,
}

impl SessionDraft {
    pub open spec fn fields(&self) -> SessionFields {
        SessionFields {
            name: self.name@,
            address: self.address@,
            port: self.port,
            payload: self.payload@,
            codec: self.codec@,
            sample_rate: self.sample_rate,
            channels: self.channels,
        }
    }
}

fn number_or_default(s: &[char], max: u64, default: u64) -> (r: u64)
    requires
        max <= u32::MAX,
        default <= max,
    ensures
        r == number_or(s@, max as nat, default as nat),
        r <= max,
{
    match parse_unsigned_chars(s, max) {
        Some(v) => v,
        None => default,
    }
}

fn piece_at(pieces: &Vec<Vec<char>>, i: usize) -> (r: Vec<char>)
    ensures
        r@ == piece_or_empty(views(pieces@), i as int),
{
    if i < pieces.len() {
        vstd::slice::slice_to_vec(pieces[i].as_slice())
    } else {
        Vec::new()
    }
}

fn apply_session_line(f: &mut SessionDraft, line: &[char])
    ensures
        final(f).fields() == apply_line(old(f).fields(), line@),
{
    let s_prefix = to_chars("s=");
    let c_prefix = to_chars("c=IN IP4 ");
    let m_prefix = to_chars("m=audio ");
    let a_prefix = to_chars("a=rtpmap:");
    if starts_with(line, s_prefix.as_slice()) {
        let v = vstd::slice::slice_subrange(line, s_prefix.len(), line.len());
        if v.len() > 0 {
            f.name = vstd::slice::slice_to_vec(v);
        }
    } else if starts_with(line, c_prefix.as_slice()) {
        let v = vstd::slice::slice_subrange(line, c_prefix.len(), line.len());
        let parts = split_chars(v, Separator::Char('/'));
        proof {
            lemma_split_by_nonempty(v@, Separator::Char('/'));
        }
        f.address = vstd::slice::slice_to_vec(parts[0].as_slice());
    } else if starts_with(line, m_prefix.as_slice()) {
        let v = vstd::slice::slice_subrange(line, m_prefix.len(), line.len());
        let w = split_words(v);
        let port = if w.len() > 0 {
            number_or_default(w[0].as_slice(), 65535, 0)
        } else {
            0
        };
        f.port = port as u16;
        f.payload = piece_at(&w, 2);
    } else if starts_with(line, a_prefix.as_slice()) {
        let v = vstd::slice::slice_subrange(line, a_prefix.len(), line.len());
        let w = split_words(v);
        let rtp_payload = piece_at(&w, 0);
        let format = piece_at(&w, 1);
        if f.payload.len() == 0 || chars_eq(f.payload.as_slice(), rtp_payload.as_slice()) {
            let values = split_chars(format.as_slice(), Separator::Char('/'));
            proof {
                lemma_split_by_nonempty(format@, Separator::Char('/'));
            }
            f.codec = vstd::slice::slice_to_vec(values[0].as_slice());
            let rate = if values.len() > 1 {
                number_or_default(values[1].as_slice(), 0xffff_ffff, 48000)
            } else {
                48000
            };
            f.sample_rate = rate as u32;
            let channels = if values.len() > 2 {
                number_or_default(values[2].as_slice(), 65535, 2)
            } else {
                2
            };
            f.channels = channels as u16;
        }
    }
}

/// Reads the session fields of an SDP text.
pub fn read_session(sdp: &str) -> (r: SessionDraft)
    ensures
        r.fields() == session_fields(sdp@),
{
    let chars = to_chars(sdp);
    let raw = split_chars(chars.as_slice(), Separator::Char('\n'));
    let ghost lines = sdp_lines(sdp@);
    let mut f = SessionDraft {
        name: to_chars("Flusso AES67"),
        address: Vec::new(),
        port: 0,
        payload: Vec::new(),
        codec: to_chars("L24"),
        sample_rate: 48000,
        channels: 2,
    };
    let n = raw.len();
    assert(lines.take(0) == Seq::<Seq<char>>::empty());
    for i in 0..n
        invariant
            n == raw@.len(),
            lines == sdp_lines(sdp@),
            lines.len() == n,
            views(raw@) == split_by(sdp@, Separator::Char('\n')),
            f.fields() == apply_lines(lines.take(i as int)),
    {
        let line = trim_chars(raw[i].as_slice());
        assert(lines[i as int] == trim(raw@[i as int]@));
        assert(lines.take(i + 1).drop_last() == lines.take(i as int));
        apply_session_line(&mut f, line.as_slice());
    }
    assert(lines.take(n as int) == lines);
    f
}

/// The stream with identifier `id` that the session fields `f` describe,
/// received from `source` at time `now`.
pub fn stream_from_fields(f: SessionDraft, id: String, source: &str, now: u64) -> (r: Aes67Stream)
    ensures
        r@ == (StreamInfo {
            id: id@,
            name: f.fields().name,
            address: f.fields().address,
            port: f.fields().port,
            codec: f.fields().codec,
            sample_rate: f.fields().sample_rate,
            channels: f.fields().channels,
            source: source@,
            last_seen: now,
        }),
{
    Aes67Stream {
        id,
        name: from_chars(f.name.as_slice()),
        address: from_chars(f.address.as_slice()),
        port: f.port,
        codec: from_chars(f.codec.as_slice()),
        sample_rate: f.sample_rate,
        channels: f.channels,
        source: source.to_string(),
        last_seen: now,
    }
}

/// Reads an SDP text received from `source` at time `now` (seconds since
/// the Unix epoch) into a stream; fails when the text gives no address or
/// no usable port.
pub fn parse_sdp_at(sdp: &str, source: &str, now: u64) -> (r: Result<Aes67Stream, String>)
    ensures
        r is Ok <==> session_complete(session_fields(sdp@)),
        r matches Ok(st) ==> {
            let f = session_fields(sdp@);
            &&& hex_id(st.id@)
            &&& st.name@ == f.name
            &&& st.address@ == f.address
            &&& st.port == f.port
            &&& st.codec@ == f.codec
            &&& st.sample_rate == f.sample_rate
            &&& st.channels == f.channels
            &&& st.source@ == source@
            &&& st.last_seen == now
        },
        r matches Err(e) ==> e@ == "SDP privo di multicast o porta audio validi"@,
{
    let f = read_session(sdp);
    if f.address.len() == 0 || f.port == 0 {
        return Err("SDP privo di multicast o porta audio validi".to_string());
    }
    let name = from_chars(f.name.as_slice());
    let address = from_chars(f.address.as_slice());
    let id = stream_id(name.as_str(), address.as_str(), f.port);
    Ok(stream_from_fields(f, id, source, now))
}

/// Reads an SDP text received from `source` into a stream seen now.
pub fn parse_sdp(sdp: &str, source: &str) -> (r: Result<Aes67Stream, String>)
    ensures
        r is Ok <==> session_complete(session_fields(sdp@)),
        r matches Ok(st) ==> {
            let f = session_fields(sdp@);
            &&& hex_id(st.id@)
            &&& st.name@ == f.name
            &&& st.address@ == f.address
            &&& st.port == f.port
            &&& st.codec@ == f.codec
            &&& st.sample_rate == f.sample_rate
            &&& st.channels == f.channels
            &&& st.source@ == source@
        },
        r matches Err(e) ==> e@ == "SDP privo di multicast o porta audio validi"@,
{
    parse_sdp_at(sdp, source, timestamp())
}

/// The position of the first `b` in `s`.
pub open spec fn first_index_of(s: Seq<u8>, b: u8) -> Option<int>
    decreases s.len(),
{
    if s.len() == 0 {
        None
    } else if s[0] == b {
        Some(0)
    } else {
        match first_index_of(s.drop_first(), b) {
            Some(k) => Some(k + 1),
            None => None,
        }
    }
}

/// The bytes `v=0`, with which an SDP text begins.
pub open spec fn sdp_version_line() -> Seq<u8> {
    seq![118u8, 61u8, 48u8]
}

/// Where the SDP text starts in a SAP packet (RFC 2974): after the 4-byte
/// header, the originating source (4 bytes, or 16 with the IPv6 flag) and
/// the authentication words, and, unless the payload opens with `v=0`,
/// after the payload-type text and its terminating zero byte.
pub open spec fn sap_sdp_start(p: Seq<u8>) -> Option<int> {
    if p.len() < 8 {
        None
    } else {
        let source_size: int = if p[0] & 0x10 != 0 { 16 } else { 4 };
        let offset = 4 + source_size + (p[1] as int) * 4;
        if offset > p.len() {
            None
        } else {
            let payload = p.skip(offset);
            if sdp_version_line().len() <= payload.len() && payload.take(3) == sdp_version_line() {
                Some(offset)
            } else {
                match first_index_of(payload, 0) {
                    Some(k) => Some(offset + k + 1),
                    None => None,
                }
            }
        }
    }
}

/// The text that the bytes encode when they are valid UTF-8
/// (`std::str::from_utf8`, which borrows the bytes as they are).
#[verifier::external_body]
fn str_from_utf8(bytes: &[u8]) -> (r: Option<&str>)
    ensures
        r is Some <==> valid_utf8(bytes@),
        r matches Some(s) ==> s@ == decode_utf8(bytes@),
{
    std::str::from_utf8(bytes).ok()
}

fn first_zero(s: &[u8]) -> (r: Option<usize>)
    ensures
        match first_index_of(s@, 0) {
            Some(k) => r == Some(k as usize),
            None => r is None,
        },
        r matches Some(k) ==> k < s@.len(),
{
    let n = s.len();
    assert(s@.skip(0) == s@);
    for i in 0..n
        invariant
            n == s@.len(),
            first_index_of(s@, 0) == (match first_index_of(s@.skip(i as int), 0) {
                Some(k) => Some(k + i),
                None => None,
            }),
    {
        assert(s@.skip(i as int).drop_first() == s@.skip(i + 1));
        if s[i] == 0 {
            return Some(i);
        }
    }
    None
}

/// The SDP text of a SAP packet: the bytes from where it starts, decoded
/// as UTF-8; none when they are not valid UTF-8.
pub open spec fn sap_sdp_text(p: Seq<u8>) -> Option<Seq<char>> {
    match sap_sdp_start(p) {
        Some(k) => if valid_utf8(p.skip(k)) {
            Some(decode_utf8(p.skip(k)))
        } else {
            None
        },
        None => None,
    }
}

/// The SDP text that a SAP announcement carries, when it is valid UTF-8.
pub fn extract_sap_sdp(packet: &[u8]) -> (r: Option<&str>)
    ensures
        r is Some <==> sap_sdp_text(packet@) is Some,
        r matches Some(s) ==> s@ == sap_sdp_text(packet@)->0,
{
    if packet.len() < 8 {
        return None;
    }
    let ipv6 = packet[0] & 0x10 != 0;
    let auth_words = packet[1] as usize;
    let source_size: usize = if ipv6 {
        16
    } else {
        4
    };
    let offset = 4 + source_size + auth_words * 4;
    if offset > packet.len() {
        return None;
    }
    let payload = vstd::slice::slice_subrange(packet, offset, packet.len());
    assert(payload@ == packet@.skip(offset as int));
    let start = if payload.len() >= 3 && payload[0] == 118 && payload[1] == 61 && payload[2] == 48 {
        assert(payload@.take(3) == sdp_version_line());
        0
    } else {
        assert(!(sdp_version_line().len() <= payload@.len() && payload@.take(3)
            == sdp_version_line())) by {
            if sdp_version_line().len() <= payload@.len() && payload@.take(3) == sdp_version_line() {
                assert(payload@.take(3)[0] == payload@[0]);
                assert(payload@.take(3)[1] == payload@[1]);
                assert(payload@.take(3)[2] == payload@[2]);
            }
        }
        match first_zero(payload) {
            Some(k) => k + 1,
            None => {
                return None;
            },
        }
    };
    proof {
        if start > 0 {
            lemma_first_index_in_range(payload@, 0);
        }
    }
    let text = vstd::slice::slice_subrange(payload, start, payload.len());
    assert(text@ == packet@.skip(offset + start));
    str_from_utf8(text)
}

proof fn lemma_first_index_in_range(s: Seq<u8>, b: u8)
    ensures
        first_index_of(s, b) matches Some(k) ==> 0 <= k < s.len() && s[k] == b,
    decreases s.len(),
{
    if s.len() > 0 && s[0] != b {
        lemma_first_index_in_range(s.drop_first(), b);
    }
}

/// A stream as plain values.
pub struct StreamInfo {
    pub id: Seq<char>,
    pub name: Seq<char>,
    pub address: Seq<char>,
    pub port: u16,
    pub codec: Seq<char>,
    pub sample_rate: u32,
    pub channels: u16,
    pub source: Seq<char>,
    pub last_seen: u64,
}

impl View for Aes67Stream {
    type V = StreamInfo;

    open spec fn view(&self) -> StreamInfo {
        StreamInfo {
            id: self.id@,
            name: self.name@,
            address: self.address@,
            port: self.port,
            codec: self.codec@,
            sample_rate: self.sample_rate,
            channels: self.channels,
            source: self.source@,
            last_seen: self.last_seen,
        }
    }
}

impl Aes67Stream {
    /// An independent copy of the stream.
    pub fn duplicate(&self) -> (r: Aes67Stream)
        ensures
            r@ == self@,
    {
        Aes67Stream {
            id: self.id.clone(),
            name: self.name.clone(),
            address: self.address.clone(),
            port: self.port,
            codec: self.codec.clone(),
            sample_rate: self.sample_rate,
            channels: self.channels,
            source: self.source.clone(),
            last_seen: self.last_seen,
        }
    }
}

/// The streams known so far, keyed by their identifiers.
pub struct StreamStore {
    entries: Vec<Aes67Stream>,
}

/// The streams of `es` keyed by identifier, a later one replacing an earlier one.
pub open spec fn keyed(es: Seq<StreamInfo>) -> Map<Seq<char>, StreamInfo>
    decreases es.len(),
{
    if es.len() == 0 {
        Map::empty()
    } else {
        keyed(es.drop_last()).insert(es.last().id, es.last())
    }
}

pub open spec fn distinct_ids(es: Seq<StreamInfo>) -> bool {
    forall|i: int, j: int| 0 <= i < j < es.len() ==> es[i].id != es[j].id
}

/// Whether `x` is one of the first `i` streams of `es`.
pub open spec fn taken_from(x: StreamInfo, es: Seq<StreamInfo>, i: int) -> bool {
    exists|k: int| 0 <= k < i && es[k] == x
}

pub open spec fn infos(es: Seq<Aes67Stream>) -> Seq<StreamInfo> {
    es.map_values(|e: Aes67Stream| e@)
}

proof fn lemma_keyed_lookup(es: Seq<StreamInfo>)
    requires
        distinct_ids(es),
    ensures
        forall|k: Seq<char>| keyed(es).contains_key(k) <==> exists|i: int| 0 <= i < es.len() && es[i].id == k,
        forall|i: int| 0 <= i < es.len() ==> #[trigger] keyed(es)[es[i].id] == es[i],
        keyed(es).dom().finite(),
        keyed(es).len() == es.len(),
    decreases es.len(),
{
    if es.len() > 0 {
        let init = es.drop_last();
        assert(distinct_ids(init));
        lemma_keyed_lookup(init);
        assert(!keyed(init).contains_key(es.last().id)) by {
            if keyed(init).contains_key(es.last().id) {
                let i = choose|i: int| 0 <= i < init.len() && init[i].id == es.last().id;
                assert(es[i].id == es[es.len() - 1].id);
            }
        }
        assert forall|k: Seq<char>| keyed(es).contains_key(k) <==> exists|i: int| 0 <= i < es.len() && es[i].id == k by {
            if keyed(es).contains_key(k) && k != es.last().id {
                let i = choose|i: int| 0 <= i < init.len() && init[i].id == k;
                assert(es[i].id == k);
            }
            if exists|i: int| 0 <= i < es.len() && es[i].id == k {
                let i = choose|i: int| 0 <= i < es.len() && es[i].id == k;
                if i < es.len() - 1 {
                    assert(init[i].id == k);
                }
            }
        }
        assert forall|i: int| 0 <= i < es.len() implies #[trigger] keyed(es)[es[i].id] == es[i] by {
            if i < es.len() - 1 {
                assert(init[i] == es[i]);
                assert(es[i].id != es.last().id);
            }
        }
    }
}

proof fn lemma_keyed_update(es: Seq<StreamInfo>, i: int, x: StreamInfo)
    requires
        distinct_ids(es),
        0 <= i < es.len(),
        es[i].id == x.id,
    ensures
        keyed(es.update(i, x)) == keyed(es).insert(x.id, x),
        distinct_ids(es.update(i, x)),
    decreases es.len(),
{
    let u = es.update(i, x);
    assert(distinct_ids(u));
    if i == es.len() - 1 {
        assert(u.drop_last() == es.drop_last());
        assert(keyed(u) == keyed(es).insert(x.id, x));
    } else {
        let init = es.drop_last();
        assert(distinct_ids(init));
        lemma_keyed_update(init, i, x);
        assert(u.drop_last() == init.update(i, x));
        assert(es.last().id != x.id);
        assert(keyed(u) == keyed(es).insert(x.id, x));
    }
}

impl View for StreamStore {
    type V = Map<Seq<char>, StreamInfo>;

    closed spec fn view(&self) -> Map<Seq<char>, StreamInfo> {
        keyed(infos(self.entries@))
    }
}

impl StreamStore {
    /// The store keeps one stream per identifier.
    #[verifier::type_invariant]
    closed spec fn wf(&self) -> bool {
        distinct_ids(infos(self.entries@))
    }

    /// An empty store.
    pub fn new() -> (r: StreamStore)
        ensures
            r@ == Map::<Seq<char>, StreamInfo>::empty(),
    {
        let r = StreamStore { entries: Vec::new() };
        assert(infos(r.entries@) == Seq::<StreamInfo>::empty());
        r
    }

    /// The number of streams held.
    pub fn len(&self) -> (n: usize)
        ensures
            n == self@.len(),
    {
        proof {
            use_type_invariant(self);
            lemma_keyed_lookup(infos(self.entries@));
        }
        self.entries.len()
    }

    /// Records `stream`, replacing the one with the same identifier.
    pub fn insert(&mut self, stream: Aes67Stream)
        ensures
            final(self)@ == old(self)@.insert(stream.id@, stream@),
    {
        proof {
            use_type_invariant(&*self);
        }
        let ghost before = infos(self.entries@);
        let ghost x = stream@;
        let n = self.entries.len();
        let mut i: usize = 0;
        while i < n
            invariant
                n == self.entries@.len(),
                before == infos(self.entries@),
                distinct_ids(before),
                x == stream@,
                before == infos(old(self).entries@),
                i <= n,
                forall|k: int| 0 <= k < i ==> before[k].id != stream.id@,
            decreases n - i,
        {
            if self.entries[i].id == stream.id {
                let mut entries: Vec<Aes67Stream> = Vec::new();
                std::mem::swap(&mut entries, &mut self.entries);
                entries.set(i, stream);
                proof {
                    assert(infos(entries@) == before.update(i as int, x));
                    lemma_keyed_update(before, i as int, x);
                }
                self.entries = entries;
                assert(infos(self.entries@) == before.update(i as int, x));
                assert(self@ == keyed(before).insert(x.id, x));
                assert(x.id == stream.id@);
                return;
            }
            i = i + 1;
        }
        let mut entries: Vec<Aes67Stream> = Vec::new();
        std::mem::swap(&mut entries, &mut self.entries);
        entries.push(stream);
        proof {
            assert(infos(entries@) == before.push(x));
            assert(infos(entries@).drop_last() == before);
        }
        self.entries = entries;
    }

    /// Forgets every stream.
    pub fn clear(&mut self)
        ensures
            final(self)@ == Map::<Seq<char>, StreamInfo>::empty(),
    {
        self.entries = Vec::new();
        assert(infos(self.entries@) == Seq::<StreamInfo>::empty());
    }

    /// The stream with identifier `id`, if any.
    #[verifier::loop_isolation(false)]
    pub fn get(&self, id: &str) -> (r: Option<Aes67Stream>)
        ensures
            match r {
                Some(s) => self@.contains_key(id@) && s@ == self@[id@],
                None => !self@.contains_key(id@),
            },
    {
        proof {
            use_type_invariant(self);
            lemma_keyed_lookup(infos(self.entries@));
        }
        let n = self.entries.len();
        for i in 0..n
            invariant
                n == self.entries@.len(),
                forall|k: int| 0 <= k < i ==> infos(self.entries@)[k].id != id@,
        {
            if chars_eq(to_chars(self.entries[i].id.as_str()).as_slice(), to_chars(id).as_slice()) {
                assert(infos(self.entries@)[i as int].id == id@);
                return Some(self.entries[i].duplicate());
            }
        }
        None
    }

    /// Every stream, ordered by name; streams with the same name come in
    /// no particular order.
    pub fn sorted_by_name(&self) -> (r: Vec<Aes67Stream>)
        ensures
            r@.len() == self@.len(),
            forall|j: int| 0 <= j < r@.len() ==> self@.contains_key(#[trigger] r@[j]@.id) && self@[r@[j]@.id] == r@[j]@,
            forall|j: int, k: int| 0 <= j < k < r@.len() ==> r@[j]@.id != r@[k]@.id,
            sorted_by_name(r@),
    {
        proof {
            use_type_invariant(self);
            lemma_keyed_lookup(infos(self.entries@));
        }
        let ghost es = infos(self.entries@);
        let n = self.entries.len();
        let mut r: Vec<Aes67Stream> = Vec::new();
        let mut i: usize = 0;
        while i < n
            invariant
                i <= n,
                n == self.entries@.len(),
                es == infos(self.entries@),
                distinct_ids(es),
                r@.len() == i,
                forall|j: int| 0 <= j < r@.len() ==> #[trigger] taken_from(r@[j]@, es, i as int),
                forall|j: int, k: int| 0 <= j < k < r@.len() ==> r@[j]@.id != r@[k]@.id,
                sorted_by_name(r@),
            decreases n - i,
        {
            let item = self.entries[i].duplicate();
            let ghost before = r@;
            assert forall|j: int| 0 <= j < before.len() implies #[trigger] before[j]@.id != es[i as int].id by {
                assert(taken_from(before[j]@, es, i as int));
            }
            let p = insert_by_name(&mut r, item);
            assert forall|j: int| 0 <= j < r@.len() implies #[trigger] taken_from(r@[j]@, es, i + 1) by {
                if j < p {
                    assert(r@[j] == before[j]);
                    assert(taken_from(before[j]@, es, i as int));
                } else if j > p {
                    assert(r@[j] == before[j - 1]);
                    assert(taken_from(before[j - 1]@, es, i as int));
                } else {
                    assert(r@[j]@ == es[i as int]);
                }
            }
            assert forall|j: int, k: int| 0 <= j < k < r@.len() implies r@[j]@.id != r@[k]@.id by {
                if k < p {
                    assert(r@[j] == before[j] && r@[k] == before[k]);
                } else if j > p {
                    assert(r@[j] == before[j - 1] && r@[k] == before[k - 1]);
                } else if j == p {
                    assert(r@[k] == before[k - 1]);
                } else if k == p {
                    assert(r@[j] == before[j]);
                } else {
                    assert(r@[j] == before[j] && r@[k] == before[k - 1]);
                }
            }
            i = i + 1;
        }
        assert forall|j: int| 0 <= j < r@.len() implies self@.contains_key(#[trigger] r@[j]@.id) && self@[r@[j]@.id] == r@[j]@ by {
            assert(taken_from(r@[j]@, es, n as int));
            let k = choose|k: int| 0 <= k < n && es[k] == r@[j]@;
            assert(keyed(es)[es[k].id] == es[k]);
        }
        r
    }
}

/// Whether the streams come in name order.
pub open spec fn sorted_by_name(v: Seq<Aes67Stream>) -> bool {
    forall|j: int, k: int| 0 <= j < k < v.len() ==> text_le(v[j]@.name, v[k]@.name)
}

/// Inserts `item` after the streams whose names come no later than its own.
fn insert_by_name(r: &mut Vec<Aes67Stream>, item: Aes67Stream) -> (p: usize)
    requires
        sorted_by_name(old(r)@),
    ensures
        p <= old(r)@.len(),
        final(r)@ == old(r)@.insert(p as int, item),
        sorted_by_name(final(r)@),
{
    let name = to_chars(item.name.as_str());
    let mut p: usize = 0;
    while p < r.len() && text_le_chars(to_chars(r[p].name.as_str()).as_slice(), name.as_slice())
        invariant
            p <= r@.len(),
            forall|j: int| 0 <= j < p ==> text_le(#[trigger] r@[j]@.name, name@),
        decreases r@.len() - p,
    {
        p = p + 1;
    }
    let ghost before = r@;
    assert forall|j: int| p <= j < before.len() implies text_le(name@, #[trigger] before[j]@.name) by {
        lemma_text_le_total(name@, before[p as int]@.name);
        if j > p {
            lemma_text_le_transitive(name@, before[p as int]@.name, before[j]@.name);
        }
    }
    r.insert(p, item);
    assert forall|j: int, k: int| 0 <= j < k < r@.len() implies text_le(r@[j]@.name, r@[k]@.name) by {
        if k < p {
            assert(r@[j] == before[j] && r@[k] == before[k]);
        } else if j > p {
            assert(r@[j] == before[j - 1] && r@[k] == before[k - 1]);
        } else if j == p {
            assert(r@[k] == before[k - 1]);
        } else if k == p {
            assert(r@[j] == before[j]);
        } else {
            assert(r@[j] == before[j] && r@[k] == before[k - 1]);
            lemma_text_le_transitive(before[j]@.name, name@, before[k - 1]@.name);
        }
    }
    p
}

/// Whether a stream was read from `sdp` and `source` (its arrival time
/// aside).
pub open spec fn stream_read_from(st: StreamInfo, sdp: Seq<char>, source: Seq<char>) -> bool {
    let f = session_fields(sdp);
    &&& session_complete(f)
    &&& hex_id(st.id)
    &&& st.name == f.name
    &&& st.address == f.address
    &&& st.port == f.port
    &&& st.codec == f.codec
    &&& st.sample_rate == f.sample_rate
    &&& st.channels == f.channels
    &&& st.source == source
}

/// The source label of streams announced through SAP by `sender`.
pub open spec fn sap_source(sender: Seq<char>) -> Seq<char> {
    "SAP \u{b7} "@ + sender
}

impl StreamStore {
    /// Records the stream that an SDP text typed by the user describes, as
    /// seen now, and returns it; the store is unchanged when the text
    /// gives no address or port.
    pub fn import_sdp(&mut self, sdp: &str) -> (r: Result<Aes67Stream, String>)
        ensures
            r is Ok <==> session_complete(session_fields(sdp@)),
            r matches Ok(st) ==> stream_read_from(st@, sdp@, "SDP manuale"@) && final(self)@ == old(
                self,
            )@.insert(st@.id, st@),
            r matches Err(e) ==> e@ == "SDP privo di multicast o porta audio validi"@ && final(self)@
                == old(self)@,
    {
        let stream = parse_sdp(sdp, "SDP manuale")?;
        self.insert(stream.duplicate());
        Ok(stream)
    }

    /// Handles a datagram received on the SAP port from `sender`: when it
    /// carries an SDP text that describes a stream, the stream is recorded
    /// (as seen now) and returned.
    pub fn handle_sap_packet(&mut self, packet: &[u8], sender: &str) -> (r: Option<Aes67Stream>)
        ensures
            r is Some <==> (sap_sdp_text(packet@) matches Some(t) && session_complete(session_fields(t))),
            r matches Some(st) ==> stream_read_from(st@, sap_sdp_text(packet@)->0, sap_source(sender@))
                && final(self)@ == old(self)@.insert(st@.id, st@),
            r is None ==> final(self)@ == old(self)@,
    {
        let sdp = match extract_sap_sdp(packet) {
            Some(t) => t,
            None => return None,
        };
        let mut source: Vec<char> = Vec::new();
        append_str(&mut source, "SAP \u{b7} ");
        append_str(&mut source, sender);
        let source = from_chars(source.as_slice());
        match parse_sdp(sdp, source.as_str()) {
            Ok(stream) => {
                self.insert(stream.duplicate());
                Some(stream)
            },
            Err(_) => None,
        }
    }
}

/// Law: once a stream is recorded, its identifier leads to it, and every
/// other identifier leads where it led before.
pub proof fn lemma_store_insert_lookup(store: Map<Seq<char>, StreamInfo>, s: StreamInfo, other: Seq<char>)
    ensures
        store.insert(s.id, s).contains_key(s.id),
        store.insert(s.id, s)[s.id] == s,
        other != s.id ==> store.insert(s.id, s).contains_key(other) == store.contains_key(other),
        other != s.id && store.contains_key(other) ==> store.insert(s.id, s)[other] == store[other],
        store.dom().finite() ==> store.insert(s.id, s).len() == (if store.contains_key(s.id) {
            store.len()
        } else {
            store.len() + 1
        }),
{
    if store.dom().finite() {
        if store.contains_key(s.id) {
            assert(store.insert(s.id, s).dom() == store.dom());
        } else {
            assert(store.insert(s.id, s).dom() == store.dom().insert(s.id));
        }
    }
}

/// A network interface that discovery can listen on.
pub struct NetworkInterface {
    pub name: String,
    pub ip: String,
}

/// The interfaces to offer, from the host's `(name, IPv4 address)` pairs in
/// order: loopback addresses are left out, and an address already offered
/// is not offered again.
pub open spec fn offered_interfaces(entries: Seq<(Seq<char>, Ipv4Address)>) -> Seq<(Seq<char>, Seq<char>)>
    decreases entries.len(),
{
    if entries.len() == 0 {
        Seq::empty()
    } else {
        let before = offered_interfaces(entries.drop_last());
        let (name, ip) = entries.last();
        if loopback(ip) || exists|k: int| 0 <= k < before.len() && before[k].1 == ipv4_text(ip) {
            before
        } else {
            before.push((name, ipv4_text(ip)))
        }
    }
}

pub open spec fn interface_views(v: Seq<NetworkInterface>) -> Seq<(Seq<char>, Seq<char>)> {
    v.map_values(|i: NetworkInterface| (i.name@, i.ip@))
}

pub open spec fn entry_views(v: Seq<(String, Ipv4Address)>) -> Seq<(Seq<char>, Ipv4Address)> {
    v.map_values(|e: (String, Ipv4Address)| (e.0@, e.1))
}

fn ip_listed(list: &Vec<NetworkInterface>, ip: &[char]) -> (r: bool)
    ensures
        r == exists|k: int| 0 <= k < list@.len() && list@[k].ip@ == ip@,
{
    let m = list.len();
    for k in 0..m
        invariant
            m == list@.len(),
            forall|j: int| 0 <= j < k ==> list@[j].ip@ != ip@,
    {
        if chars_eq(to_chars(list[k].ip.as_str()).as_slice(), ip) {
            return true;
        }
    }
    false
}

/// The interfaces to offer for discovery.
pub fn select_interfaces(entries: &Vec<(String, Ipv4Address)>) -> (r: Vec<NetworkInterface>)
    ensures
        interface_views(r@) == offered_interfaces(entry_views(entries@)),
{
    let ghost es = entry_views(entries@);
    let mut result: Vec<NetworkInterface> = Vec::new();
    let n = entries.len();
    let mut i: usize = 0;
    assert(es.take(0) == Seq::<(Seq<char>, Ipv4Address)>::empty());
    while i < n
        invariant
            i <= n,
            n == entries@.len(),
            es == entry_views(entries@),
            interface_views(result@) == offered_interfaces(es.take(i as int)),
        decreases n - i,
    {
        let ip = entries[i].1;
        let text = ipv4_chars(ip);
        let ghost before = offered_interfaces(es.take(i as int));
        assert(es.take(i + 1).drop_last() == es.take(i as int));
        assert(es.take(i + 1).last() == (entries@[i as int].0@, ip));
        if !crate::net::is_loopback(ip) {
            let seen = ip_listed(&result, text.as_slice());
            assert(seen == exists|k: int| 0 <= k < before.len() && before[k].1 == ipv4_text(ip)) by {
                if seen {
                    let k = choose|k: int| 0 <= k < result@.len() && result@[k].ip@ == text@;
                    assert(before[k].1 == result@[k].ip@);
                }
                if exists|k: int| 0 <= k < before.len() && before[k].1 == ipv4_text(ip) {
                    let k = choose|k: int| 0 <= k < before.len() && before[k].1 == ipv4_text(ip);
                    assert(before[k].1 == result@[k].ip@);
                }
            }
            if !seen {
                let ghost prev = result@;
                result.push(NetworkInterface { name: entries[i].0.clone(), ip: from_chars(text.as_slice()) });
                assert(interface_views(result@) == interface_views(prev).push((entries@[i as int].0@, ipv4_text(ip))));
            }
        }
        i = i + 1;
    }
    assert(es.take(n as int) == es);
    result
}

/// Whether discovery runs, on which interface, and what it last reported.
pub struct DiscoveryStatus {
    pub running: bool,
    pub interface_ip: String,
    pub message: String,
}

impl DiscoveryStatus {
    /// The status before discovery ever started.
    pub fn new() -> (r: DiscoveryStatus)
        ensures
            !r.running,
            r.interface_ip@ == Seq::<char>::empty(),
            r.message@ == Seq::<char>::empty(),
    {
        DiscoveryStatus { running: false, interface_ip: String::new(), message: String::new() }
    }

    /// Discovery listening for SAP announcements through `interface_ip`.
    pub fn listening(&mut self, interface_ip: &str)
        ensures
            final(self).running,
            final(self).interface_ip@ == interface_ip@,
            final(self).message@ == "SAP attivo su "@ + interface_ip@,
    {
        self.running = true;
        self.interface_ip = interface_ip.to_string();
        let mut m: Vec<char> = Vec::new();
        append_str(&mut m, "SAP attivo su ");
        append_str(&mut m, interface_ip);
        self.message = from_chars(m.as_slice());
    }

    /// Discovery stopped by `error`.
    pub fn failed(&mut self, error: String)
        ensures
            !final(self).running,
            final(self).message@ == error@,
            final(self).interface_ip == old(self).interface_ip,
    {
        self.running = false;
        self.message = error;
    }
}

proof fn lemma_lacks_prefix(l: Seq<char>, p: Seq<char>)
    requires
        0 < p.len(),
        0 < l.len(),
        l[0] != p[0],
    ensures
        !has_prefix(l, p),
{
    if has_prefix(l, p) {
        assert(l.take(p.len() as int)[0] == l[0]);
    }
}

/// The `a=rtpmap:` line of payload type `payload` for `codec` at `rate`,
/// without a channel count.
pub open spec fn rtpmap_line(payload: Seq<char>, codec: Seq<char>, rate: u32) -> Seq<char> {
    "a=rtpmap:"@ + payload + " "@ + codec + "/"@ + decimal(rate as nat)
}

/// The `m=audio` line of an RTP/AVP stream on `port` with `payload` type.
pub open spec fn audio_media_line(port: u16, payload: Seq<char>) -> Seq<char> {
    "m=audio "@ + decimal(port as nat) + " RTP/AVP "@ + payload
}

/// Law: an `a=rtpmap:` line for the session's payload type (or for any,
/// while none is known) that gives a codec and a sample rate but no
/// channel count sets that codec and that sample rate, and two channels.
pub proof fn lemma_rtpmap_codec_and_rate(f: SessionFields, payload: Seq<char>, codec: Seq<char>, rate: u32)
    requires
        payload.len() > 0,
        free_of(payload, Separator::Whitespace),
        f.payload.len() == 0 || f.payload == payload,
        free_of(codec, Separator::Char('/')),
        free_of(codec, Separator::Whitespace),
    ensures
        apply_line(f, rtpmap_line(payload, codec, rate)) == (SessionFields {
            codec: codec,
            sample_rate: rate,
            channels: 2,
            ..f
        }),
{
    reveal_strlit("s=");
    reveal_strlit("c=IN IP4 ");
    reveal_strlit("m=audio ");
    reveal_strlit("a=rtpmap:");
    reveal_strlit(" ");
    reveal_strlit("/");
    let dr = decimal(rate as nat);
    let l = rtpmap_line(payload, codec, rate);
    lemma_lacks_prefix(l, "s="@);
    lemma_lacks_prefix(l, "c=IN IP4 "@);
    lemma_lacks_prefix(l, "m=audio "@);
    assert(l.take(9) == "a=rtpmap:"@);
    let v = l.skip(9);
    let rest = codec.push('/') + dr;
    assert(v == payload.push(' ') + rest);
    lemma_decimal_plain(rate as nat);
    let ws = Separator::Whitespace;
    assert(free_of(rest, ws)) by {
        assert forall|i: int| 0 <= i < rest.len() implies !separates(ws, #[trigger] rest[i]) by {
            if i < codec.len() {
                assert(rest[i] == codec[i]);
            } else if i > codec.len() {
                assert(rest[i] == dr[i - codec.len() - 1]);
            }
        }
    }
    lemma_split_single(payload, ws);
    lemma_split_append_piece(payload, ' ', rest, ws);
    let pieces = split_by(v, ws);
    assert(pieces == seq![payload, rest]);
    assert(pieces[0].len() > 0 && pieces[1].len() > 0);
    lemma_filter_all_nonempty(pieces);
    assert(words(v) == pieces);
    let w = words(v);
    assert(piece_or_empty(w, 0) == payload);
    assert(piece_or_empty(w, 1) == rest);
    let slash = Separator::Char('/');
    assert(free_of(dr, slash));
    lemma_split_single(codec, slash);
    lemma_split_append_piece(codec, '/', dr, slash);
    assert(split_by(rest, slash) == seq![codec, dr]);
    lemma_decimal_parse(rate as nat, 0xffff_ffff);
}

/// Law: an `m=audio` line for `port` with RTP/AVP payload type `payload`
/// sets the session's port and payload type.
pub proof fn lemma_audio_media_line(f: SessionFields, port: u16, payload: Seq<char>)
    requires
        port != 0,
        payload.len() > 0,
        free_of(payload, Separator::Whitespace),
    ensures
        apply_line(f, audio_media_line(port, payload)) == (SessionFields {
            port: port,
            payload: payload,
            ..f
        }),
{
    reveal_strlit("s=");
    reveal_strlit("c=IN IP4 ");
    reveal_strlit("m=audio ");
    reveal_strlit(" RTP/AVP ");
    let d = decimal(port as nat);
    let l = audio_media_line(port, payload);
    lemma_lacks_prefix(l, "s="@);
    lemma_lacks_prefix(l, "c=IN IP4 "@);
    assert(l.take(8) == "m=audio "@);
    let v = l.skip(8);
    let ws = Separator::Whitespace;
    let rtp = seq!['R', 'T', 'P', '/', 'A', 'V', 'P'];
    assert(v == (d.push(' ') + rtp).push(' ') + payload);
    lemma_decimal_plain(port as nat);
    assert(free_of(d, ws));
    assert(free_of(rtp, ws));
    lemma_split_single(d, ws);
    lemma_split_append_piece(d, ' ', rtp, ws);
    lemma_split_append_piece(d.push(' ') + rtp, ' ', payload, ws);
    let pieces = split_by(v, ws);
    assert(pieces == seq![d, rtp, payload]);
    assert(pieces[0].len() > 0 && pieces[1].len() > 0 && pieces[2].len() > 0);
    lemma_filter_all_nonempty(pieces);
    assert(words(v) == pieces);
    lemma_decimal_parse(port as nat, 65535);
}

/// Law: an SDP text whose media line announces payload type `payload` on
/// `port` and whose `a=rtpmap:` line maps that type to `codec` at `rate`,
/// without a channel count, describes a stream on that port in that codec
/// at that sample rate, with two channels.
pub proof fn lemma_sdp_codec_and_rate(port: u16, payload: Seq<char>, codec: Seq<char>, rate: u32)
    requires
        port != 0,
        payload.len() > 0,
        free_of(payload, Separator::Whitespace),
        free_of(codec, Separator::Char('/')),
        free_of(codec, Separator::Whitespace),
    ensures
        ({
            let f = session_fields(crlf_text(seq![audio_media_line(port, payload), rtpmap_line(payload, codec, rate)]));
            &&& f.port == port
            &&& f.payload == payload
            &&& f.codec == codec
            &&& f.sample_rate == rate
            &&& f.channels == 2
        }),
{
    reveal_strlit("m=audio ");
    reveal_strlit(" RTP/AVP ");
    reveal_strlit("a=rtpmap:");
    reveal_strlit(" ");
    reveal_strlit("/");
    let m = audio_media_line(port, payload);
    let a = rtpmap_line(payload, codec, rate);
    let ls = seq![m, a];
    let nl = Separator::Char('\n');
    lemma_decimal_plain(port as nat);
    lemma_decimal_plain(rate as nat);
    let d = decimal(port as nat);
    let dr = decimal(rate as nat);
    assert(free_of(m, nl)) by {
        assert forall|i: int| 0 <= i < m.len() implies !separates(nl, #[trigger] m[i]) by {
            if i >= 8 + d.len() + 9 {
                assert(m[i] == payload[i - 8 - d.len() - 9]);
                assert(!separates(Separator::Whitespace, payload[i - 8 - d.len() - 9]));
            } else if i >= 8 && i < 8 + d.len() {
                assert(m[i] == d[i - 8]);
            }
        }
    }
    assert(free_of(a, nl)) by {
        assert forall|i: int| 0 <= i < a.len() implies !separates(nl, #[trigger] a[i]) by {
            if 9 <= i < 9 + payload.len() {
                assert(a[i] == payload[i - 9]);
                assert(!separates(Separator::Whitespace, payload[i - 9]));
            } else if 10 + payload.len() <= i < 10 + payload.len() + codec.len() {
                assert(a[i] == codec[i - 10 - payload.len()]);
                assert(!separates(Separator::Whitespace, codec[i - 10 - payload.len()]));
            } else if i >= 11 + payload.len() + codec.len() {
                assert(a[i] == dr[i - 11 - payload.len() - codec.len()]);
            }
        }
    }
    lemma_crlf_split(ls);
    assert(m[0] == 'm' && a[0] == 'a');
    assert(m.last() == payload.last());
    assert(!separates(Separator::Whitespace, payload[payload.len() - 1]));
    assert(a.last() == dr.last());
    lemma_trim_line(m);
    lemma_trim_line(a);
    let lines = sdp_lines(crlf_text(ls));
    assert(lines == seq![m, a, Seq::<char>::empty()]);
    assert(lines.drop_last() == seq![m, a]);
    assert(lines.drop_last().drop_last() == seq![m]);
    assert(lines.drop_last().drop_last().drop_last() == Seq::<Seq<char>>::empty());
    let f0 = initial_fields();
    lemma_audio_media_line(f0, port, payload);
    let f1 = apply_line(f0, m);
    lemma_rtpmap_codec_and_rate(f1, payload, codec, rate);
    let f2 = apply_line(f1, a);
    assert(apply_line(f2, Seq::<char>::empty()) == f2) by {
        reveal_strlit("s=");
        reveal_strlit("c=IN IP4 ");
    }
    assert(seq![m].drop_last() == Seq::<Seq<char>>::empty());
    assert(apply_lines(Seq::<Seq<char>>::empty()) == f0);
    assert(seq![m].last() == m);
    assert(apply_lines(seq![m]) == f1);
    assert(seq![m, a].drop_last() == seq![m]);
    assert(apply_lines(seq![m, a]) == f2);
    assert(apply_lines(lines) == apply_line(f2, Seq::<char>::empty()));
}

} // verus!
