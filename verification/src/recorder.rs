//! Recording a stream to WAV files: request checks, file naming, the
//! samples written for each packet and the splitting into segments.
use vstd::prelude::*;
use crate::net::{Ipv4Address, ipv4_from_text, parse_ipv4};
use crate::pcm::{Codec, codec_named, parse_codec, sample_bytes, selected_samples};
use crate::routing::{channels_valid, check_channels};
use crate::rtp::payload_range;
use crate::text::{
    all_digits, append_chars, append_str, decimal, decimal_chars, decimal_padded,
    decimal_padded_chars, from_chars, is_digit, lemma_decimal_digits, to_chars,
};

verus! {

/// The current time in whole seconds since the Unix epoch.
pub fn unix_timestamp() -> u64 {
    let (secs, _nanos) = crate::clock::now_since_epoch();
    secs
}

/// The payload of a received RTP packet.
pub fn rtp_payload(packet: &[u8]) -> (r: Option<&[u8]>)
    ensures
        match payload_range(packet@) {
            Some((a, b)) => r matches Some(s) && s@ == packet@.subrange(a, b),
            None => r is None,
        },
{
    crate::rtp::payload_of(packet)
}

/// Whether a character may stay in a file name: ASCII letters and digits,
/// `-` and `_`.
pub open spec fn name_char(c: char) -> bool {
    let u = c as u32;
    (48 <= u && u <= 57) || (65 <= u && u <= 90) || (97 <= u && u <= 122) || c == '-' || c == '_'
}

/// Every character that may not stay in a file name replaced by `_`.
pub open spec fn name_chars(s: Seq<char>) -> Seq<char> {
    s.map_values(|c: char| if name_char(c) { c } else { '_' })
}

/// `s` without `_` at either end (`str::trim_matches('_')`).
pub open spec fn trim_underscores(s: Seq<char>) -> Seq<char>
    decreases s.len(),
{
    if s.len() > 0 && s[0] == '_' {
        trim_underscores(s.drop_first())
    } else if s.len() > 0 && s.last() == '_' {
        trim_underscores(s.drop_last())
    } else {
        s
    }
}

/// The base name that a recording gets from a user's text.
pub open spec fn sanitized(value: Seq<char>) -> Seq<char> {
    let t = trim_underscores(name_chars(value));
    if t.len() == 0 {
        "AES67_recording"@
    } else {
        t
    }
}

fn is_name_char(c: char) -> (r: bool)
    ensures
        r == name_char(c),
{
    let u = c as u32;
    (48 <= u && u <= 57) || (65 <= u && u <= 90) || (97 <= u && u <= 122) || c == '-' || c == '_'
}

proof fn lemma_trim_underscores_window(s: Seq<char>, i: int, j: int)
    requires
        0 <= i <= j <= s.len(),
        forall|k: int| 0 <= k < i ==> s[k] == '_',
        forall|k: int| j <= k < s.len() ==> s[k] == '_',
        i < j ==> s[i] != '_' && s[j - 1] != '_',
    ensures
        trim_underscores(s) == s.subrange(i, j),
    decreases s.len(),
{
    if s.len() > 0 && s[0] == '_' {
        let t = s.drop_first();
        let i2 = if i > 0 { i - 1 } else { 0 };
        let j2 = if j > 0 { j - 1 } else { 0 };
        assert(i == 0 ==> j == 0);
        assert forall|k: int| 0 <= k < i2 implies t[k] == '_' by {
            assert(t[k] == s[k + 1]);
        }
        assert forall|k: int| j2 <= k < t.len() implies t[k] == '_' by {
            assert(t[k] == s[k + 1]);
        }
        lemma_trim_underscores_window(t, i2, j2);
        assert(t.subrange(i2, j2) == s.subrange(i, j));
    } else if s.len() > 0 && s.last() == '_' {
        let t = s.drop_last();
        assert(j < s.len());
        lemma_trim_underscores_window(t, i, j);
        assert(t.subrange(i, j) == s.subrange(i, j));
    } else {
        if s.len() > 0 {
            assert(i == 0);
            assert(j == s.len());
        }
        assert(s.subrange(i, j) == s);
    }
}

/// The base name of a recording: characters other than ASCII letters,
/// digits, `-` and `_` become `_`, leading and trailing `_` go, and an
/// empty result becomes `AES67_recording`.
pub fn sanitize_filename(value: &str) -> (r: String)
    ensures
        r@ == sanitized(value@),
{
    let chars = to_chars(value);
    let n = chars.len();
    let mut mapped: Vec<char> = Vec::new();
    for k in 0..n
        invariant
            n == chars@.len(),
            chars@ == value@,
            mapped@ == name_chars(chars@.take(k as int)),
    {
        let c = chars[k];
        mapped.push(if is_name_char(c) {
            c
        } else {
            '_'
        });
        assert(name_chars(chars@.take(k + 1)) == name_chars(chars@.take(k as int)).push(
            if name_char(c) {
                c
            } else {
                '_'
            },
        ));
    }
    assert(chars@.take(n as int) == chars@);
    let mut i: usize = 0;
    while i < n && mapped[i] == '_'
        invariant
            n == mapped@.len(),
            i <= n,
            forall|k: int| 0 <= k < i ==> mapped@[k] == '_',
        decreases n - i,
    {
        i = i + 1;
    }
    let mut j: usize = n;
    while j > i && mapped[j - 1] == '_'
        invariant
            n == mapped@.len(),
            i <= j <= n,
            forall|k: int| j <= k < n ==> mapped@[k] == '_',
        decreases j,
    {
        j = j - 1;
    }
    proof {
        lemma_trim_underscores_window(mapped@, i as int, j as int);
    }
    if i == j {
        "AES67_recording".to_string()
    } else {
        from_chars(vstd::slice::slice_subrange(mapped.as_slice(), i, j))
    }
}

/// Law: sanitizing a base name twice gives what sanitizing it once gave.
pub proof fn lemma_sanitize_idempotent(value: Seq<char>)
    ensures
        sanitized(sanitized(value)) == sanitized(value),
{
    let s = sanitized(value);
    let t = trim_underscores(name_chars(value));
    lemma_trim_underscores_shape(name_chars(value));
    if t.len() == 0 {
        reveal_strlit("AES67_recording");
        assert(s == "AES67_recording"@);
        assert(name_chars(s) == s);
        lemma_trim_underscores_window(s, 0, s.len() as int);
        assert(s.subrange(0, s.len() as int) == s);
    } else {
        assert forall|k: int| 0 <= k < t.len() implies name_char(#[trigger] t[k]) by {}
        assert(name_chars(t) == t);
        lemma_trim_underscores_window(t, 0, t.len() as int);
        assert(t.subrange(0, t.len() as int) == t);
    }
}

proof fn lemma_trim_underscores_shape(s: Seq<char>)
    requires
        forall|k: int| 0 <= k < s.len() ==> name_char(#[trigger] s[k]),
    ensures
        forall|k: int| 0 <= k < trim_underscores(s).len() ==> name_char(#[trigger] trim_underscores(s)[k]),
        trim_underscores(s).len() > 0 ==> trim_underscores(s)[0] != '_' && trim_underscores(s).last() != '_',
    decreases s.len(),
{
    if s.len() > 0 && s[0] == '_' {
        let t = s.drop_first();
        assert forall|k: int| 0 <= k < t.len() implies name_char(#[trigger] t[k]) by {
            assert(t[k] == s[k + 1]);
        }
        lemma_trim_underscores_shape(t);
    } else if s.len() > 0 && s.last() == '_' {
        let t = s.drop_last();
        assert forall|k: int| 0 <= k < t.len() implies name_char(#[trigger] t[k]) by {
            assert(t[k] == s[k]);
        }
        lemma_trim_underscores_shape(t);
    }
}

/// Law: a base name made only of ASCII letters, digits, `-` and `_`, that
/// neither starts nor ends with `_`, is kept exactly as it is.
pub proof fn lemma_sanitize_keeps_plain_names(value: Seq<char>)
    requires
        value.len() > 0,
        forall|i: int|
            0 <= i < value.len() ==> ('a' <= #[trigger] value[i] && value[i] <= 'z') || ('A' <= value[i]
                && value[i] <= 'Z') || ('0' <= value[i] && value[i] <= '9') || value[i] == '-'
                || value[i] == '_',
        value[0] != '_',
        value.last() != '_',
    ensures
        sanitized(value) == value,
{
    assert(name_chars(value) =~= value) by {
        assert forall|i: int| 0 <= i < value.len() implies name_char(#[trigger] value[i]) by {}
    }
}

/// The file name of a segment: `{base}_{session}_part{segment:03}.wav`.
pub open spec fn segment_name(base_name: Seq<char>, session: u64, segment: u32) -> Seq<char> {
    base_name + "_"@ + decimal(session as nat) + "_part"@ + decimal_padded(segment as nat, 3)
        + ".wav"@
}

/// The file name of a segment of a recording.
pub fn segment_file_name(base_name: &str, session: u64, segment: u32) -> (r: String)
    ensures
        r@ == segment_name(base_name@, session, segment),
{
    let mut t = to_chars(base_name);
    append_str(&mut t, "_");
    append_chars(&mut t, decimal_chars(session).as_slice());
    append_str(&mut t, "_part");
    append_chars(&mut t, decimal_padded_chars(segment as u64, 3).as_slice());
    append_str(&mut t, ".wav");
    from_chars(t.as_slice())
}

/// A file name with no directory part: one or more ASCII letters, digits,
/// `-`, `_` and `.`, and neither `.` nor `..`.
pub open spec fn plain_file_name(s: Seq<char>) -> bool {
    &&& s.len() > 0
    &&& forall|k: int| 0 <= k < s.len() ==> name_char(#[trigger] s[k]) || s[k] == '.'
    &&& s != "."@
    &&& s != ".."@
}

/// Whether a folder path starts with the Windows verbatim prefix `\\?\`,
/// after which `Path::join` normalizes the whole path.
pub open spec fn verbatim_path(s: Seq<char>) -> bool {
    s.len() >= 4 && s.take(4) == seq!['\\', '\\', '?', '\\']
}

/// Whether `r` is `file` adjoined to `folder`: the folder, then no
/// separator, `/` or `\`, then the file.
pub open spec fn adjoined(r: Seq<char>, folder: Seq<char>, file: Seq<char>) -> bool {
    ||| r == folder + file
    ||| r == folder + seq!['/'] + file
    ||| r == folder + seq!['\\'] + file
}

/// Whether `r` is `file` joined onto `folder` as `Path::join` does it on
/// Unix and on Windows: the file alone after an empty folder, directly
/// after a folder that ends in `/`; after a folder that ends in `\` or is a
/// bare drive such as `C:`, with a separator or none, as the platform has
/// it; after any other folder, with a separator, `/` or `\`.
pub open spec fn joined_path(r: Seq<char>, folder: Seq<char>, file: Seq<char>) -> bool {
    if folder.len() == 0 {
        r == file
    } else if folder.last() == '/' {
        r == folder + file
    } else if folder.last() == '\\' || (folder.len() == 2 && folder[1] == ':') {
        adjoined(r, folder, file)
    } else {
        r == folder + seq!['/'] + file || r == folder + seq!['\\'] + file
    }
}

/// `file` joined onto the directory `folder` (`Path::join`, then
/// `to_string_lossy` on a path made of UTF-8 text). A plain file name is a
/// relative path of one normal component, which `Path::join` adjoins to the
/// folder after the platform's separator (`/` on Unix, `\` on Windows)
/// unless the folder is empty or already ends in a separator (`/` on both,
/// `\` on Windows); on Windows a bare drive such as `C:` takes none. A
/// folder with a verbatim prefix is normalized as a whole, so nothing is
/// claimed of it.
#[verifier::external_body]
fn join_path(folder: &str, file: &str) -> (r: String)
    ensures
        plain_file_name(file@) && !verbatim_path(folder@) ==> joined_path(r@, folder@, file@),
{
    std::path::Path::new(folder).join(file).to_string_lossy().to_string()
}

proof fn lemma_digits_plain(d: Seq<char>)
    requires
        all_digits(d),
    ensures
        forall|k: int| 0 <= k < d.len() ==> name_char(#[trigger] d[k]),
{
    assert forall|k: int| 0 <= k < d.len() implies name_char(#[trigger] d[k]) by {
        assert(is_digit(d[k]));
    }
}

/// A segment file name made from a base name of file-name characters has
/// no directory part.
proof fn lemma_segment_name_plain(base_name: Seq<char>, session: u64, segment: u32)
    requires
        forall|k: int| 0 <= k < base_name.len() ==> name_char(#[trigger] base_name[k]),
    ensures
        plain_file_name(segment_name(base_name, session, segment)),
{
    reveal_strlit("_");
    reveal_strlit("_part");
    reveal_strlit(".wav");
    reveal_strlit(".");
    reveal_strlit("..");
    let d1 = decimal(session as nat);
    lemma_decimal_digits(session as nat);
    lemma_decimal_digits(segment as nat);
    let d2 = decimal_padded(segment as nat, 3);
    lemma_digits_plain(d1);
    lemma_digits_plain(decimal(segment as nat));
    assert forall|k: int| 0 <= k < d2.len() implies name_char(#[trigger] d2[k]) by {
        let d = decimal(segment as nat);
        if d.len() < 3 {
            let z = Seq::new((3 - d.len()) as nat, |i: int| '0');
            if k >= z.len() {
                assert(d2[k] == d[k - z.len()]);
            }
        }
    }
    let s = segment_name(base_name, session, segment);
    let a = base_name + "_"@;
    let b = a + d1;
    let c = b + "_part"@;
    let e = c + d2;
    assert(s == e + ".wav"@);
    assert forall|k: int| 0 <= k < s.len() implies name_char(#[trigger] s[k]) || s[k] == '.' by {
        if k < base_name.len() {
            assert(s[k] == base_name[k]);
        } else if k < a.len() {
            assert(s[k] == '_');
        } else if k < b.len() {
            assert(s[k] == d1[k - a.len()]);
        } else if k < c.len() {
            assert(s[k] == "_part"@[k - b.len()]);
        } else if k < e.len() {
            assert(s[k] == d2[k - c.len()]);
        } else {
            assert(s[k] == ".wav"@[k - e.len()]);
        }
    }
    assert(s.len() >= 9);
}

/// The path of a segment file of a recording inside `folder`: the folder,
/// the platform's separator unless the folder is empty or ends in one, and
/// the segment's file name, when the base name is made of file-name
/// characters and the folder has no verbatim prefix.
pub fn segment_path(folder: &str, base_name: &str, session: u64, segment: u32) -> (r: String)
    ensures
        (forall|k: int| 0 <= k < base_name@.len() ==> name_char(#[trigger] base_name@[k]))
            && !verbatim_path(folder@) ==> joined_path(
            r@,
            folder@,
            segment_name(base_name@, session, segment),
        ),
{
    let name = segment_file_name(base_name, session, segment);
    proof {
        if forall|k: int| 0 <= k < base_name@.len() ==> name_char(#[trigger] base_name@[k]) {
            lemma_segment_name_plain(base_name@, session, segment);
        }
    }
    join_path(folder, name.as_str())
}

/// The error that a recording request meets first among the checks made
/// before the folder is looked at, if any.
pub open spec fn recording_request_error(codec: Seq<char>, channels: u16, selected: Seq<u16>) -> Option<
    Seq<char>,
> {
    if codec_named(codec) is None {
        Some("Registrazione disponibile soltanto per L16/L24"@)
    } else if selected.len() == 0 {
        Some("Seleziona almeno un canale"@)
    } else if !channels_valid(selected, channels) {
        Some("Selezione canali non valida"@)
    } else {
        None
    }
}

/// Checks the codec and the channel selection of a recording request.
pub fn check_recording_request(codec: &str, channels: u16, selected: &[u16]) -> (r: Result<Codec, String>)
    ensures
        r is Err <==> recording_request_error(codec@, channels, selected@) is Some,
        r matches Err(e) ==> recording_request_error(codec@, channels, selected@) == Some(e@),
        r matches Ok(c) ==> codec_named(codec@) == Some(c),
        r is Ok ==> selected@.len() > 0 && forall|i: int| 0 <= i < selected@.len() ==> #[trigger] selected@[i]
            < channels,
{
    let c = match parse_codec(codec) {
        Some(c) => c,
        None => return Err("Registrazione disponibile soltanto per L16/L24".to_string()),
    };
    if selected.len() == 0 {
        return Err("Seleziona almeno un canale".to_string());
    }
    if !check_channels(selected, channels) {
        return Err("Selezione canali non valida".to_string());
    }
    Ok(c)
}

/// Reads the group and interface addresses of a recording request.
pub fn parse_recording_addresses(address: &str, interface_ip: &str) -> (r: Result<
    (Ipv4Address, Ipv4Address),
    String,
>)
    ensures
        ipv4_from_text(address@) is None ==> (r matches Err(e) && e@ == "Indirizzo multicast non valido"@),
        ipv4_from_text(address@) is Some && ipv4_from_text(interface_ip@) is None ==> (r matches Err(
            e,
        ) && e@ == "Interfaccia non valida"@),
        ipv4_from_text(address@) is Some && ipv4_from_text(interface_ip@) is Some ==> r == Ok::<
            (Ipv4Address, Ipv4Address),
            String,
        >((ipv4_from_text(address@)->0, ipv4_from_text(interface_ip@)->0)),
        r matches Ok((g, i)) ==> ipv4_from_text(address@) == Some(g) && ipv4_from_text(interface_ip@)
            == Some(i),
{
    let group = match parse_ipv4(address) {
        Some(a) => a,
        None => return Err("Indirizzo multicast non valido".to_string()),
    };
    let interface = match parse_ipv4(interface_ip) {
        Some(a) => a,
        None => return Err("Interfaccia non valida".to_string()),
    };
    Ok((group, interface))
}

/// The number of complete frames that a payload holds.
pub open spec fn frames_in(payload_len: nat, frame_size: nat) -> nat {
    if frame_size == 0 {
        0
    } else {
        payload_len / frame_size
    }
}

/// The samples that a packet adds to the recording, channel by channel and
/// frame by frame, and the number of complete frames they come from.
pub fn recording_samples(codec: Codec, payload: &[u8], source_channels: usize, selected: &[usize]) -> (r: (
    Vec<i32>,
    u64,
))
    requires
        source_channels * 3 <= usize::MAX,
        forall|i: int| 0 <= i < selected@.len() ==> #[trigger] selected@[i] < source_channels,
    ensures
        r.0@.map_values(|v: i32| v as int) == selected_samples(
            codec,
            payload@,
            (source_channels * sample_bytes(codec)) as nat,
            selected@,
        ),
        r.1 == frames_in(payload@.len(), (source_channels * sample_bytes(codec)) as nat),
{
    let samples = crate::pcm::select_samples(codec, payload, source_channels, selected);
    let bps = crate::pcm::bytes_per_sample(codec);
    assert(source_channels * bps <= source_channels * 3) by (nonlinear_arith)
        requires
            bps <= 3,
    ;
    let frame_size = source_channels * bps;
    let frames: u64 = if frame_size == 0 {
        0
    } else {
        (payload.len() / frame_size) as u64
    };
    (samples, frames)
}

/// Where a recording stands: the current segment, the frames in it, and
/// the frames written in all.
pub struct RecorderProgress {
    pub bytes_per_sample: u64,
    pub output_channels: u16,
    pub segment_limit: u64,
    pub segment: u32,
    pub segment_frames: u64,
    pub total_frames: u64,
}

impl RecorderProgress {
    /// A recording about to write its first segment; segments are split
    /// every `split_minutes` minutes of audio, never when it is 0.
    pub fn new(codec: Codec, sample_rate: u32, split_minutes: u32, output_channels: u16) -> (r:
        RecorderProgress)
        requires
            sample_rate * split_minutes * 60 <= u64::MAX,
        ensures
            r.bytes_per_sample == sample_bytes(codec),
            r.output_channels == output_channels,
            r.segment_limit == (if split_minutes == 0 {
                0
            } else {
                sample_rate * split_minutes * 60
            }),
            r.segment == 1,
            r.segment_frames == 0,
            r.total_frames == 0,
    {
        let limit: u64 = if split_minutes == 0 {
            0
        } else {
            (sample_rate as u64) * (split_minutes as u64) * 60
        };
        RecorderProgress {
            bytes_per_sample: crate::pcm::bytes_per_sample(codec) as u64,
            output_channels,
            segment_limit: limit,
            segment: 1,
            segment_frames: 0,
            total_frames: 0,
        }
    }

    /// The bytes of audio written so far.
    pub fn bytes_written(&self) -> (r: u64)
        requires
            self.total_frames * self.output_channels * self.bytes_per_sample <= u64::MAX,
        ensures
            r == self.total_frames * self.output_channels * self.bytes_per_sample,
    {
        let a = self.total_frames;
        let b = self.output_channels as u64;
        let c = self.bytes_per_sample;
        if b == 0 || c == 0 {
            assert(a * b * c == 0) by (nonlinear_arith)
                requires
                    b == 0 || c == 0,
            ;
            return 0;
        }
        assert(a * b <= a * b * c) by (nonlinear_arith)
            requires
                c >= 1,
        ;
        a * b * c
    }

    /// Adds the frames of one packet; when the current segment has reached
    /// its length, the recording moves to the next segment and the result
    /// is true.
    pub fn add_frames(&mut self, frames: u64) -> (rotated: bool)
        requires
            old(self).segment_frames + frames <= u64::MAX,
            old(self).total_frames + frames <= u64::MAX,
            old(self).segment_limit > 0 && old(self).segment_frames + frames >= old(
                self,
            ).segment_limit ==> old(self).segment < u32::MAX,
        ensures
            final(self).total_frames == old(self).total_frames + frames,
            rotated == (old(self).segment_limit > 0 && old(self).segment_frames + frames
                >= old(self).segment_limit),
            rotated ==> final(self).segment == old(self).segment + 1 && final(self).segment_frames
                == 0,
            !rotated ==> final(self).segment == old(self).segment && final(self).segment_frames
                == old(self).segment_frames + frames,
            final(self).segment_limit == old(self).segment_limit,
            final(self).output_channels == old(self).output_channels,
            final(self).bytes_per_sample == old(self).bytes_per_sample,
    {
        self.segment_frames = self.segment_frames + frames;
        self.total_frames = self.total_frames + frames;
        if self.segment_limit > 0 && self.segment_frames >= self.segment_limit {
            self.segment = self.segment + 1;
            self.segment_frames = 0;
            true
        } else {
            false
        }
    }
}

} // verus!
