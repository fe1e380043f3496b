//! Character-level text handling shared by the session-description,
//! address and naming logic: whitespace, trimming, splitting, prefixes,
//! unsigned decimal numbers and their rendering.
use vstd::prelude::*;

verus! {

/// Unicode `White_Space`, the class that `char::is_whitespace` tests.
pub open spec fn is_whitespace(c: char) -> bool {
    let u = c as u32;
    ||| (9 <= u && u <= 13)
    ||| u == 32
    ||| u == 0x85
    ||| u == 0xa0
    ||| u == 0x1680
    ||| (0x2000 <= u && u <= 0x200a)
    ||| u == 0x2028
    ||| u == 0x2029
    ||| u == 0x202f
    ||| u == 0x205f
    ||| u == 0x3000
}

/// `s` without its leading whitespace.
pub open spec fn trim_start(s: Seq<char>) -> Seq<char>
    decreases s.len(),
{
    if s.len() > 0 && is_whitespace(s[0]) {
        trim_start(s.drop_first())
    } else {
        s
    }
}

/// `s` without its trailing whitespace.
pub open spec fn trim_end(s: Seq<char>) -> Seq<char>
    decreases s.len(),
{
    if s.len() > 0 && is_whitespace(s.last()) {
        trim_end(s.drop_last())
    } else {
        s
    }
}

/// `s` without whitespace at either end.
pub open spec fn trim(s: Seq<char>) -> Seq<char> {
    trim_end(trim_start(s))
}

/// What separates the pieces when a text is split.
#[derive(Clone, Copy)]
pub enum Separator {
    /// One given character.
    Char(char),
    /// Any whitespace character.
    Whitespace,
}

pub open spec fn separates(sep: Separator, c: char) -> bool {
    match sep {
        Separator::Char(d) => c == d,
        Separator::Whitespace => is_whitespace(c),
    }
}

/// The pieces of `s` between separators, empty ones included: a text with
/// `k` separators has `k + 1` pieces.
pub open spec fn split_by(s: Seq<char>, sep: Separator) -> Seq<Seq<char>>
    decreases s.len(),
{
    if s.len() == 0 {
        seq![Seq::empty()]
    } else {
        let prev = split_by(s.drop_last(), sep);
        if separates(sep, s.last()) {
            prev.push(Seq::empty())
        } else {
            prev.update(prev.len() - 1, prev.last().push(s.last()))
        }
    }
}

pub open spec fn is_nonempty(t: Seq<char>) -> bool {
    t.len() > 0
}

/// The whitespace-separated words of `s`, as `str::split_whitespace` gives them.
pub open spec fn words(s: Seq<char>) -> Seq<Seq<char>> {
    split_by(s, Separator::Whitespace).filter(nonempty_piece())
}

pub open spec fn nonempty_piece() -> spec_fn(Seq<char>) -> bool {
    |t: Seq<char>| is_nonempty(t)
}

/// Whether `s` begins with `p`.
pub open spec fn has_prefix(s: Seq<char>, p: Seq<char>) -> bool {
    p.len() <= s.len() && s.take(p.len() as int) == p
}

/// Whether `p` occurs in `s`.
pub open spec fn contains_seq(s: Seq<char>, p: Seq<char>) -> bool {
    exists|i: int| 0 <= i && i + p.len() <= s.len() && #[trigger] s.subrange(i, i + p.len()) == p
}

pub proof fn lemma_split_by_nonempty(s: Seq<char>, sep: Separator)
    ensures
        split_by(s, sep).len() >= 1,
    decreases s.len(),
{
    if s.len() > 0 {
        lemma_split_by_nonempty(s.drop_last(), sep);
    }
}

/// The characters of `s`, in order.
pub fn to_chars(s: &str) -> (v: Vec<char>)
    ensures
        v@ == s@,
{
    let mut v: Vec<char> = Vec::new();
    for c in it: s.chars()
        invariant
            v@ == it.seq().take(it.index() as int),
            it.seq() == s@,
    {
        v.push(c);
    }
    v
}

/// Appends one character to a `String` (`String::push`).
#[verifier::external_body]
fn string_push(s: &mut String, c: char)
    ensures
        final(s)@ == old(s)@.push(c),
{
    s.push(c)
}

/// The text made of the characters of `v`.
pub fn from_chars(v: &[char]) -> (s: String)
    ensures
        s@ == v@,
{
    let mut s = String::new();
    let n = v.len();
    for i in 0..n
        invariant
            n == v@.len(),
            s@ == v@.take(i as int),
    {
        string_push(&mut s, v[i]);
        assert(v@.take(i + 1) == v@.take(i as int).push(v@[i as int]));
    }
    assert(v@.take(n as int) == v@);
    s
}

pub fn is_whitespace_char(c: char) -> (r: bool)
    ensures
        r == is_whitespace(c),
{
    let u = c as u32;
    (9 <= u && u <= 13) || u == 32 || u == 0x85 || u == 0xa0 || u == 0x1680 || (0x2000 <= u && u
        <= 0x200a) || u == 0x2028 || u == 0x2029 || u == 0x202f || u == 0x205f || u == 0x3000
}

/// `s` without whitespace at either end (`str::trim`).
pub fn trim_chars(s: &[char]) -> (r: Vec<char>)
    ensures
        r@ == trim(s@),
{
    let n = s.len();
    let mut i: usize = 0;
    assert(s@.skip(0) == s@);
    while i < n && is_whitespace_char(s[i])
        invariant
            n == s@.len(),
            i <= n,
            trim_start(s@) == trim_start(s@.skip(i as int)),
        decreases n - i,
    {
        assert(s@.skip(i as int).drop_first() == s@.skip(i + 1));
        i = i + 1;
    }
    assert(trim_start(s@.skip(i as int)) == s@.skip(i as int));
    let mut j: usize = n;
    while j > i && is_whitespace_char(s[j - 1])
        invariant
            n == s@.len(),
            i <= j <= n,
            trim_end(s@.skip(i as int)) == trim_end(s@.subrange(i as int, j as int)),
        decreases j,
    {
        assert(s@.subrange(i as int, j as int).drop_last() == s@.subrange(i as int, j - 1));
        j = j - 1;
    }
    assert(s@.skip(i as int) == s@.subrange(i as int, n as int));
    vstd::slice::slice_to_vec(vstd::slice::slice_subrange(s, i, j))
}

pub fn separates_char(sep: Separator, c: char) -> (r: bool)
    ensures
        r == separates(sep, c),
{
    match sep {
        Separator::Char(d) => c == d,
        Separator::Whitespace => is_whitespace_char(c),
    }
}

/// The views of a vector of character vectors.
pub open spec fn views(parts: Seq<Vec<char>>) -> Seq<Seq<char>> {
    parts.map_values(|v: Vec<char>| v@)
}

/// The pieces of `s` between separators (`str::split`), empty ones included.
pub fn split_chars(s: &[char], sep: Separator) -> (parts: Vec<Vec<char>>)
    ensures
        views(parts@) == split_by(s@, sep),
{
    let n = s.len();
    let mut parts: Vec<Vec<char>> = Vec::new();
    let mut cur: Vec<char> = Vec::new();
    assert(s@.take(0) == Seq::<char>::empty());
    assert(views(parts@).push(cur@) == seq![Seq::<char>::empty()]);
    for i in 0..n
        invariant
            n == s@.len(),
            split_by(s@.take(i as int), sep) == views(parts@).push(cur@),
    {
        let c = s[i];
        let ghost t = s@.take(i + 1);
        let ghost prev_parts = parts@;
        let ghost prev_cur = cur@;
        assert(t.drop_last() == s@.take(i as int));
        assert(t.last() == c);
        if separates_char(sep, c) {
            parts.push(cur);
            cur = Vec::new();
            assert(views(parts@) == views(prev_parts).push(prev_cur));
            assert(split_by(t, sep) == views(prev_parts).push(prev_cur).push(Seq::empty()));
        } else {
            cur.push(c);
            assert(split_by(t, sep) == views(prev_parts).push(prev_cur).update(
                prev_parts.len() as int,
                prev_cur.push(c),
            ));
            assert(views(prev_parts).push(prev_cur).update(prev_parts.len() as int, prev_cur.push(c))
                == views(parts@).push(cur@));
        }
    }
    assert(s@.take(n as int) == s@);
    let ghost last_parts = parts@;
    parts.push(cur);
    assert(views(parts@) == views(last_parts).push(cur@));
    parts
}

/// The whitespace-separated words of `s` (`str::split_whitespace`).
pub fn split_words(s: &[char]) -> (ws: Vec<Vec<char>>)
    ensures
        views(ws@) == words(s@),
{
    let parts = split_chars(s, Separator::Whitespace);
    let ghost all = views(parts@);
    let mut ws: Vec<Vec<char>> = Vec::new();
    let n = parts.len();
    reveal(Seq::filter);
    assert(all.take(0) == Seq::<Seq<char>>::empty());
    for i in 0..n
        invariant
            n == parts@.len(),
            all == views(parts@),
            views(ws@) == all.take(i as int).filter(nonempty_piece()),
    {
        let ghost prev = ws@;
        reveal(Seq::filter);
        assert(all.take(i + 1).drop_last() == all.take(i as int));
        assert(all.take(i + 1).last() == parts@[i as int]@);
        if parts[i].len() > 0 {
            let piece = vstd::slice::slice_to_vec(parts[i].as_slice());
            ws.push(piece);
            assert(views(ws@) == views(prev).push(parts@[i as int]@));
        }
    }
    assert(all.take(n as int) == all);
    ws
}

/// Whether `s` begins with `p` (`str::starts_with`).
pub fn starts_with(s: &[char], p: &[char]) -> (r: bool)
    ensures
        r == has_prefix(s@, p@),
{
    if p.len() > s.len() {
        return false;
    }
    let n = p.len();
    for i in 0..n
        invariant
            n == p@.len(),
            n <= s@.len(),
            forall|k: int| 0 <= k < i ==> s@[k] == p@[k],
    {
        if s[i] != p[i] {
            assert(s@.take(n as int)[i as int] != p@[i as int]);
            return false;
        }
    }
    assert(s@.take(n as int) == p@);
    true
}

/// Whether `p` occurs in `s` (`str::contains`).
pub fn contains_chars(s: &[char], p: &[char]) -> (r: bool)
    ensures
        r == contains_seq(s@, p@),
{
    if p.len() == 0 {
        assert(s@.subrange(0, 0 + p@.len() as int) == p@);
        return true;
    }
    if p.len() > s.len() {
        return false;
    }
    let last = s.len() - p.len();
    let mut i: usize = 0;
    while i <= last
        invariant
            last == s@.len() - p@.len(),
            p@.len() >= 1,
            s@.len() == s.len(),
            i <= last + 1,
            forall|k: int| 0 <= k < i ==> #[trigger] s@.subrange(k, k + p@.len()) != p@,
        decreases last + 1 - i,
    {
        let rest = vstd::slice::slice_subrange(s, i, s.len());
        if starts_with(rest, p) {
            assert(rest@.take(p@.len() as int) == s@.subrange(i as int, i + p@.len()));
            return true;
        }
        assert(rest@.take(p@.len() as int) == s@.subrange(i as int, i + p@.len()));
        i = i + 1;
    }
    false
}

/// The chracters `p` followed by `q`.
pub fn concat_chars(p: &[char], q: &[char]) -> (r: Vec<char>)
    ensures
        r@ == p@ + q@,
{
    let mut r = vstd::slice::slice_to_vec(p);
    let n = q.len();
    for i in 0..n
        invariant
            n == q@.len(),
            r@ == p@ + q@.take(i as int),
    {
        r.push(q[i]);
        assert(q@.take(i + 1) == q@.take(i as int).push(q@[i as int]));
    }
    assert(q@.take(n as int) == q@);
    r
}

pub open spec fn is_digit(c: char) -> bool {
    48 <= (c as u32) && (c as u32) <= 57
}

pub open spec fn digit_value(c: char) -> nat {
    ((c as u32) - 48) as nat
}

pub open spec fn all_digits(s: Seq<char>) -> bool {
    forall|i: int| 0 <= i < s.len() ==> #[trigger] is_digit(s[i])
}

/// The number written by the decimal digits `s`.
pub open spec fn digits_value(s: Seq<char>) -> nat
    decreases s.len(),
{
    if s.len() == 0 {
        0
    } else {
        digits_value(s.drop_last()) * 10 + digit_value(s.last())
    }
}

/// How `str::parse` reads an unsigned integer whose largest value is `max`:
/// an optional `+`, then one or more ASCII digits whose value fits.
pub open spec fn parse_unsigned(s: Seq<char>, max: nat) -> Option<nat> {
    let d = if s.len() > 0 && s[0] == '+' {
        s.drop_first()
    } else {
        s
    };
    if d.len() > 0 && all_digits(d) && digits_value(d) <= max {
        Some(digits_value(d))
    } else {
        None
    }
}

pub proof fn lemma_digits_value_prefix(s: Seq<char>, j: int)
    requires
        all_digits(s),
        0 <= j <= s.len(),
    ensures
        digits_value(s.take(j)) <= digits_value(s),
    decreases s.len(),
{
    if j < s.len() {
        let t = s.drop_last();
        assert(all_digits(t)) by {
            assert forall|i: int| 0 <= i < t.len() implies #[trigger] is_digit(t[i]) by {
                assert(is_digit(s[i]));
            }
        }
        lemma_digits_value_prefix(t, j);
        assert(t.take(j) == s.take(j));
    } else {
        assert(s.take(j) == s);
    }
}

/// Reads an unsigned decimal number no larger than `max` (`str::parse`).
pub fn parse_unsigned_chars(s: &[char], max: u64) -> (r: Option<u64>)
    requires
        max <= u32::MAX,
    ensures
        r == (match parse_unsigned(s@, max as nat) {
            Some(v) => Some(v as u64),
            None => None,
        }),
{
    let start: usize = if s.len() > 0 && s[0] == '+' {
        1
    } else {
        0
    };
    let ghost d = s@.skip(start as int);
    assert(d == (if s@.len() > 0 && s@[0] == '+' { s@.drop_first() } else { s@ }));
    if start == s.len() {
        return None;
    }
    let n = s.len();
    let mut acc: u64 = 0;
    let mut i: usize = start;
    assert(d.take(0) == Seq::<char>::empty());
    while i < n
        invariant
            start <= i <= n,
            n == s@.len(),
            d == s@.skip(start as int),
            d == (if s@.len() > 0 && s@[0] == '+' { s@.drop_first() } else { s@ }),
            start < n,
            max <= u32::MAX,
            acc <= max,
            acc == digits_value(d.take(i - start)),
            all_digits(d.take(i - start)),
        decreases n - i,
    {
        let c = s[i];
        let ghost k = (i - start) as int;
        assert(d[k] == c);
        if !((c as u32) >= 48 && (c as u32) <= 57) {
            assert(!all_digits(d)) by {
                assert(!is_digit(d[k]));
            }
            return None;
        }
        let value = acc * 10 + ((c as u32) - 48) as u64;
        assert(d.take(k + 1).drop_last() == d.take(k));
        assert(d.take(k + 1).last() == c);
        assert(all_digits(d.take(k + 1))) by {
            assert forall|j: int| 0 <= j < k + 1 implies #[trigger] is_digit(d.take(k + 1)[j]) by {
                if j < k {
                    assert(d.take(k + 1)[j] == d.take(k)[j]);
                }
            }
        }
        if value > max {
            proof {
                if all_digits(d) {
                    lemma_digits_value_prefix(d, k + 1);
                }
            }
            return None;
        }
        acc = value;
        i = i + 1;
    }
    assert(d.take(n - start) == d);
    Some(acc)
}

pub open spec fn digit_char(d: nat) -> char {
    (d + 48) as char
}

/// The decimal digits of `n`, without leading zeros (`{}` formatting).
pub open spec fn decimal(n: nat) -> Seq<char>
    decreases n,
{
    if n < 10 {
        seq![digit_char(n)]
    } else {
        decimal(n / 10).push(digit_char(n % 10))
    }
}

/// The decimal digits of `n`, padded with zeros on the left to at least
/// `width` characters (`{:0width$}` formatting).
pub open spec fn decimal_padded(n: nat, width: nat) -> Seq<char> {
    let d = decimal(n);
    if d.len() < width {
        Seq::new((width - d.len()) as nat, |i: int| '0') + d
    } else {
        d
    }
}

pub open spec fn hex_digit(d: nat, upper: bool) -> char {
    if d < 10 {
        (d + 48) as char
    } else if upper {
        (d + 55) as char
    } else {
        (d + 87) as char
    }
}

/// The lower-case hexadecimal digits of `n`, without leading zeros (`{:x}`).
pub open spec fn hex_lower(n: nat) -> Seq<char>
    decreases n,
{
    if n < 16 {
        seq![hex_digit(n, false)]
    } else {
        hex_lower(n / 16).push(hex_digit(n % 16, false))
    }
}

/// The two upper-case hexadecimal digits of a byte (`{:02X}`).
pub open spec fn hex_byte_upper(b: u8) -> Seq<char> {
    seq![hex_digit((b / 16) as nat, true), hex_digit((b % 16) as nat, true)]
}

fn digit_to_char(d: u64) -> (c: char)
    requires
        d < 10,
    ensures
        c == digit_char(d as nat),
{
    ((d as u8) + 48) as char
}

fn hex_to_char(d: u64, upper: bool) -> (c: char)
    requires
        d < 16,
    ensures
        c == hex_digit(d as nat, upper),
{
    if d < 10 {
        ((d as u8) + 48) as char
    } else if upper {
        ((d as u8) + 55) as char
    } else {
        ((d as u8) + 87) as char
    }
}

/// The decimal digits of `n` (`{}` formatting).
pub fn decimal_chars(n: u64) -> (r: Vec<char>)
    ensures
        r@ == decimal(n as nat),
    decreases n,
{
    if n < 10 {
        let mut r = Vec::new();
        r.push(digit_to_char(n));
        r
    } else {
        let mut r = decimal_chars(n / 10);
        r.push(digit_to_char(n % 10));
        r
    }
}

/// The decimal digits of `n`, zero-padded to `width` characters.
pub fn decimal_padded_chars(n: u64, width: usize) -> (r: Vec<char>)
    ensures
        r@ == decimal_padded(n as nat, width as nat),
{
    let d = decimal_chars(n);
    if d.len() < width {
        let k = width - d.len();
        let mut r: Vec<char> = Vec::new();
        for i in 0..k
            invariant
                r@ == Seq::new(i as nat, |j: int| '0'),
        {
            r.push('0');
            assert(r@ == Seq::new((i + 1) as nat, |j: int| '0'));
        }
        concat_chars(r.as_slice(), d.as_slice())
    } else {
        d
    }
}

/// The lower-case hexadecimal digits of `n` (`{:x}` formatting).
pub fn hex_lower_chars(n: u64) -> (r: Vec<char>)
    ensures
        r@ == hex_lower(n as nat),
    decreases n,
{
    if n < 16 {
        let mut r = Vec::new();
        r.push(hex_to_char(n, false));
        r
    } else {
        let mut r = hex_lower_chars(n / 16);
        r.push(hex_to_char(n % 16, false));
        r
    }
}

/// Appends the two upper-case hexadecimal digits of `b` to `r` (`{:02X}`).
pub fn push_hex_byte_upper(r: &mut Vec<char>, b: u8)
    ensures
        final(r)@ == old(r)@ + hex_byte_upper(b),
{
    r.push(hex_to_char((b / 16) as u64, true));
    r.push(hex_to_char((b % 16) as u64, true));
    assert(r@ == old(r)@ + hex_byte_upper(b));
}

/// Lexicographic order of texts by character code, which is the byte order
/// of their UTF-8 encodings (`Ord for str`): `a` comes no later than `b`.
pub open spec fn text_le(a: Seq<char>, b: Seq<char>) -> bool
    decreases a.len(),
{
    if a.len() == 0 {
        true
    } else if b.len() == 0 {
        false
    } else if (a[0] as u32) < (b[0] as u32) {
        true
    } else if (a[0] as u32) > (b[0] as u32) {
        false
    } else {
        text_le(a.drop_first(), b.drop_first())
    }
}

pub proof fn lemma_text_le_total(a: Seq<char>, b: Seq<char>)
    ensures
        text_le(a, b) || text_le(b, a),
    decreases a.len(),
{
    if a.len() > 0 && b.len() > 0 && (a[0] as u32) == (b[0] as u32) {
        lemma_text_le_total(a.drop_first(), b.drop_first());
    }
}

pub proof fn lemma_text_le_transitive(a: Seq<char>, b: Seq<char>, c: Seq<char>)
    requires
        text_le(a, b),
        text_le(b, c),
    ensures
        text_le(a, c),
    decreases a.len(),
{
    if a.len() > 0 && b.len() > 0 && c.len() > 0 && (a[0] as u32) == (b[0] as u32) && (b[0] as u32)
        == (c[0] as u32) {
        lemma_text_le_transitive(a.drop_first(), b.drop_first(), c.drop_first());
    }
}

/// Whether `a` comes no later than `b` in text order.
pub fn text_le_chars(a: &[char], b: &[char]) -> (r: bool)
    ensures
        r == text_le(a@, b@),
{
    let mut i: usize = 0;
    assert(a@.skip(0) == a@ && b@.skip(0) == b@);
    while i < a.len() && i < b.len() && (a[i] as u32) == (b[i] as u32)
        invariant
            i <= a@.len(),
            i <= b@.len(),
            text_le(a@, b@) == text_le(a@.skip(i as int), b@.skip(i as int)),
        decreases a@.len() - i,
    {
        assert(a@.skip(i as int).drop_first() == a@.skip(i + 1));
        assert(b@.skip(i as int).drop_first() == b@.skip(i + 1));
        i = i + 1;
    }
    if i == a.len() {
        true
    } else if i == b.len() {
        false
    } else {
        assert(a@.skip(i as int)[0] == a@[i as int] && b@.skip(i as int)[0] == b@[i as int]);
        (a[i] as u32) < (b[i] as u32)
    }
}

/// Whether two character sequences are equal.
pub fn chars_eq(a: &[char], b: &[char]) -> (r: bool)
    ensures
        r == (a@ == b@),
{
    if a.len() != b.len() {
        return false;
    }
    let n = a.len();
    for i in 0..n
        invariant
            n == a@.len(),
            n == b@.len(),
            forall|k: int| 0 <= k < i ==> a@[k] == b@[k],
    {
        if a[i] != b[i] {
            return false;
        }
    }
    assert(a@ == b@);
    true
}

pub open spec fn free_of(s: Seq<char>, sep: Separator) -> bool {
    forall|i: int| 0 <= i < s.len() ==> !separates(sep, #[trigger] s[i])
}

/// A text without separators is a single piece.
pub proof fn lemma_split_single(y: Seq<char>, sep: Separator)
    requires
        free_of(y, sep),
    ensures
        split_by(y, sep) == seq![y],
    decreases y.len(),
{
    if y.len() > 0 {
        let t = y.drop_last();
        assert(free_of(t, sep)) by {
            assert forall|i: int| 0 <= i < t.len() implies !separates(sep, #[trigger] t[i]) by {
                assert(t[i] == y[i]);
            }
        }
        lemma_split_single(t, sep);
        assert(!separates(sep, y[y.len() - 1]));
        assert(t.push(y.last()) == y);
    } else {
        assert(y == Seq::<char>::empty());
    }
}

/// Appending text without separators extends the last piece.
pub proof fn lemma_split_extend(x: Seq<char>, y: Seq<char>, sep: Separator)
    requires
        free_of(y, sep),
    ensures
        split_by(x + y, sep) == split_by(x, sep).update(
            split_by(x, sep).len() - 1,
            split_by(x, sep).last() + y,
        ),
    decreases y.len(),
{
    lemma_split_by_nonempty(x, sep);
    if y.len() == 0 {
        assert(x + y == x);
        assert(split_by(x, sep).last() + y == split_by(x, sep).last());
        assert(split_by(x, sep).update(split_by(x, sep).len() - 1, split_by(x, sep).last())
            == split_by(x, sep));
    } else {
        let t = y.drop_last();
        assert(free_of(t, sep)) by {
            assert forall|i: int| 0 <= i < t.len() implies !separates(sep, #[trigger] t[i]) by {
                assert(t[i] == y[i]);
            }
        }
        lemma_split_extend(x, t, sep);
        assert((x + y).drop_last() == x + t);
        assert((x + y).last() == y.last());
        assert(!separates(sep, y[y.len() - 1]));
        lemma_split_by_nonempty(x + t, sep);
        assert((split_by(x, sep).last() + t).push(y.last()) == split_by(x, sep).last() + y);
    }
}

/// A separator followed by text without separators adds one piece.
pub proof fn lemma_split_append_piece(x: Seq<char>, c: char, y: Seq<char>, sep: Separator)
    requires
        separates(sep, c),
        free_of(y, sep),
    ensures
        split_by(x.push(c) + y, sep) == split_by(x, sep).push(y),
{
    lemma_split_extend(x.push(c), y, sep);
    assert(x.push(c).drop_last() == x);
    assert(split_by(x.push(c), sep) == split_by(x, sep).push(Seq::empty()));
    assert(Seq::<char>::empty() + y == y);
}

pub proof fn lemma_decimal_digits(n: nat)
    ensures
        all_digits(decimal(n)),
        digits_value(decimal(n)) == n,
        decimal(n).len() >= 1,
        decimal(n)[0] != '0' || n == 0,
        n < 10 ==> decimal(n).len() == 1,
        10 <= n < 100 ==> decimal(n).len() == 2,
        100 <= n < 1000 ==> decimal(n).len() == 3,
    decreases n,
{
    if n >= 10 {
        lemma_decimal_digits(n / 10);
        let d = decimal(n / 10);
        let e = decimal(n);
        assert(e == d.push(digit_char(n % 10)));
        assert(e.drop_last() == d);
        assert(all_digits(e)) by {
            assert forall|i: int| 0 <= i < e.len() implies #[trigger] is_digit(e[i]) by {
                if i < d.len() {
                    assert(e[i] == d[i]);
                }
            }
        }
        assert(e[0] == d[0]);
        assert(((n % 10 + 48) as char) as u32 == n % 10 + 48);
        assert(digit_value(e.last()) == n % 10);
        assert(digits_value(e) == digits_value(d) * 10 + digit_value(e.last()));
        assert(n == (n / 10) * 10 + n % 10);
        assert(digits_value(e) == n);
    } else {
        assert((n + 48) as char as u32 == n + 48);
        assert(decimal(n).drop_last() == Seq::<char>::empty());
        assert(digit_value(decimal(n).last()) == n);
        assert(digits_value(Seq::<char>::empty()) == 0);
        assert(digits_value(decimal(n)) == n);
    }
}

/// Appends the characters of `s`.
pub fn append_str(v: &mut Vec<char>, s: &str)
    ensures
        final(v)@ == old(v)@ + s@,
{
    let c = to_chars(s);
    append_chars(v, c.as_slice());
}

/// Appends the characters `s`.
pub fn append_chars(v: &mut Vec<char>, s: &[char])
    ensures
        final(v)@ == old(v)@ + s@,
{
    let n = s.len();
    for i in 0..n
        invariant
            n == s@.len(),
            v@ == old(v)@ + s@.take(i as int),
    {
        v.push(s[i]);
        assert(s@.take(i + 1) == s@.take(i as int).push(s@[i as int]));
    }
    assert(s@.take(n as int) == s@);
}

/// Lines each ended by CR LF, as SDP writes them.
pub open spec fn crlf_text(lines: Seq<Seq<char>>) -> Seq<char>
    decreases lines.len(),
{
    if lines.len() == 0 {
        Seq::empty()
    } else {
        crlf_text(lines.drop_last()) + lines.last() + seq!['\r', '\n']
    }
}

/// The pieces between line feeds of `crlf_text(lines)`: each line with its
/// carriage return, then the empty rest after the last line feed.
pub open spec fn crlf_pieces(lines: Seq<Seq<char>>) -> Seq<Seq<char>> {
    lines.map_values(|l: Seq<char>| l.push('\r')).push(Seq::empty())
}

pub proof fn lemma_crlf_split(lines: Seq<Seq<char>>)
    requires
        forall|i: int| 0 <= i < lines.len() ==> free_of(#[trigger] lines[i], Separator::Char('\n')),
    ensures
        split_by(crlf_text(lines), Separator::Char('\n')) == crlf_pieces(lines),
    decreases lines.len(),
{
    let sep = Separator::Char('\n');
    if lines.len() == 0 {
        assert(crlf_text(lines) == Seq::<char>::empty());
        assert(crlf_pieces(lines) == seq![Seq::<char>::empty()]);
    } else {
        let init = lines.drop_last();
        assert forall|i: int| 0 <= i < init.len() implies free_of(#[trigger] init[i], sep) by {
            assert(init[i] == lines[i]);
        }
        lemma_crlf_split(init);
        let x = crlf_text(init);
        let y = lines.last().push('\r');
        assert(free_of(lines[lines.len() - 1], sep));
        assert(free_of(y, sep)) by {
            assert forall|i: int| 0 <= i < y.len() implies !separates(sep, #[trigger] y[i]) by {
                if i < y.len() - 1 {
                    assert(y[i] == lines.last()[i]);
                }
            }
        }
        assert(crlf_text(lines) == (x + y).push('\n'));
        lemma_split_extend(x, y, sep);
        lemma_split_by_nonempty(x, sep);
        assert(split_by(x, sep).last() == Seq::<char>::empty());
        assert(Seq::<char>::empty() + y == y);
        assert((x + y).push('\n').drop_last() == x + y);
        assert(crlf_pieces(lines) == crlf_pieces(init).update(crlf_pieces(init).len() - 1, y).push(
            Seq::empty(),
        ));
    }
}

/// A line that starts and ends with a visible character is its own trim,
/// with or without a carriage return after it.
pub proof fn lemma_trim_line(l: Seq<char>)
    requires
        l.len() > 0,
        !is_whitespace(l[0]),
        !is_whitespace(l.last()),
    ensures
        trim(l.push('\r')) == l,
        trim(l) == l,
{
    let t = l.push('\r');
    assert(t[0] == l[0]);
    assert(trim_start(t) == t);
    assert(t.drop_last() == l);
    assert(is_whitespace(t.last()));
    assert(trim_end(l) == l);
    assert(trim_start(l) == l);
}

pub proof fn lemma_filter_all_nonempty(s: Seq<Seq<char>>)
    requires
        forall|i: int| 0 <= i < s.len() ==> #[trigger] s[i].len() > 0,
    ensures
        s.filter(nonempty_piece()) == s,
    decreases s.len(),
{
    reveal(Seq::filter);
    if s.len() > 0 {
        let init = s.drop_last();
        assert forall|i: int| 0 <= i < init.len() implies #[trigger] init[i].len() > 0 by {
            assert(init[i] == s[i]);
        }
        lemma_filter_all_nonempty(init);
        assert(s[s.len() - 1].len() > 0);
        assert(init.push(s.last()) == s);
    }
}

/// The decimal digits of a number read back as that number.
pub proof fn lemma_decimal_parse(n: nat, max: nat)
    requires
        n <= max,
    ensures
        parse_unsigned(decimal(n), max) == Some(n),
{
    lemma_decimal_digits(n);
    let d = decimal(n);
    assert(is_digit(d[0]));
    assert(d[0] != '+');
}

pub proof fn lemma_decimal_plain(n: nat)
    ensures
        decimal(n).len() > 0,
        forall|i: int| 0 <= i < decimal(n).len() ==> is_digit(#[trigger] decimal(n)[i]),
        forall|i: int| 0 <= i < decimal(n).len() ==> !is_whitespace(#[trigger] decimal(n)[i]),
        forall|i: int| 0 <= i < decimal(n).len() ==> #[trigger] decimal(n)[i] != '/' && decimal(n)[i] != '\n' && decimal(n)[i] != '.',
{
    lemma_decimal_digits(n);
    let d = decimal(n);
    assert forall|i: int| 0 <= i < d.len() implies is_digit(#[trigger] d[i]) by {}
}

pub proof fn lemma_free_concat(a: Seq<char>, b: Seq<char>, sep: Separator)
    requires
        free_of(a, sep),
        free_of(b, sep),
    ensures
        free_of(a + b, sep),
{
    assert forall|i: int| 0 <= i < (a + b).len() implies !separates(sep, #[trigger] (a + b)[i]) by {
        if i < a.len() {
            assert((a + b)[i] == a[i]);
        } else {
            assert((a + b)[i] == b[i - a.len()]);
        }
    }
}

} // verus!
