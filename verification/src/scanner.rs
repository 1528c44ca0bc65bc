//! What the daemon computes for CasparCG's `media-scanner`.
//!
//! The scanner is a separate HTTP service (default port 8000) that probes the
//! media, template and font directories. Talking to it is I/O and lives with
//! the daemon; what is decided here is how a media id goes into a URL, how its
//! AMCP-shaped text listings are read, and how a file is classified.

use vstd::prelude::*;

use crate::text::{
    decimal, lines, push_char, push_decimal, push_str, split_lines, starts_with,
    string_of, trim, trim_end_char, trim_start_char, trimmed, trimmed_of, has_prefix,
};

verus! {

broadcast use vstd::string::group_string_axioms;

/// The port media-scanner listens on unless configured otherwise.
pub const DEFAULT_PORT: u16 = 8000;

// ---------------------------------------------------------------- URL paths

/// A byte that goes into a URL path segment as it is.
pub open spec fn unreserved(b: u8) -> bool {
    ||| 0x41 <= b <= 0x5A
    ||| 0x61 <= b <= 0x7A
    ||| 0x30 <= b <= 0x39
    ||| b == 0x2D
    ||| b == 0x5F
    ||| b == 0x2E
    ||| b == 0x7E
}

/// An upper-case hexadecimal digit for `n < 16`.
pub open spec fn hex_digit(n: nat) -> char {
    if n < 10 {
        (48 + n) as char
    } else {
        (55 + n) as char
    }
}

/// How one byte is written in a path segment.
pub open spec fn percent_byte(b: u8) -> Seq<char> {
    if unreserved(b) {
        seq![b as char]
    } else {
        seq!['%', hex_digit((b / 16) as nat), hex_digit((b % 16) as nat)]
    }
}

/// `bytes`, percent-encoded.
pub open spec fn percent_encoded(bytes: Seq<u8>) -> Seq<char>
    decreases bytes.len(),
{
    if bytes.len() == 0 {
        Seq::empty()
    } else {
        percent_encoded(bytes.drop_last()) + percent_byte(bytes.last())
    }
}

fn hex(n: u8) -> (c: char)
    requires
        n < 16,
    ensures
        c == hex_digit(n as nat),
{
    if n < 10 {
        (48u8 + n) as char
    } else {
        (55u8 + n) as char
    }
}

/// Percent-encode a path segment. Media ids are upper-cased paths and can
/// contain spaces and other characters that must not go into a URL raw: every
/// UTF-8 byte outside `A-Z a-z 0-9 - _ . ~` becomes `%XX`.
pub fn enc(s: &str) -> (r: String)
    ensures
        r@ == percent_encoded(vstd::utf8::encode_utf8(s@)),
{
    let bytes = s.as_bytes();
    let mut out = String::new();
    for i in 0..bytes.len()
        invariant
            bytes@ == vstd::utf8::encode_utf8(s@),
            out@ == percent_encoded(bytes@.take(i as int)),
    {
        let b = bytes[i];
        assert(bytes@.take(i + 1).drop_last() == bytes@.take(i as int));
        if (0x41 <= b && b <= 0x5A) || (0x61 <= b && b <= 0x7A) || (0x30 <= b && b <= 0x39) || b
            == 0x2D || b == 0x5F || b == 0x2E || b == 0x7E {
            push_char(&mut out, b as char);
        } else {
            push_char(&mut out, '%');
            push_char(&mut out, hex(b / 16));
            push_char(&mut out, hex(b % 16));
        }
    }
    assert(bytes@.take(bytes@.len() as int) == bytes@);
    out
}

/// What `str::to_uppercase` makes of a text: the Unicode upper-case mapping,
/// which can change its length.
pub uninterp spec fn uppercase(s: Seq<char>) -> Seq<char>;

/// `str::to_uppercase`. What it returns is named, not spelled out, here.
#[verifier::external_body]
fn to_upper(s: &str) -> (r: String)
    ensures
        r@ == uppercase(s@),
{
    s.to_uppercase()
}

/// The scanner's base URL for a host and port.
pub fn base_url(host: &str, port: u16) -> (r: String)
    ensures
        r@ == "http://"@ + host@ + seq![':'] + decimal(port as nat),
{
    let mut out = String::new();
    push_str(&mut out, "http://");
    push_str(&mut out, host);
    push_char(&mut out, ':');
    push_decimal(&mut out, port as u64);
    out
}

/// The path of a media file's metadata, for a media id in any case.
pub fn media_info_path(id: &str) -> (r: String)
    ensures
        r@ == "/media/info/"@ + percent_encoded(vstd::utf8::encode_utf8(uppercase(id@))),
{
    let upper = to_upper(id);
    let mut out = String::new();
    push_str(&mut out, "/media/info/");
    let e = enc(upper.as_str());
    push_str(&mut out, e.as_str());
    out
}

/// The path of a media file's thumbnail, for a media id in any case.
pub fn thumbnail_path(id: &str) -> (r: String)
    ensures
        r@ == "/media/thumbnail/"@ + percent_encoded(vstd::utf8::encode_utf8(uppercase(id@))),
{
    let upper = to_upper(id);
    let mut out = String::new();
    push_str(&mut out, "/media/thumbnail/");
    let e = enc(upper.as_str());
    push_str(&mut out, e.as_str());
    out
}

// ------------------------------------------------------------ text listings

/// The lines after the leading `200 … OK`-style status lines.
pub open spec fn skip_status(ls: Seq<Seq<char>>) -> Seq<Seq<char>>
    decreases ls.len(),
{
    if ls.len() > 0 && starts_with(ls[0], "20"@) {
        skip_status(ls.drop_first())
    } else {
        ls
    }
}

/// One listing line as an entry: trimmed, then stripped of its quotes.
pub open spec fn entry_text(l: Seq<char>) -> Seq<char> {
    trim_end_char(trim_start_char(trim(l), '"'), '"')
}

/// The entries of the given lines that are not empty, in order.
pub open spec fn entries(ls: Seq<Seq<char>>) -> Seq<Seq<char>>
    decreases ls.len(),
{
    if ls.len() == 0 {
        Seq::empty()
    } else if entry_text(ls.last()).len() > 0 {
        entries(ls.drop_last()).push(entry_text(ls.last()))
    } else {
        entries(ls.drop_last())
    }
}

/// The names in a text listing such as `/fls` returns.
pub open spec fn listing(text: Seq<char>) -> Seq<Seq<char>> {
    entries(skip_status(lines(text)))
}

/// Strip the `200 X OK` status line the scanner wraps its text listings in,
/// and return the remaining non-empty lines, trimmed and unquoted.
pub fn parse_amcp_list(text: &str) -> (r: Vec<String>)
    ensures
        r@.map_values(|s: String| s@) == listing(text@),
{
    let ls = split_lines(text);
    let ghost views = ls@.map_values(|l: Vec<char>| l@);
    let mut k: usize = 0;
    assert(views.skip(0) == views);
    while k < ls.len() && has_prefix(&ls[k], "20")
        invariant
            k <= ls@.len(),
            views == ls@.map_values(|l: Vec<char>| l@),
            views == lines(text@),
            skip_status(views) == skip_status(views.skip(k as int)),
        decreases ls@.len() - k,
    {
        assert(views.skip(k as int)[0] == ls@[k as int]@);
        assert(views.skip(k as int).drop_first() == views.skip(k + 1));
        k = k + 1;
    }
    let ghost body = views.skip(k as int);
    assert(k < ls@.len() ==> body[0] == ls@[k as int]@);
    assert(skip_status(body) == body);
    let mut out: Vec<String> = Vec::new();
    for j in k..ls.len()
        invariant
            k <= ls@.len(),
            views == ls@.map_values(|l: Vec<char>| l@),
            body == views.skip(k as int),
            out@.map_values(|s: String| s@) == entries(body.take(j - k)),
    {
        let t = trimmed(&ls[j]);
        let e = trimmed_of(&t, '"');
        assert(body[j - k] == ls@[j as int]@);
        assert(body.take(j + 1 - k).drop_last() == body.take(j - k));
        assert(body.take(j + 1 - k).last() == body[j - k]);
        if e.len() > 0 {
            let ghost before = out@.map_values(|s: String| s@);
            out.push(string_of(&e));
            assert(out@.map_values(|s: String| s@) =~= before.push(e@));
        }
    }
    assert(body.take(ls@.len() - k) == body);
    out
}

// ------------------------------------------------------------ classification

/// The broad category of a media file.
#[derive(Debug, Clone, Copy, PartialEq, Eq, Structural)]
pub enum MediaKind {
    Movie,
    Still,
    Audio,
    Unknown,
}

/// The category by the rule the scanner uses for its `CINF` line.
pub open spec fn kind_of(has_video: bool, has_audio: bool, longer_than_a_second: bool) -> MediaKind {
    if has_video && longer_than_a_second {
        MediaKind::Movie
    } else if has_video {
        MediaKind::Still
    } else if has_audio {
        MediaKind::Audio
    } else {
        MediaKind::Unknown
    }
}

impl MediaKind {
    /// Classify a file: a video stream that runs longer than a second is a
    /// movie, a shorter one or an attached picture is a still, audio alone is
    /// audio.
    pub fn classify(has_video: bool, has_audio: bool, longer_than_a_second: bool) -> (r: MediaKind)
        ensures
            r == kind_of(has_video, has_audio, longer_than_a_second),
    {
        if has_video && longer_than_a_second {
            MediaKind::Movie
        } else if has_video {
            MediaKind::Still
        } else if has_audio {
            MediaKind::Audio
        } else {
            MediaKind::Unknown
        }
    }

    /// The name the console shows.
    pub fn word(self) -> (r: &'static str)
        ensures
            r@ == (match self {
                MediaKind::Movie => "movie"@,
                MediaKind::Still => "still"@,
                MediaKind::Audio => "audio"@,
                MediaKind::Unknown => "unknown"@,
            }),
    {
        match self {
            MediaKind::Movie => "movie",
            MediaKind::Still => "still",
            MediaKind::Audio => "audio",
            MediaKind::Unknown => "unknown",
        }
    }
}

/// The first stream's dimensions among those that report both.
pub open spec fn first_dimensions(dims: Seq<(Option<u32>, Option<u32>)>) -> Option<(u32, u32)>
    decreases dims.len(),
{
    if dims.len() == 0 {
        None
    } else if dims[0].0 is Some && dims[0].1 is Some {
        Some((dims[0].0->0, dims[0].1->0))
    } else {
        first_dimensions(dims.drop_first())
    }
}

/// The first video stream's dimensions, given each stream's width and height.
pub fn resolution(dims: &[(Option<u32>, Option<u32>)]) -> (r: Option<(u32, u32)>)
    ensures
        r == first_dimensions(dims@),
{
    let mut i: usize = 0;
    assert(dims@.skip(0) == dims@);
    while i < dims.len()
        invariant
            i <= dims@.len(),
            first_dimensions(dims@) == first_dimensions(dims@.skip(i as int)),
        decreases dims@.len() - i,
    {
        assert(dims@.skip(i as int)[0] == dims@[i as int]);
        if let (Some(w), Some(h)) = dims[i] {
            return Some((w, h));
        }
        assert(dims@.skip(i as int).drop_first() == dims@.skip(i + 1));
        i = i + 1;
    }
    None
}

/// Container-level metadata.
#[derive(Debug, Clone, PartialEq)]
pub struct MediaFormat {
    pub name: Option<String>,
    pub long_name: Option<String>,
    pub duration: Option<String>,
    pub bit_rate: Option<String>,
}


/// How a file is classified: a movie exactly when it has a video stream that
/// runs longer than a second, a still exactly when it has a video stream that
/// does not, audio exactly when it has audio and no video, and unknown when
/// it has neither.
pub proof fn lemma_media_kind_follows_the_streams(video: bool, audio: bool, long: bool)
    ensures
        (kind_of(video, audio, long) == MediaKind::Movie) <==> (video && long),
        (kind_of(video, audio, long) == MediaKind::Still) <==> (video && !long),
        (kind_of(video, audio, long) == MediaKind::Audio) <==> (!video && audio),
        (kind_of(video, audio, long) == MediaKind::Unknown) <==> (!video && !audio),
{
}

/// The value of an upper-case hexadecimal digit.
pub open spec fn hex_value(c: char) -> int {
    if c <= '9' {
        c as int - 48
    } else {
        c as int - 55
    }
}

/// Percent-encoding works byte by byte, so it reads back: the encoding of
/// two runs of bytes is the encoding of the first followed by that of the
/// second; a letter, digit, `-`, `_`, `.` or `~` stands for itself; any
/// other byte is `%` and two upper-case hexadecimal digits whose value is
/// that byte.
pub proof fn lemma_percent_encoding_reads_back(a: Seq<u8>, b: Seq<u8>, x: u8)
    ensures
        percent_encoded(a + b) == percent_encoded(a) + percent_encoded(b),
        (('A' as u8) <= x <= ('Z' as u8) || ('a' as u8) <= x <= ('z' as u8) || ('0' as u8) <= x
            <= ('9' as u8) || x == ('-' as u8) || x == ('_' as u8) || x == ('.' as u8) || x
            == ('~' as u8)) ==> percent_encoded(seq![x]) == seq![x as char],
        !(('A' as u8) <= x <= ('Z' as u8) || ('a' as u8) <= x <= ('z' as u8) || ('0' as u8) <= x
            <= ('9' as u8) || x == ('-' as u8) || x == ('_' as u8) || x == ('.' as u8) || x
            == ('~' as u8)) ==> ({
            let e = percent_encoded(seq![x]);
            &&& e.len() == 3
            &&& e[0] == '%'
            &&& ('0' <= e[1] <= '9' || 'A' <= e[1] <= 'F')
            &&& ('0' <= e[2] <= '9' || 'A' <= e[2] <= 'F')
            &&& hex_value(e[1]) * 16 + hex_value(e[2]) == x
        }),
    decreases b.len(),
{
    let one = seq![x];
    assert(one.drop_last() =~= Seq::<u8>::empty());
    assert(one.last() == x);
    assert(percent_encoded(Seq::<u8>::empty()) == Seq::<char>::empty());
    assert(percent_encoded(one) == Seq::<char>::empty() + percent_byte(x));
    assert(percent_encoded(one) == percent_byte(x));
    assert(Seq::<char>::empty() + percent_byte(x) =~= percent_byte(x));
    if b.len() > 0 {
        lemma_percent_encoding_reads_back(a, b.drop_last(), x);
        assert((a + b).drop_last() =~= a + b.drop_last());
        assert((a + b).last() == b.last());
    } else {
        assert(a + b =~= a);
        assert(percent_encoded(a) + Seq::<char>::empty() =~= percent_encoded(a));
    }
}

/// The resolution is that of the first stream reporting both a width and a
/// height; none when no stream does.
pub proof fn lemma_resolution_is_the_first_full_stream(dims: Seq<(Option<u32>, Option<u32>)>)
    ensures
        first_dimensions(dims) matches Some((w, h)) ==> exists|i: int|
            0 <= i < dims.len() && dims[i] == (Some(w), Some(h)) && forall|j: int|
                0 <= j < i ==> !(#[trigger] dims[j].0 is Some && dims[j].1 is Some),
        first_dimensions(dims) is None <==> forall|j: int|
            0 <= j < dims.len() ==> !(#[trigger] dims[j].0 is Some && dims[j].1 is Some),
    decreases dims.len(),
{
    if dims.len() > 0 {
        let rest = dims.drop_first();
        lemma_resolution_is_the_first_full_stream(rest);
        if dims[0].0 is Some && dims[0].1 is Some {
            assert(dims[0] == (Some(dims[0].0->0), Some(dims[0].1->0)));
        } else {
            if let Some((w, h)) = first_dimensions(rest) {
                let i = choose|i: int|
                    0 <= i < rest.len() && rest[i] == (Some(w), Some(h)) && forall|j: int|
                        0 <= j < i ==> !(#[trigger] rest[j].0 is Some && rest[j].1 is Some);
                assert(dims[i + 1] == rest[i]);
                assert forall|j: int| 0 <= j < i + 1 implies !(#[trigger] dims[j].0 is Some
                    && dims[j].1 is Some) by {
                    if j > 0 {
                        assert(dims[j] == rest[j - 1]);
                    }
                }
            }
            if first_dimensions(rest) is None {
                assert forall|j: int| 0 <= j < dims.len() implies !(#[trigger] dims[j].0 is Some
                    && dims[j].1 is Some) by {
                    if j > 0 {
                        assert(dims[j] == rest[j - 1]);
                    }
                }
            } else {
                let k = choose|k: int| 0 <= k < rest.len() && !!(rest[k].0 is Some && rest[k].1 is Some);
                assert(dims[k + 1] == rest[k]);
            }
        }
    }
}

} // verus!
