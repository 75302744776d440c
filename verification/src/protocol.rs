//! The printer's HTTP interface (Moonraker): host names, URL paths and the
//! listing of the camera folder.
use vstd::prelude::*;
use vstd::utf8::encode_utf8;
use crate::text::{
    utf8_len, trim, is_white_space, split_on, join_with, views_of, decimal, chars_of, trim_chars,
    contains_char, char_is_white_space, utf8_len_exceeds, split_chars, join_chars,
    string_from_chars, append_str, append_chars, push_decimal, starts_with,
    lemma_split_nonempty, lemma_split_join, lemma_join_split, ascii_lowercase, lowercase_ascii,
};
use crate::paths::{extension, file_stem, with_extension, path_extension, path_file_stem, path_with_extension};
use crate::models::{PrinterConfig, TimelapseInstance, string_of};
use crate::sync_engine::{is_video_extension, video_extension_is_known};

verus! {

// ---------------------------------------------------------------------------
// Percent-encoding of URL paths
// ---------------------------------------------------------------------------

/// An upper-case hexadecimal digit.
pub open spec fn hex_digit(d: int) -> char {
    if d < 10 {
        (d + 48) as char
    } else {
        (d + 55) as char
    }
}

/// `%XX`: the byte in upper-case hexadecimal.
pub open spec fn percent_triplet(b: u8) -> Seq<char> {
    seq!['%', hex_digit((b / 16) as int), hex_digit((b % 16) as int)]
}

/// The ASCII bytes that are percent-encoded in a path segment: controls,
/// space, `"`, `#`, `%`, `/`, `<`, `>`, `?`, `` ` ``, `{` and `}`.
pub open spec fn in_segment_encode_set(b: u8) -> bool {
    ||| b <= 0x1f
    ||| b == 0x7f
    ||| b == 0x20
    ||| b == 0x22
    ||| b == 0x23
    ||| b == 0x25
    ||| b == 0x2f
    ||| b == 0x3c
    ||| b == 0x3e
    ||| b == 0x3f
    ||| b == 0x60
    ||| b == 0x7b
    ||| b == 0x7d
}

/// Bytes that are written as `%XX`: every non-ASCII byte and the set above.
pub open spec fn is_encoded_byte(b: u8) -> bool {
    b >= 0x80 || in_segment_encode_set(b)
}

/// The percent-encoding of a byte string.
pub open spec fn percent_encoded(bytes: Seq<u8>) -> Seq<char>
    decreases bytes.len(),
{
    if bytes.len() == 0 {
        Seq::<char>::empty()
    } else {
        let b = bytes.last();
        percent_encoded(bytes.drop_last()) + if is_encoded_byte(b) {
            percent_triplet(b)
        } else {
            seq![b as char]
        }
    }
}

/// The percent-encoding of the UTF-8 bytes of a path segment.
pub open spec fn encode_segment(s: Seq<char>) -> Seq<char> {
    percent_encoded(encode_utf8(s))
}

/// A `/`-separated path with each segment percent-encoded.
pub open spec fn encode_url_path_spec(path: Seq<char>) -> Seq<char> {
    join_with(split_on(path, '/').map_values(|seg: Seq<char>| encode_segment(seg)), '/')
}

/// The upper-case hexadecimal digit of `d`.
fn hex_char(d: u8) -> (c: char)
    requires
        d < 16,
    ensures
        c == hex_digit(d as int),
{
    if d < 10 {
        (d + 48) as char
    } else {
        (d + 55) as char
    }
}

fn byte_is_encoded(b: u8) -> (r: bool)
    ensures
        r == is_encoded_byte(b),
{
    b >= 0x80 || b <= 0x1f || b == 0x7f || b == 0x20 || b == 0x22 || b == 0x23 || b == 0x25 || b
        == 0x2f || b == 0x3c || b == 0x3e || b == 0x3f || b == 0x60 || b == 0x7b || b == 0x7d
}

/// Percent-encodes the UTF-8 bytes of one path segment.
fn encode_segment_chars(seg: &Vec<char>) -> (r: Vec<char>)
    ensures
        r@ == encode_segment(seg@),
{
    let s = string_from_chars(seg.as_slice());
    let bytes = s.as_str().as_bytes();
    let mut out: Vec<char> = Vec::new();
    for i in 0..bytes.len()
        invariant
            bytes@ == encode_utf8(seg@),
            out@ == percent_encoded(bytes@.take(i as int)),
    {
        let b = bytes[i];
        assert(bytes@.take(i + 1).drop_last() =~= bytes@.take(i as int));
        if byte_is_encoded(b) {
            out.push('%');
            out.push(hex_char(b / 16));
            out.push(hex_char(b % 16));
        } else {
            out.push(b as char);
        }
        assert(out@ =~= percent_encoded(bytes@.take(i + 1)));
    }
    assert(bytes@.take(bytes@.len() as int) =~= bytes@);
    out
}

proof fn lemma_percent_encoded_has_no_slash(bytes: Seq<u8>)
    ensures
        !percent_encoded(bytes).contains('/'),
    decreases bytes.len(),
{
    if bytes.len() > 0 {
        lemma_percent_encoded_has_no_slash(bytes.drop_last());
        let b = bytes.last();
        let front = percent_encoded(bytes.drop_last());
        let tail = if is_encoded_byte(b) {
            percent_triplet(b)
        } else {
            seq![b as char]
        };
        assert(!tail.contains('/')) by {
            if is_encoded_byte(b) {
                assert(tail[0] == '%');
                assert(tail[1] != '/');
                assert(tail[2] != '/');
            } else {
                assert(b != 0x2f);
                assert(tail[0] == b as char);
            }
        }
        let all = front + tail;
        assert forall|j: int| 0 <= j < all.len() implies all[j] != '/' by {
            if j < front.len() {
                assert(all[j] == front[j]);
            } else {
                assert(all[j] == tail[j - front.len()]);
            }
        }
    }
}

/// A `/`-separated path with each segment percent-encoded; the slashes stay.
pub fn encode_url_path(path: &str) -> (r: String)
    ensures
        r@ == encode_url_path_spec(path@),
{
    let v = chars_of(path);
    let parts = split_chars(v.as_slice(), '/');
    let mut encoded: Vec<Vec<char>> = Vec::new();
    for i in 0..parts.len()
        invariant
            views_of(parts@) == split_on(v@, '/'),
            views_of(encoded@) == views_of(parts@).take(i as int).map_values(
                |seg: Seq<char>| encode_segment(seg),
            ),
    {
        let e = encode_segment_chars(&parts[i]);
        let ghost before = views_of(encoded@);
        assert(views_of(parts@)[i as int] == parts@[i as int]@);
        encoded.push(e);
        assert(views_of(encoded@) =~= before.push(encode_segment(parts@[i as int]@)));
        assert(views_of(parts@).take(i + 1) =~= views_of(parts@).take(i as int).push(parts@[i as int]@));
        assert(views_of(encoded@) =~= views_of(parts@).take(i + 1).map_values(
            |seg: Seq<char>| encode_segment(seg),
        ));
    }
    assert(views_of(parts@).take(parts.len() as int) =~= views_of(parts@));
    let joined = join_chars(&encoded, '/');
    string_from_chars(joined.as_slice())
}

/// Encoding keeps the segment structure of a path: splitting the encoded path
/// at `/` gives the encoded segments of the input path, one for one.
pub proof fn law_encoding_keeps_segments(path: Seq<char>)
    ensures
        split_on(encode_url_path_spec(path), '/') == split_on(path, '/').map_values(
            |seg: Seq<char>| encode_segment(seg),
        ),
{
    let segs = split_on(path, '/').map_values(|seg: Seq<char>| encode_segment(seg));
    lemma_split_nonempty(path, '/');
    assert forall|i: int| 0 <= i < segs.len() implies !(#[trigger] segs[i]).contains('/') by {
        lemma_percent_encoded_has_no_slash(encode_utf8(split_on(path, '/')[i]));
    }
    lemma_split_join(segs, '/');
}

/// A hexadecimal digit, in either case.
pub open spec fn is_hex_digit(c: char) -> bool {
    ('0' <= c && c <= '9') || ('A' <= c && c <= 'F') || ('a' <= c && c <= 'f')
}

/// The value of a hexadecimal digit.
pub open spec fn hex_value(c: char) -> int {
    if '0' <= c && c <= '9' {
        (c as int) - 48
    } else if 'A' <= c && c <= 'F' {
        (c as int) - 55
    } else {
        (c as int) - 87
    }
}

/// `percent_encoding::percent_decode`: `%` followed by two hexadecimal digits
/// stands for that byte; any other character stands for its UTF-8 bytes.
pub open spec fn percent_decode(s: Seq<char>) -> Seq<u8>
    decreases s.len(),
{
    if s.len() == 0 {
        Seq::<u8>::empty()
    } else if s.len() >= 3 && s[0] == '%' && is_hex_digit(s[1]) && is_hex_digit(s[2]) {
        seq![(hex_value(s[1]) * 16 + hex_value(s[2])) as u8] + percent_decode(s.skip(3))
    } else {
        encode_utf8(seq![s[0]]) + percent_decode(s.skip(1))
    }
}

/// Read from the left, every `%` of `s` starts a `%XX` escape.
pub open spec fn escapes_well_formed(s: Seq<char>) -> bool
    decreases s.len(),
{
    if s.len() == 0 {
        true
    } else if s[0] == '%' {
        s.len() >= 3 && is_hex_digit(s[1]) && is_hex_digit(s[2]) && escapes_well_formed(s.skip(3))
    } else {
        escapes_well_formed(s.skip(1))
    }
}

/// A character that an encoded path may hold: ASCII, and neither a control
/// character nor one of space, `"`, `#`, `<`, `>`, `?`, `` ` ``, `{`, `}`.
pub open spec fn is_path_output_char(c: char) -> bool {
    let u = c as u32;
    u < 0x80 && !(u <= 0x1f || u == 0x7f || u == 0x20 || u == 0x22 || u == 0x23 || u == 0x3c
        || u == 0x3e || u == 0x3f || u == 0x60 || u == 0x7b || u == 0x7d)
}

/// The characters that stand for one byte in an encoded segment.
pub open spec fn byte_token(b: u8) -> Seq<char> {
    if is_encoded_byte(b) {
        percent_triplet(b)
    } else {
        seq![b as char]
    }
}

proof fn lemma_hex_digit(d: int)
    requires
        0 <= d < 16,
    ensures
        is_hex_digit(hex_digit(d)),
        hex_value(hex_digit(d)) == d,
        is_path_output_char(hex_digit(d)),
        hex_digit(d) != '%',
{
}

/// An ASCII character is encoded as the one byte of its code.
proof fn lemma_ascii_char_encoding(c: char)
    requires
        (c as u32) < 0x80,
    ensures
        encode_utf8(seq![c]) == seq![(c as u32) as u8],
{
    let u = c as u32;
    assert(seq![c].drop_first() =~= Seq::<char>::empty());
    assert(encode_utf8(Seq::<char>::empty()) =~= Seq::<u8>::empty());
    assert(seq![c][0] == c);
    assert(vstd::utf8::has_width_1_encoding(u));
    assert(vstd::utf8::encode_scalar(u) == seq![vstd::utf8::leading_byte_width_1(u)]);
    assert((u & 0x7f) as u8 == u as u8) by (bit_vector)
        requires
            u < 0x80,
    ;
    assert(encode_utf8(seq![c]) =~= vstd::utf8::encode_scalar(u) + encode_utf8(Seq::<char>::empty()));
}

proof fn lemma_byte_token(b: u8, rest: Seq<char>)
    ensures
        percent_decode(byte_token(b) + rest) == seq![b] + percent_decode(rest),
        escapes_well_formed(rest) ==> escapes_well_formed(byte_token(b) + rest),
        forall|i: int| 0 <= i < byte_token(b).len() ==> is_path_output_char(#[trigger] byte_token(b)[i]),
{
    let t = byte_token(b) + rest;
    if is_encoded_byte(b) {
        lemma_hex_digit((b / 16) as int);
        lemma_hex_digit((b % 16) as int);
        assert(t.skip(3) =~= rest);
        assert(t[0] == '%' && t[1] == hex_digit((b / 16) as int) && t[2] == hex_digit((b % 16) as int));
        assert(('%' as u32) == 0x25);
        assert(byte_token(b)[0] == '%');
    } else {
        let c = b as char;
        assert((c as u32) == b);
        assert(c != '%');
        assert(t.skip(1) =~= rest);
        assert(t[0] == c);
        lemma_ascii_char_encoding(c);
        assert(encode_utf8(seq![c]) =~= seq![b]);
    }
}

proof fn lemma_decode_encoded(bytes: Seq<u8>, rest: Seq<char>)
    ensures
        percent_decode(percent_encoded(bytes) + rest) == bytes + percent_decode(rest),
        escapes_well_formed(rest) ==> escapes_well_formed(percent_encoded(bytes) + rest),
        forall|i: int|
            0 <= i < percent_encoded(bytes).len() ==> is_path_output_char(
                #[trigger] percent_encoded(bytes)[i],
            ),
    decreases bytes.len(),
{
    if bytes.len() == 0 {
        assert(percent_encoded(bytes) + rest =~= rest);
        assert(bytes + percent_decode(rest) =~= percent_decode(rest));
    } else {
        let front = bytes.drop_last();
        let b = bytes.last();
        let tok = byte_token(b);
        assert(percent_encoded(bytes) == percent_encoded(front) + tok);
        lemma_byte_token(b, rest);
        lemma_decode_encoded(front, tok + rest);
        assert(percent_encoded(bytes) + rest =~= percent_encoded(front) + (tok + rest));
        assert(front + (seq![b] + percent_decode(rest)) =~= bytes + percent_decode(rest));
        let pf = percent_encoded(front);
        assert forall|i: int| 0 <= i < percent_encoded(bytes).len() implies is_path_output_char(
            #[trigger] percent_encoded(bytes)[i],
        ) by {
            if i < pf.len() {
                assert(percent_encoded(bytes)[i] == pf[i]);
            } else {
                assert(percent_encoded(bytes)[i] == tok[i - pf.len()]);
            }
        }
    }
}

/// The UTF-8 encoding of a concatenation is the concatenation of the encodings.
proof fn lemma_encode_utf8_concat(a: Seq<char>, b: Seq<char>)
    ensures
        encode_utf8(a + b) == encode_utf8(a) + encode_utf8(b),
    decreases a.len(),
{
    if a.len() == 0 {
        assert(a + b =~= b);
    } else {
        assert((a + b).drop_first() =~= a.drop_first() + b);
        assert((a + b)[0] == a[0]);
        lemma_encode_utf8_concat(a.drop_first(), b);
    }
}

/// A join of two or more pieces, read from the front.
proof fn lemma_join_front(p: Seq<Seq<char>>, sep: char)
    requires
        p.len() >= 2,
    ensures
        join_with(p, sep) == p[0] + seq![sep] + join_with(p.drop_first(), sep),
    decreases p.len(),
{
    if p.len() == 2 {
        assert(p.drop_last().len() == 1);
        assert(join_with(p.drop_last(), sep) == p[0]);
        assert(p.drop_first().len() == 1);
        assert(join_with(p.drop_first(), sep) == p[1]);
        assert(p[0].push(sep) + p[1] =~= p[0] + seq![sep] + p[1]);
    } else {
        let a = p.drop_last();
        lemma_join_front(a, sep);
        assert(a.drop_first() =~= p.drop_first().drop_last());
        assert(a[0] == p[0]);
        assert(p.drop_first().last() == p.last());
        let j = join_with(a.drop_first(), sep);
        assert(join_with(p.drop_first(), sep) == j.push(sep) + p.last());
        assert((p[0] + seq![sep] + j).push(sep) + p.last() =~= p[0] + seq![sep] + (j.push(sep)
            + p.last()));
    }
}

/// Segments, each percent-encoded, joined with `/`.
pub open spec fn encoded_join(segs: Seq<Seq<char>>) -> Seq<char> {
    join_with(segs.map_values(|seg: Seq<char>| encode_segment(seg)), '/')
}

proof fn lemma_decode_joined_segments(segs: Seq<Seq<char>>)
    requires
        segs.len() >= 1,
    ensures
        percent_decode(encoded_join(segs)) == encode_utf8(join_with(segs, '/')),
        escapes_well_formed(encoded_join(segs)),
        forall|i: int|
            0 <= i < encoded_join(segs).len() ==> is_path_output_char(#[trigger] encoded_join(segs)[i]),
    decreases segs.len(),
{
    let e = segs.map_values(|seg: Seq<char>| encode_segment(seg));
    let empty = Seq::<char>::empty();
    assert(percent_decode(empty) =~= Seq::<u8>::empty());
    assert(escapes_well_formed(empty));
    lemma_decode_encoded(encode_utf8(segs[0]), empty);
    if segs.len() == 1 {
        assert(join_with(e, '/') == e[0]);
        assert(e[0] + empty =~= e[0]);
        assert(encode_utf8(segs[0]) + Seq::<u8>::empty() =~= encode_utf8(segs[0]));
    } else {
        let rest = segs.drop_first();
        let er = rest.map_values(|seg: Seq<char>| encode_segment(seg));
        assert(er =~= e.drop_first());
        lemma_decode_joined_segments(rest);
        lemma_join_front(e, '/');
        lemma_join_front(segs, '/');
        let jr = join_with(er, '/');
        let tail = seq!['/'] + jr;
        // the separator
        assert(tail.skip(1) =~= jr);
        assert(tail[0] == '/');
        lemma_ascii_char_encoding('/');
        assert(encode_utf8(seq!['/']) =~= seq![0x2fu8]);
        assert(percent_decode(tail) == encode_utf8(seq!['/']) + percent_decode(jr));
        assert(escapes_well_formed(tail));
        lemma_decode_encoded(encode_utf8(segs[0]), tail);
        assert(join_with(e, '/') == e[0] + tail) by {
            assert(e[0] + seq!['/'] + jr =~= e[0] + tail);
        }
        lemma_encode_utf8_concat(segs[0], seq!['/'] + join_with(rest, '/'));
        lemma_encode_utf8_concat(seq!['/'], join_with(rest, '/'));
        assert(segs[0] + seq!['/'] + join_with(rest, '/') =~= segs[0] + (seq!['/'] + join_with(
            rest,
            '/',
        )));
        assert(encode_utf8(segs[0]) + (seq![0x2fu8] + encode_utf8(join_with(rest, '/'))) =~= encode_utf8(segs[0])
            + percent_decode(tail));
        let j = join_with(e, '/');
        assert forall|i: int| 0 <= i < j.len() implies is_path_output_char(#[trigger] j[i]) by {
            if i < e[0].len() {
                assert(j[i] == e[0][i]);
            } else if i == e[0].len() {
                assert(j[i] == '/');
            } else {
                assert(j[i] == jr[i - e[0].len() - 1]);
            }
        }
    }
}

/// Decoding an encoded path gives back the UTF-8 bytes of the path; every
/// `%` of the encoded path starts a `%XX` escape; it holds no control
/// character, non-ASCII character, space, `"`, `#`, `<`, `>`, `?`, `` ` ``,
/// `{` or `}`; and it has as many `/`-separated segments as the path.
pub proof fn law_encoding_decodes_to_the_path(path: Seq<char>)
    ensures
        percent_decode(encode_url_path_spec(path)) == encode_utf8(path),
        escapes_well_formed(encode_url_path_spec(path)),
        forall|i: int|
            0 <= i < encode_url_path_spec(path).len() ==> is_path_output_char(
                #[trigger] encode_url_path_spec(path)[i],
            ),
        split_on(encode_url_path_spec(path), '/').len() == split_on(path, '/').len(),
{
    lemma_split_nonempty(path, '/');
    lemma_join_split(path, '/');
    lemma_decode_joined_segments(split_on(path, '/'));
    law_encoding_keeps_segments(path);
}

// ---------------------------------------------------------------------------
// Printer addresses
// ---------------------------------------------------------------------------

/// A printer address that the application refuses.
#[derive(Clone, Copy, Debug, PartialEq, Eq, Structural)]
pub enum HostError {
    InvalidAddress,
}

impl HostError {
    pub fn message(&self) -> (r: String)
        ensures
            r@ == "invalid printer address"@,
    {
        string_of("invalid printer address")
    }
}

/// A host name or IP address without scheme, path, user or white space, of at
/// most 253 bytes once trimmed.
pub open spec fn is_valid_host(host: Seq<char>) -> bool {
    let t = trim(host);
    &&& t.len() > 0
    &&& utf8_len(t) <= 253
    &&& !t.contains('/')
    &&& !t.contains('\\')
    &&& !t.contains('@')
    &&& forall|i: int| 0 <= i < t.len() ==> !is_white_space(#[trigger] t[i])
}

/// Refuses anything but a plain host name or IP address.
pub fn validate_host(host: &str) -> (r: Result<(), HostError>)
    ensures
        r is Ok <==> is_valid_host(host@),
        r is Err ==> r == Err::<(), HostError>(HostError::InvalidAddress),
{
    let t = trim_chars(chars_of(host).as_slice());
    if t.len() == 0 || utf8_len_exceeds(t.as_slice(), 253) || contains_char(t.as_slice(), '/')
        || contains_char(t.as_slice(), '\\') || contains_char(t.as_slice(), '@') {
        return Err(HostError::InvalidAddress);
    }
    for i in 0..t.len()
        invariant
            t@ == trim(host@),
            forall|j: int| 0 <= j < i ==> !is_white_space(#[trigger] t@[j]),
    {
        if char_is_white_space(t[i]) {
            assert(is_white_space(t@[i as int]));
            return Err(HostError::InvalidAddress);
        }
    }
    Ok(())
}

/// The host as it stands in a URL: an IPv6 address in brackets.
pub open spec fn url_authority(host: Seq<char>) -> Seq<char> {
    if host.contains(':') && !(host.len() > 0 && host[0] == '[') {
        seq!['['] + host + seq![']']
    } else {
        host
    }
}

/// `url_authority` on a character sequence.
pub fn authority_of(host: &Vec<char>) -> (r: Vec<char>)
    ensures
        r@ == url_authority(host@),
{
    if contains_char(host.as_slice(), ':') && !(host.len() > 0 && host[0] == '[') {
        let mut r: Vec<char> = Vec::new();
        r.push('[');
        append_chars(&mut r, host.as_slice());
        r.push(']');
        assert(r@ =~= seq!['['] + host@ + seq![']']);
        r
    } else {
        let r = crate::text::copy_range(host.as_slice(), 0, host.len());
        assert(r@ =~= host@);
        r
    }
}

/// The URL that lists the camera folder of the printer.
pub open spec fn camera_list_url_spec(host: Seq<char>, port: u16) -> Seq<char> {
    "http://"@ + url_authority(host) + seq![':'] + decimal(port as nat)
        + "/server/files/list?root=camera"@
}

/// The URL that lists the timelapses of `printer`, once its address is checked.
pub fn camera_list_url(printer: &PrinterConfig) -> (r: Result<String, HostError>)
    ensures
        r is Ok <==> is_valid_host(printer.host@),
        r matches Ok(url) ==> url@ == camera_list_url_spec(printer.host@, printer.http_port),
{
    validate_host(printer.host.as_str())?;
    let host = chars_of(printer.host.as_str());
    let mut out = chars_of("http://");
    let authority = authority_of(&host);
    append_chars(&mut out, authority.as_slice());
    out.push(':');
    push_decimal(&mut out, printer.http_port as u64);
    append_str(&mut out, "/server/files/list?root=camera");
    Ok(string_from_chars(out.as_slice()))
}

// ---------------------------------------------------------------------------
// The camera folder
// ---------------------------------------------------------------------------

/// One entry of the camera folder listing: its path in the folder, its
/// modification time in whole seconds since the Unix epoch, and its size.
#[derive(Clone, Debug)]
pub struct CameraFile {
    pub path: String,
    pub modified_s: i64,
    pub size: u64,
}

/// The entry is a video: its extension, in lower case, is a video extension.
pub open spec fn is_listed_video(file: CameraFile) -> bool {
    match extension(file.path@) {
        Some(e) => is_video_extension(ascii_lowercase(e)),
        None => false,
    }
}

/// The timelapse that a listed video stands for.
pub open spec fn instance_matches_file(i: TimelapseInstance, f: CameraFile) -> bool {
    &&& i.date_index@.len() == 0
    &&& i.gcode_name@ == match file_stem(f.path@) {
        Some(s) => s,
        None => "timelapse"@,
    }
    &&& i.gcode_path@.len() == 0
    &&& i.thumbnail_path@ == with_extension(f.path@, "jpg"@)
    &&& i.timelapse_dir@ == "camera"@
    &&& i.video_path@ == "camera/"@ + f.path@
    &&& i.video_duration@.len() == 0
    &&& i.generate_date@.len() == 0
    &&& i.thumbnail_base64@.len() == 0
    &&& i.video_local_url_suffix@ == "/server/files/camera/"@ + encode_url_path_spec(f.path@)
    &&& i.video_file_size == f.size
    &&& i.unix_timestamp_s == f.modified_s
}

fn is_listed_video_file(file: &CameraFile) -> (r: bool)
    ensures
        r == is_listed_video(*file),
{
    match path_extension(chars_of(file.path.as_str()).as_slice()) {
        Some(e) => video_extension_is_known(&lowercase_ascii(&e)),
        None => false,
    }
}

/// The timelapse for one listed video. The listing's paths are read with `/`
/// as the only separator, as the printer writes them and as `std::path::Path`
/// reads them on Unix and macOS (on Windows `Path` would also split at `\`).
pub fn instance_from_camera_file(file: &CameraFile) -> (r: TimelapseInstance)
    ensures
        instance_matches_file(r, *file),
{
    let path = chars_of(file.path.as_str());
    let encoded = encode_url_path(file.path.as_str());
    let gcode_name = match path_file_stem(path.as_slice()) {
        Some(s) => string_from_chars(s.as_slice()),
        None => string_of("timelapse"),
    };
    let jpg = chars_of("jpg");
    let thumbnail = path_with_extension(path.as_slice(), jpg.as_slice());
    let mut video_path = chars_of("camera/");
    append_chars(&mut video_path, path.as_slice());
    let mut suffix = chars_of("/server/files/camera/");
    append_str(&mut suffix, encoded.as_str());
    TimelapseInstance {
        date_index: String::new(),
        gcode_name,
        gcode_path: String::new(),
        thumbnail_path: string_from_chars(thumbnail.as_slice()),
        timelapse_dir: string_of("camera"),
        video_path: string_from_chars(video_path.as_slice()),
        video_duration: String::new(),
        generate_date: String::new(),
        thumbnail_base64: String::new(),
        video_local_url_suffix: string_from_chars(suffix.as_slice()),
        video_file_size: file.size,
        unix_timestamp_s: file.modified_s,
    }
}

/// The timelapses of a camera folder listing: its videos, in listing order.
pub fn camera_files_to_instances(files: &Vec<CameraFile>) -> (r: Vec<TimelapseInstance>)
    ensures
        r@.len() == files@.filter(|f: CameraFile| is_listed_video(f)).len(),
        forall|i: int|
            0 <= i < r@.len() ==> instance_matches_file(
                #[trigger] r@[i],
                files@.filter(|f: CameraFile| is_listed_video(f))[i],
            ),
{
    let ghost keep = |f: CameraFile| is_listed_video(f);
    let mut r: Vec<TimelapseInstance> = Vec::new();
    for i in 0..files.len()
        invariant
            keep == (|f: CameraFile| is_listed_video(f)),
            r@.len() == files@.take(i as int).filter(keep).len(),
            forall|j: int|
                0 <= j < r@.len() ==> instance_matches_file(
                    #[trigger] r@[j],
                    files@.take(i as int).filter(keep)[j],
                ),
    {
        proof {
            let before = files@.take(i as int);
            assert(files@.take(i + 1).drop_last() =~= before);
            assert(files@.take(i + 1).last() == files@[i as int]);
            reveal_with_fuel(Seq::filter, 1);
        }
        if is_listed_video_file(&files[i]) {
            let inst = instance_from_camera_file(&files[i]);
            r.push(inst);
        }
    }
    assert(files@.take(files.len() as int) =~= files@);
    r
}

/// The full URL of a file in the camera folder.
pub open spec fn camera_file_url_spec(host: Seq<char>, port: u16, encoded: Seq<char>) -> Seq<char> {
    "http://"@ + url_authority(host) + seq![':'] + decimal(port as nat) + "/server/files/camera/"@
        + encoded
}

} // verus!
