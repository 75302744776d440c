//! The rules of a sync: which files are downloaded, under which local names,
//! from which URLs, and how the counts and the status evolve.
use vstd::prelude::*;
use crate::text::{
    is_control, utf8_width, utf8_len, ascii_lower, ascii_lowercase, eq_ignore_ascii_case, trim,
    drop_trailing, CharClass, split_on, decimal, chars_of, char_is_control, trim_chars,
    trim_trailing, char_utf8_width, lemma_utf8_len_push, lemma_utf8_len_concat,
    lemma_utf8_len_bounds, equal_ignoring_ascii_case, lemma_trim_keeps, lemma_drop_trailing_keeps,
    copy_range, append_chars, string_from_chars, split_chars, lemma_split_nonempty,
    lowercase_ascii, chars_equal, append_str, push_decimal, is_white_space, drop_leading,
    lemma_drop_leading_first, lemma_drop_leading_shorter, lemma_drop_trailing_prefix,
    lemma_ascii_utf8_len,
};
use crate::paths::{extension, path_extension, file_name, file_stem, path_file_name, path_file_stem};
use crate::models::{
    TimelapseInstance, AppConfig, PrinterConfig, HistoryEntry, HistoryResult, SyncStatus,
    SyncSummary, UtcTimestamp, string_of, copy_opt_string, MIN_TIMESTAMP, MAX_TIMESTAMP,
};
use crate::text::{is_blank, push_signed_decimal};
use chrono::TimeZone;
use std::sync::atomic::AtomicBool;
use std::sync::atomic::Ordering;

verus! {

// ---------------------------------------------------------------------------
// Local file names
// ---------------------------------------------------------------------------

/// Characters that Windows does not accept in a file name.
pub open spec fn is_forbidden_in_name(c: char) -> bool {
    ||| is_control(c)
    ||| c == '<'
    ||| c == '>'
    ||| c == ':'
    ||| c == '"'
    ||| c == '/'
    ||| c == '\\'
    ||| c == '|'
    ||| c == '?'
    ||| c == '*'
}

/// Each forbidden character replaced by `_`.
pub open spec fn replace_forbidden(s: Seq<char>) -> Seq<char> {
    s.map_values(|c: char| if is_forbidden_in_name(c) { '_' } else { c })
}

/// The number of leading characters of `s` whose UTF-8 encoding fits in `n` bytes.
pub open spec fn chars_within(s: Seq<char>, n: int) -> nat
    decreases s.len(),
{
    if s.len() == 0 || utf8_width(s[0]) > n {
        0
    } else {
        1 + chars_within(s.drop_first(), n - utf8_width(s[0]))
    }
}

/// `String::truncate(n)`: the first `n` bytes of `s`, when it is longer.
pub open spec fn truncate_bytes(s: Seq<char>, n: int) -> Seq<char> {
    if utf8_len(s) > n {
        s.take(chars_within(s, n) as int)
    } else {
        s
    }
}

/// `String::truncate(n)` does not panic on `s`: `s` fits in `n` bytes or byte
/// `n` is the start of a character.
pub open spec fn truncates_on_boundary(s: Seq<char>, n: int) -> bool {
    utf8_len(s) <= n || utf8_len(s.take(chars_within(s, n) as int)) == n
}

/// Device names that Windows reserves.
pub open spec fn reserved_names() -> Seq<Seq<char>> {
    seq![
        "CON"@,
        "PRN"@,
        "AUX"@,
        "NUL"@,
        "COM1"@,
        "COM2"@,
        "COM3"@,
        "COM4"@,
        "LPT1"@,
        "LPT2"@,
        "LPT3"@,
        "LPT4"@,
    ]
}

/// `s` is one of the reserved device names, ignoring ASCII case.
pub open spec fn is_reserved_name(s: Seq<char>) -> bool {
    exists|i: int| 0 <= i < reserved_names().len() && eq_ignore_ascii_case(s, #[trigger] reserved_names()[i])
}

/// The name before it is cut to 100 bytes: forbidden characters replaced,
/// white space trimmed, trailing dots and spaces removed, `timelapse` when
/// nothing is left.
pub open spec fn sanitize_base(value: Seq<char>) -> Seq<char> {
    let t = drop_trailing(trim(replace_forbidden(value)), CharClass::DotOrSpace);
    if t.len() == 0 {
        "timelapse"@
    } else {
        t
    }
}

/// A name that Windows accepts for a file: `sanitize_base`, cut to 100 bytes,
/// with `_` in front of a reserved device name.
pub open spec fn sanitize_spec(value: Seq<char>) -> Seq<char> {
    let b = truncate_bytes(sanitize_base(value), 100);
    if is_reserved_name(b) {
        seq!['_'] + b
    } else {
        b
    }
}

fn char_is_forbidden_in_name(c: char) -> (b: bool)
    ensures
        b == is_forbidden_in_name(c),
{
    char_is_control(c) || c == '<' || c == '>' || c == ':' || c == '"' || c == '/' || c == '\\'
        || c == '|' || c == '?' || c == '*'
}

fn replace_forbidden_chars(v: &Vec<char>) -> (r: Vec<char>)
    ensures
        r@ == replace_forbidden(v@),
{
    let mut r: Vec<char> = Vec::new();
    for i in 0..v.len()
        invariant
            r@ == replace_forbidden(v@.take(i as int)),
    {
        let c = v[i];
        r.push(if char_is_forbidden_in_name(c) { '_' } else { c });
        assert(replace_forbidden(v@.take(i + 1)) =~= replace_forbidden(v@.take(i as int)).push(
            if is_forbidden_in_name(c) { '_' } else { c },
        ));
    }
    assert(v@.take(v.len() as int) =~= v@);
    r
}

fn sanitize_base_chars(v: &Vec<char>) -> (r: Vec<char>)
    ensures
        r@ == sanitize_base(v@),
{
    let replaced = replace_forbidden_chars(v);
    let trimmed = trim_chars(replaced.as_slice());
    let t = trim_trailing(trimmed.as_slice(), CharClass::DotOrSpace);
    if t.len() == 0 {
        chars_of("timelapse")
    } else {
        t
    }
}

/// The number of leading characters that fit in `n` bytes, with their byte count.
fn count_chars_within(v: &Vec<char>, n: usize) -> (r: (usize, usize))
    ensures
        r.0 <= v@.len(),
        r.0 == chars_within(v@, n as int),
        r.1 == utf8_len(v@.take(r.0 as int)),
        r.1 <= n,
        r.0 < v@.len() ==> r.1 + utf8_width(v@[r.0 as int]) > n,
        r.0 < v@.len() ==> utf8_len(v@) > n,
        r.0 == v@.len() ==> utf8_len(v@) == r.1,
{
    let mut i: usize = 0;
    let mut bytes: usize = 0;
    assert(v@.skip(0) =~= v@);
    assert(v@.take(0) =~= Seq::<char>::empty());
    while i < v.len() && char_utf8_width(v[i]) <= n - bytes
        invariant
            i <= v@.len(),
            bytes <= n,
            chars_within(v@, n as int) == i + chars_within(v@.skip(i as int), n - bytes),
            bytes == utf8_len(v@.take(i as int)),
        decreases v@.len() - i,
    {
        let w = char_utf8_width(v[i]);
        proof {
            let rest = v@.skip(i as int);
            assert(rest[0] == v@[i as int]);
            assert(rest.drop_first() =~= v@.skip(i + 1));
            lemma_utf8_len_push(v@.take(i as int), v@[i as int]);
            assert(v@.take(i as int).push(v@[i as int]) =~= v@.take(i + 1));
        }
        bytes = bytes + w;
        i = i + 1;
    }
    proof {
        lemma_utf8_len_concat(v@.take(i as int), v@.skip(i as int));
        assert(v@.take(i as int) + v@.skip(i as int) =~= v@);
        if i < v@.len() {
            assert(v@.skip(i as int)[0] == v@[i as int]);
            assert(utf8_len(v@.skip(i as int)) >= utf8_width(v@[i as int]));
        } else {
            assert(v@.skip(i as int) =~= Seq::<char>::empty());
        }
    }
    (i, bytes)
}

fn matches_reserved_name(v: &Vec<char>) -> (r: bool)
    ensures
        r == is_reserved_name(v@),
{
    let names: [&str; 12] = [
        "CON",
        "PRN",
        "AUX",
        "NUL",
        "COM1",
        "COM2",
        "COM3",
        "COM4",
        "LPT1",
        "LPT2",
        "LPT3",
        "LPT4",
    ];
    assert(names@.map_values(|s: &str| s@) =~= reserved_names());
    for i in 0..12
        invariant
            names@.map_values(|s: &str| s@) == reserved_names(),
            forall|j: int| 0 <= j < i ==> !eq_ignore_ascii_case(v@, #[trigger] reserved_names()[j]),
    {
        let name = chars_of(names[i]);
        assert(reserved_names()[i as int] == names@[i as int]@);
        if equal_ignoring_ascii_case(v, name.as_slice()) {
            return true;
        }
    }
    false
}

proof fn lemma_underscore_prefix_not_reserved(b: Seq<char>)
    ensures
        !is_reserved_name(seq!['_'] + b),
{
    let s = seq!['_'] + b;
    assert forall|i: int| 0 <= i < reserved_names().len() implies !eq_ignore_ascii_case(
        s,
        #[trigger] reserved_names()[i],
    ) by {
        reveal_strlit("CON");
        reveal_strlit("PRN");
        reveal_strlit("AUX");
        reveal_strlit("NUL");
        reveal_strlit("COM1");
        reveal_strlit("COM2");
        reveal_strlit("COM3");
        reveal_strlit("COM4");
        reveal_strlit("LPT1");
        reveal_strlit("LPT2");
        reveal_strlit("LPT3");
        reveal_strlit("LPT4");
        let name = reserved_names()[i];
        assert(name.len() > 0);
        assert(ascii_lower(name[0]) != '_');
        assert(ascii_lowercase(s)[0] == '_');
        assert(ascii_lowercase(name)[0] != '_');
    }
}

/// A reserved device name has at most four characters.
proof fn lemma_reserved_name_is_short(b: Seq<char>)
    ensures
        is_reserved_name(b) ==> b.len() <= 4,
{
    if is_reserved_name(b) {
        reveal_strlit("CON");
        reveal_strlit("PRN");
        reveal_strlit("AUX");
        reveal_strlit("NUL");
        reveal_strlit("COM1");
        reveal_strlit("COM2");
        reveal_strlit("COM3");
        reveal_strlit("COM4");
        reveal_strlit("LPT1");
        reveal_strlit("LPT2");
        reveal_strlit("LPT3");
        reveal_strlit("LPT4");
        let i = choose|i: int|
            0 <= i < reserved_names().len() && eq_ignore_ascii_case(b, #[trigger] reserved_names()[i]);
        assert(ascii_lowercase(b).len() == b.len());
        assert(ascii_lowercase(reserved_names()[i]).len() == reserved_names()[i].len());
    }
}

/// `sanitize_filename` does not panic on `value`: its cut to 100 bytes falls
/// on a character boundary.
pub fn sanitize_filename_is_defined(value: &str) -> (r: bool)
    ensures
        r == truncates_on_boundary(sanitize_base(value@), 100),
{
    let base = sanitize_base_chars(&chars_of(value));
    let (k, bytes) = count_chars_within(&base, 100);
    if k == base.len() {
        assert(base@.take(k as int) =~= base@);
        return true;
    }
    proof {
        lemma_utf8_len_concat(base@.take(k as int), base@.skip(k as int));
        assert(base@.take(k as int) + base@.skip(k as int) =~= base@);
        lemma_utf8_len_bounds(base@.skip(k as int));
    }
    bytes == 100
}

/// A name that Windows accepts for a file (see `sanitize_spec`). The result
/// holds no control character and none of `<>:"/\|?*`, is not empty, is no
/// reserved device name, and takes at most 100 bytes.
pub fn sanitize_filename(value: &str) -> (r: String)
    requires
        truncates_on_boundary(sanitize_base(value@), 100),
    ensures
        r@ == sanitize_spec(value@),
        forall|i: int| 0 <= i < r@.len() ==> !is_forbidden_in_name(#[trigger] r@[i]),
        r@.len() > 0,
        !is_reserved_name(r@),
        utf8_len(r@) <= 100,
{
    let v = chars_of(value);
    let base = sanitize_base_chars(&v);
    proof {
        let p = |c: char| !is_forbidden_in_name(c);
        let replaced = replace_forbidden(v@);
        assert forall|i: int| 0 <= i < replaced.len() implies p(#[trigger] replaced[i]) by {}
        lemma_trim_keeps(replaced, p);
        lemma_drop_trailing_keeps(trim(replaced), CharClass::DotOrSpace, p);
        reveal_strlit("timelapse");
        assert forall|i: int| 0 <= i < base@.len() implies p(#[trigger] base@[i]) by {}
    }
    let (k, bytes) = count_chars_within(&base, 100);
    let cut: Vec<char> = if k < base.len() {
        proof {
            lemma_utf8_len_concat(base@.take(k as int), base@.skip(k as int));
            assert(base@.take(k as int) + base@.skip(k as int) =~= base@);
            lemma_utf8_len_bounds(base@.skip(k as int));
        }
        let c = copy_range(base.as_slice(), 0, k);
        assert(c@ =~= base@.take(k as int));
        proof {
            lemma_utf8_len_bounds(c@);
        }
        c
    } else {
        assert(base@.take(k as int) =~= base@);
        base
    };
    assert(cut@ == truncate_bytes(sanitize_base(value@), 100));
    assert(cut@.len() > 0);
    assert(utf8_len(cut@) <= 100);
    if matches_reserved_name(&cut) {
        let mut r: Vec<char> = Vec::new();
        r.push('_');
        append_chars(&mut r, cut.as_slice());
        proof {
            assert(r@ =~= seq!['_'] + cut@);
            lemma_underscore_prefix_not_reserved(cut@);
            lemma_reserved_name_is_short(cut@);
            lemma_utf8_len_bounds(cut@);
            lemma_utf8_len_concat(seq!['_'], cut@);
            lemma_utf8_len_push(Seq::<char>::empty(), '_');
            assert(Seq::<char>::empty().push('_') =~= seq!['_']);
            assert(utf8_len(Seq::<char>::empty()) == 0);
            assert(('_' as u32) < 0x80);
        }
        string_from_chars(r.as_slice())
    } else {
        string_from_chars(cut.as_slice())
    }
}

/// A character of a sanitized ASCII name: ASCII and not forbidden.
pub open spec fn is_clean_ascii(c: char) -> bool {
    (c as u32) < 0x80 && !is_forbidden_in_name(c)
}

/// The shape of a name that `sanitize_base` leaves alone: not empty, clean
/// ASCII, no white space in front, nothing trimmed at the end.
pub open spec fn settled_name(x: Seq<char>) -> bool {
    &&& x.len() > 0
    &&& forall|i: int| 0 <= i < x.len() ==> is_clean_ascii(#[trigger] x[i])
    &&& !is_white_space(x[0])
    &&& !is_white_space(x.last())
    &&& x.last() != '.'
    &&& x.last() != ' '
}

proof fn lemma_settled_name_is_fixed(x: Seq<char>)
    requires
        settled_name(x),
    ensures
        sanitize_base(x) == x,
{
    assert(replace_forbidden(x) =~= x) by {
        assert forall|i: int| 0 <= i < x.len() implies replace_forbidden(x)[i] == x[i] by {
            assert(is_clean_ascii(x[i]));
        }
    }
    assert(drop_leading(x, CharClass::WhiteSpace) == x);
    assert(drop_trailing(x, CharClass::WhiteSpace) == x);
    assert(trim(x) == x);
    assert(drop_trailing(x, CharClass::DotOrSpace) == x);
}

proof fn lemma_timelapse_is_settled()
    ensures
        settled_name("timelapse"@),
{
    reveal_strlit("timelapse");
    let t = "timelapse"@;
    assert(t =~= seq!['t', 'i', 'm', 'e', 'l', 'a', 'p', 's', 'e']);
    assert forall|i: int| 0 <= i < t.len() implies is_clean_ascii(#[trigger] t[i]) by {
        if i == 0 {} else if i == 1 {} else if i == 2 {} else if i == 3 {} else if i == 4 {}
        else if i == 5 {} else if i == 6 {} else if i == 7 {} else {}
    }
}

/// What `sanitize_base` makes of ASCII text: a settled name, no longer than
/// the text (or `timelapse`).
proof fn lemma_base_of_ascii_is_settled(v: Seq<char>)
    requires
        forall|i: int| 0 <= i < v.len() ==> (v[i] as u32) < 0x80,
    ensures
        settled_name(sanitize_base(v)),
        sanitize_base(v).len() <= v.len() || sanitize_base(v) == "timelapse"@,
{
    let rv = replace_forbidden(v);
    let p = |c: char| is_clean_ascii(c);
    assert forall|i: int| 0 <= i < rv.len() implies p(#[trigger] rv[i]) by {
        assert((v[i] as u32) < 0x80);
    }
    let d = drop_leading(rv, CharClass::WhiteSpace);
    let tr = trim(rv);
    let t = drop_trailing(tr, CharClass::DotOrSpace);
    lemma_trim_keeps(rv, p);
    lemma_drop_trailing_keeps(tr, CharClass::DotOrSpace, p);
    lemma_drop_leading_first(rv, CharClass::WhiteSpace);
    lemma_drop_leading_shorter(rv, CharClass::WhiteSpace);
    lemma_drop_trailing_prefix(d, CharClass::WhiteSpace);
    lemma_drop_trailing_prefix(tr, CharClass::DotOrSpace);
    if t.len() == 0 {
        lemma_timelapse_is_settled();
    } else {
        assert(t[0] == tr[0]);
        assert(tr[0] == d[0]);
        assert(!is_white_space(t[0]));
        assert(p(t[t.len() - 1]));
        assert(t.last() == t[t.len() - 1]);
        assert(t.last() != '.' && t.last() != ' ');
        assert(!is_white_space(t.last())) by {
            let c = t.last();
            vstd::utf8::char_u32_cast(c, c as u32);
            assert((' ' as u32) == 0x20);
        }
        assert(forall|i: int| 0 <= i < t.len() ==> is_clean_ascii(#[trigger] t[i]));
        assert(sanitize_base(v) == t);
    }
}

proof fn lemma_chars_within_bounded(s: Seq<char>, n: int)
    ensures
        chars_within(s, n) <= s.len(),
    decreases s.len(),
{
    if s.len() > 0 && utf8_width(s[0]) <= n {
        lemma_chars_within_bounded(s.drop_first(), n - utf8_width(s[0]));
    }
}

/// One of the nine characters that Windows refuses in a file name:
/// `<`, `>`, `:`, `"`, `/`, `\`, `|`, `?`, `*`.
pub open spec fn is_windows_reserved_char(c: char) -> bool {
    c == '<' || c == '>' || c == ':' || c == '"' || c == '/' || c == '\\' || c == '|' || c == '?'
        || c == '*'
}

/// A sanitized name holds none of the nine characters that Windows refuses
/// and no control character (code points 0 to 0x1f and 0x7f to 0x9f).
pub proof fn law_sanitized_names_are_accepted_by_windows(value: Seq<char>)
    requires
        truncates_on_boundary(sanitize_base(value), 100),
    ensures
        forall|i: int|
            0 <= i < sanitize_spec(value).len() ==> {
                let c = #[trigger] sanitize_spec(value)[i];
                &&& !is_windows_reserved_char(c)
                &&& !((c as u32) <= 0x1f || (0x7f <= (c as u32) && (c as u32) <= 0x9f))
            },
{
    let v = value;
    let rv = replace_forbidden(v);
    let p = |c: char| !is_forbidden_in_name(c);
    assert forall|i: int| 0 <= i < rv.len() implies p(#[trigger] rv[i]) by {}
    lemma_trim_keeps(rv, p);
    lemma_drop_trailing_keeps(trim(rv), CharClass::DotOrSpace, p);
    reveal_strlit("timelapse");
    let b = sanitize_base(v);
    assert forall|i: int| 0 <= i < b.len() implies p(#[trigger] b[i]) by {}
    let cut = truncate_bytes(b, 100);
    lemma_chars_within_bounded(b, 100);
    assert forall|i: int| 0 <= i < cut.len() implies p(#[trigger] cut[i]) by {
        if utf8_len(b) > 100 {
            assert(cut[i] == b[i]);
        }
    }
    let r = sanitize_spec(v);
    assert forall|i: int| 0 <= i < r.len() implies p(#[trigger] r[i]) by {
        if is_reserved_name(cut) && i > 0 {
            assert(r[i] == cut[i - 1]);
        }
    }
}

/// On a plain ASCII name of 5 to 100 characters (nothing to trim at either
/// end), sanitizing keeps every character in place except that each of the
/// nine characters Windows refuses and each control character becomes `_`.
pub proof fn law_sanitize_replaces_each_refused_char(value: Seq<char>)
    requires
        5 <= value.len() <= 100,
        forall|i: int| 0 <= i < value.len() ==> (value[i] as u32) < 0x80,
        value[0] != ' ',
        value.last() != ' ',
        value.last() != '.',
    ensures
        truncates_on_boundary(sanitize_base(value), 100),
        sanitize_spec(value).len() == value.len(),
        forall|i: int|
            0 <= i < value.len() ==> #[trigger] sanitize_spec(value)[i] == (if is_windows_reserved_char(
                value[i],
            ) || (value[i] as u32) <= 0x1f || (value[i] as u32) == 0x7f {
                '_'
            } else {
                value[i]
            }),
{
    let rv = replace_forbidden(value);
    assert forall|i: int| 0 <= i < rv.len() implies (rv[i] as u32) < 0x80 && !is_forbidden_in_name(
        #[trigger] rv[i],
    ) by {}
    assert(rv[0] != ' ') by {
        vstd::utf8::char_u32_cast(value[0], value[0] as u32);
    }
    assert(!is_white_space(rv[0])) by {
        vstd::utf8::char_u32_cast(rv[0], rv[0] as u32);
        assert((' ' as u32) == 0x20);
    }
    assert(rv.last() == rv[rv.len() - 1]);
    assert(value.last() == value[value.len() - 1]);
    assert(rv.last() != ' ' && rv.last() != '.');
    assert(!is_white_space(rv.last())) by {
        vstd::utf8::char_u32_cast(rv.last(), rv.last() as u32);
        assert((' ' as u32) == 0x20);
    }
    assert(settled_name(rv));
    lemma_settled_name_is_fixed(rv);
    assert(replace_forbidden(rv) =~= rv) by {
        assert forall|i: int| 0 <= i < rv.len() implies replace_forbidden(rv)[i] == rv[i] by {}
    }
    assert(sanitize_base(value) == rv) by {
        assert(drop_leading(rv, CharClass::WhiteSpace) == rv);
        assert(drop_trailing(rv, CharClass::WhiteSpace) == rv);
        assert(drop_trailing(rv, CharClass::DotOrSpace) == rv);
    }
    lemma_ascii_utf8_len(rv);
    assert(truncate_bytes(rv, 100) == rv);
    lemma_reserved_name_is_short(rv);
    assert forall|i: int| 0 <= i < value.len() implies #[trigger] sanitize_spec(value)[i] == (
    if is_windows_reserved_char(value[i]) || (value[i] as u32) <= 0x1f || (value[i] as u32)
        == 0x7f {
        '_'
    } else {
        value[i]
    }) by {
        assert(rv[i] == (if is_forbidden_in_name(value[i]) { '_' } else { value[i] }));
    }
}

/// Sanitizing a name that was already sanitized changes nothing, for ASCII
/// names of at most 100 characters (longer ones may be cut where a dot or a
/// space is left at the end).
pub proof fn law_sanitize_is_idempotent(value: Seq<char>)
    requires
        forall|i: int| 0 <= i < value.len() ==> (value[i] as u32) < 0x80,
        value.len() <= 100,
    ensures
        truncates_on_boundary(sanitize_base(value), 100),
        truncates_on_boundary(sanitize_base(sanitize_spec(value)), 100),
        sanitize_spec(sanitize_spec(value)) == sanitize_spec(value),
{
    let b = sanitize_base(value);
    lemma_base_of_ascii_is_settled(value);
    reveal_strlit("timelapse");
    lemma_ascii_utf8_len(b);
    assert(truncate_bytes(b, 100) == b);
    let r = sanitize_spec(value);
    lemma_reserved_name_is_short(b);
    if is_reserved_name(b) {
        assert(r == seq!['_'] + b);
        assert(settled_name(r)) by {
            assert(r[0] == '_');
            assert(r.last() == b.last());
            assert forall|i: int| 0 <= i < r.len() implies is_clean_ascii(#[trigger] r[i]) by {
                if i > 0 {
                    assert(r[i] == b[i - 1]);
                }
            }
        }
        lemma_underscore_prefix_not_reserved(b);
    } else {
        assert(r == b);
    }
    lemma_settled_name_is_fixed(r);
    lemma_ascii_utf8_len(r);
    assert(truncate_bytes(r, 100) == r);
}

// ---------------------------------------------------------------------------
// Video extensions
// ---------------------------------------------------------------------------

/// The extensions that are kept for a video.
pub open spec fn is_video_extension(e: Seq<char>) -> bool {
    e == "mp4"@ || e == "mpeg"@ || e == "mpg"@ || e == "mov"@
}

/// The part of `s` before its first `?`.
pub open spec fn before_query(s: Seq<char>) -> Seq<char> {
    split_on(s, '?')[0]
}

/// The lowercased extension of a path when it is a video extension, `mp4`
/// otherwise (also when there is no extension).
pub open spec fn video_extension_of(path: Seq<char>) -> Seq<char> {
    let e = match extension(before_query(path)) {
        Some(e) => ascii_lowercase(e),
        None => "mp4"@,
    };
    if is_video_extension(e) {
        e
    } else {
        "mp4"@
    }
}

/// The extension of the video of `instance`: from `video_path`, or from
/// `video_local_url_suffix` when the path is empty.
pub open spec fn instance_video_extension(instance: TimelapseInstance) -> Seq<char> {
    if instance.video_path@.len() == 0 {
        video_extension_of(instance.video_local_url_suffix@)
    } else {
        video_extension_of(instance.video_path@)
    }
}

fn chars_equal_str(v: &Vec<char>, s: &str) -> (r: bool)
    ensures
        r == (v@ == s@),
{
    let w = chars_of(s);
    chars_equal(v.as_slice(), w.as_slice())
}

/// Whether `e` is a video extension.
pub fn video_extension_is_known(e: &Vec<char>) -> (r: bool)
    ensures
        r == is_video_extension(e@),
{
    chars_equal_str(e, "mp4") || chars_equal_str(e, "mpeg") || chars_equal_str(e, "mpg")
        || chars_equal_str(e, "mov")
}

/// `video_extension_of` on a character sequence.
pub fn video_extension_of_path(path: &Vec<char>) -> (r: Vec<char>)
    ensures
        r@ == video_extension_of(path@),
{
    let pieces = split_chars(path.as_slice(), '?');
    proof {
        lemma_split_nonempty(path@, '?');
    }
    assert(pieces@[0]@ == before_query(path@));
    let e = match path_extension(pieces[0].as_slice()) {
        Some(e) => lowercase_ascii(&e),
        None => chars_of("mp4"),
    };
    if video_extension_is_known(&e) {
        e
    } else {
        chars_of("mp4")
    }
}

/// The extension that the local copy of a timelapse gets.
pub fn video_extension(instance: &TimelapseInstance) -> (r: String)
    ensures
        r@ == instance_video_extension(*instance),
{
    let path = if instance.video_path.as_str().is_empty() {
        chars_of(instance.video_local_url_suffix.as_str())
    } else {
        chars_of(instance.video_path.as_str())
    };
    let e = video_extension_of_path(&path);
    string_from_chars(e.as_slice())
}

// ---------------------------------------------------------------------------
// Download sizes
// ---------------------------------------------------------------------------

/// Why a finished download is rejected.
#[derive(Clone, Copy, Debug, PartialEq, Eq, Structural)]
pub enum DownloadSizeError {
    /// The size differs from the size the printer listed.
    InvalidSize { expected: u64, received: u64 },
    /// The size differs from the `Content-Length` of the response.
    Incomplete { reported: u64, received: u64 },
}

impl DownloadSizeError {
    /// The message shown for the error.
    pub fn message(&self) -> (r: String)
        ensures
            r@ == match *self {
                DownloadSizeError::InvalidSize { expected, received } => "invalid size: expected "@
                    + decimal(expected as nat) + ", received "@ + decimal(received as nat),
                DownloadSizeError::Incomplete { reported, received } => "incomplete download: expected "@
                    + decimal(reported as nat) + ", received "@ + decimal(received as nat),
            },
    {
        let mut out: Vec<char> = Vec::new();
        match *self {
            DownloadSizeError::InvalidSize { expected, received } => {
                append_str(&mut out, "invalid size: expected ");
                push_decimal(&mut out, expected);
                append_str(&mut out, ", received ");
                push_decimal(&mut out, received);
            },
            DownloadSizeError::Incomplete { reported, received } => {
                append_str(&mut out, "incomplete download: expected ");
                push_decimal(&mut out, reported);
                append_str(&mut out, ", received ");
                push_decimal(&mut out, received);
            },
        }
        string_from_chars(out.as_slice())
    }
}

/// Accepts a finished download only when its size matches both the size the
/// printer listed and the size the response announced; a size of zero means
/// "unknown" and is not checked.
pub fn validate_download_size(expected_size: u64, reported_size: u64, received: u64) -> (r: Result<
    (),
    DownloadSizeError,
>)
    ensures
        r is Ok <==> (expected_size == 0 || received == expected_size) && (reported_size == 0
            || received == reported_size),
        expected_size > 0 && received != expected_size ==> r == Err::<(), DownloadSizeError>(
            DownloadSizeError::InvalidSize { expected: expected_size, received },
        ),
        (expected_size == 0 || received == expected_size) && reported_size > 0 && received
            != reported_size ==> r == Err::<(), DownloadSizeError>(
            DownloadSizeError::Incomplete { reported: reported_size, received },
        ),
{
    if expected_size > 0 && received != expected_size {
        return Err(DownloadSizeError::InvalidSize { expected: expected_size, received });
    }
    if reported_size > 0 && received != reported_size {
        return Err(DownloadSizeError::Incomplete { reported: reported_size, received });
    }
    Ok(())
}


// ---------------------------------------------------------------------------
// The name of the local copy
// ---------------------------------------------------------------------------

/// The `chrono` format of the time stamp that starts a local file name.
pub open spec fn file_timestamp_pattern() -> Seq<char> {
    "%Y-%m-%d_%H-%M-%S"@
}

/// What `chrono` writes for the UTC instant `secs` seconds after the Unix
/// epoch in the format `pattern`, or `None` when `chrono` cannot represent
/// that instant.
pub uninterp spec fn utc_timestamp_text(secs: int, pattern: Seq<char>) -> Option<Seq<char>>;

/// `Utc.timestamp_opt(secs, 0).single()` formatted by `DateTime::format` with
/// the file name pattern: `None` exactly outside the instants that `chrono`
/// represents. The contract names the text: the calendar arithmetic of
/// `chrono` is not stated here.
#[verifier::external_body]
fn format_utc_timestamp(secs: i64, pattern: &str) -> (r: Option<String>)
    requires
        pattern@ == file_timestamp_pattern(),
    ensures
        r is Some <==> MIN_TIMESTAMP <= secs <= MAX_TIMESTAMP,
        match r {
            Some(t) => utc_timestamp_text(secs as int, pattern@) == Some(t@),
            None => utc_timestamp_text(secs as int, pattern@) is None,
        },
{
    match chrono::Utc.timestamp_opt(secs, 0).single() {
        Some(t) => Some(t.format(pattern).to_string()),
        None => None,
    }
}

/// The text of some instant that `chrono` represents, in the file name pattern.
pub open spec fn is_timestamp_label(label: Seq<char>) -> bool {
    exists|t: int|
        MIN_TIMESTAMP <= t <= MAX_TIMESTAMP && #[trigger] utc_timestamp_text(t, file_timestamp_pattern())
            == Some(label)
}

/// `Utc::now()` formatted by `DateTime::format` with the file name pattern.
/// It depends on the clock, so only this is stated: the text is that of a
/// whole second that `chrono` represents (the pattern shows no fraction).
#[verifier::external_body]
fn format_utc_now(pattern: &str) -> (r: String)
    requires
        pattern@ == file_timestamp_pattern(),
    ensures
        is_timestamp_label(r@),
{
    chrono::Utc::now().format(pattern).to_string()
}

/// The name part of a local file name: the trimmed G-code name, or
/// `timelapse` when it is blank.
pub open spec fn raw_file_stem(instance: TimelapseInstance) -> Seq<char> {
    if trim(instance.gcode_name@).len() == 0 {
        "timelapse"@
    } else {
        trim(instance.gcode_name@)
    }
}

/// `local_filename` can name the copy of `instance` without panicking.
pub open spec fn local_filename_defined(instance: TimelapseInstance) -> bool {
    truncates_on_boundary(sanitize_base(raw_file_stem(instance)), 100)
}

/// `{label}_{sanitized name}.{extension}`.
pub open spec fn local_filename_spec(instance: TimelapseInstance, label: Seq<char>) -> Seq<char> {
    label + seq!['_'] + sanitize_spec(raw_file_stem(instance)) + seq!['.']
        + instance_video_extension(instance)
}

/// Whether `local_filename` is defined for `instance`.
pub fn local_filename_is_defined(instance: &TimelapseInstance) -> (r: bool)
    ensures
        r == local_filename_defined(*instance),
{
    let raw = raw_stem_string(instance);
    sanitize_filename_is_defined(raw.as_str())
}

fn raw_stem_string(instance: &TimelapseInstance) -> (r: String)
    ensures
        r@ == raw_file_stem(*instance),
{
    let t = trim_chars(chars_of(instance.gcode_name.as_str()).as_slice());
    if t.len() == 0 {
        string_of("timelapse")
    } else {
        string_from_chars(t.as_slice())
    }
}

/// The local file name of `instance` with the time stamp `label`.
pub fn local_filename_with_label(instance: &TimelapseInstance, label: &str) -> (r: String)
    requires
        local_filename_defined(*instance),
    ensures
        r@ == local_filename_spec(*instance, label@),
{
    let raw = raw_stem_string(instance);
    let stem = sanitize_filename(raw.as_str());
    let ext = video_extension(instance);
    let mut out = chars_of(label);
    out.push('_');
    append_str(&mut out, stem.as_str());
    out.push('.');
    append_str(&mut out, ext.as_str());
    string_from_chars(out.as_slice())
}

/// The local file name of `instance`: the UTC time of the recording (or of now,
/// when the recording time is unknown or not representable), the sanitized
/// G-code name and the video extension.
pub fn local_filename(instance: &TimelapseInstance) -> (r: String)
    requires
        local_filename_defined(*instance),
    ensures
        exists|label: Seq<char>|
            is_timestamp_label(label) && r@ == #[trigger] local_filename_spec(*instance, label),
        0 < instance.unix_timestamp_s <= MAX_TIMESTAMP ==> r@ == local_filename_spec(
            *instance,
            utc_timestamp_text(instance.unix_timestamp_s as int, file_timestamp_pattern())->0,
        ),
{
    let pattern = "%Y-%m-%d_%H-%M-%S";
    let label = if instance.unix_timestamp_s > 0 {
        match format_utc_timestamp(instance.unix_timestamp_s, pattern) {
            Some(t) => {
                assert(utc_timestamp_text(instance.unix_timestamp_s as int, file_timestamp_pattern())
                    == Some(t@));
                t
            },
            None => format_utc_now(pattern),
        }
    } else {
        format_utc_now(pattern)
    };
    assert(is_timestamp_label(label@));
    local_filename_with_label(instance, label.as_str())
}

/// The name shown for a timelapse: its G-code name, else the file name of its
/// video path, else `timelapse`.
pub open spec fn display_name_spec(instance: TimelapseInstance) -> Seq<char> {
    if instance.gcode_name@.len() == 0 {
        match file_name(instance.video_path@) {
            Some(n) => n,
            None => "timelapse"@,
        }
    } else {
        instance.gcode_name@
    }
}

/// The name shown for a timelapse while it is synced.
pub fn display_name(instance: &TimelapseInstance) -> (r: String)
    ensures
        r@ == display_name_spec(*instance),
{
    if instance.gcode_name.as_str().is_empty() {
        match path_file_name(chars_of(instance.video_path.as_str()).as_slice()) {
            Some(f) => string_from_chars(f.name.as_slice()),
            None => string_of("timelapse"),
        }
    } else {
        instance.gcode_name.clone()
    }
}

/// The first suffix tried when the preferred file name is taken.
pub const FIRST_CONFLICT_SUFFIX: u32 = 2;

/// One past the last suffix tried when the preferred file name is taken.
pub const CONFLICT_SUFFIX_END: u32 = 10000;

/// `{stem} ({suffix}).{extension}`: the name tried when `file_name` is taken,
/// with `timelapse` and `mp4` standing in for a missing stem or extension.
pub open spec fn conflict_name_spec(file_name: Seq<char>, suffix: u32) -> Seq<char> {
    let stem = match file_stem(file_name) {
        Some(s) => s,
        None => "timelapse"@,
    };
    let ext = match extension(file_name) {
        Some(e) => e,
        None => "mp4"@,
    };
    stem + " ("@ + decimal(suffix as nat) + ")."@ + ext
}

/// The name tried when `file_name` is taken by a different file.
pub fn conflict_file_name(file_name: &str, suffix: u32) -> (r: String)
    ensures
        r@ == conflict_name_spec(file_name@, suffix),
{
    let name = chars_of(file_name);
    let stem = match path_file_stem(name.as_slice()) {
        Some(s) => s,
        None => chars_of("timelapse"),
    };
    let ext = match path_extension(name.as_slice()) {
        Some(e) => e,
        None => chars_of("mp4"),
    };
    let mut out = stem;
    append_str(&mut out, " (");
    push_decimal(&mut out, suffix as u64);
    append_str(&mut out, ").");
    append_chars(&mut out, ext.as_slice());
    string_from_chars(out.as_slice())
}

/// Where the copy of a timelapse goes, given what is at the preferred path.
#[derive(Clone, Copy, Debug, PartialEq, Eq, Structural)]
pub enum TargetChoice {
    /// The preferred path; `already_present` when a file of the expected size
    /// is there.
    Preferred { already_present: bool },
    /// The preferred path holds another file: try the conflict names in turn.
    SearchFreeName,
}

/// Chooses the target from the size of the file at the preferred path, if any
/// (a size of zero is unknown and never matches).
pub fn choose_target(existing_len: Option<u64>, expected_size: u64) -> (r: TargetChoice)
    ensures
        existing_len is None ==> r == (TargetChoice::Preferred { already_present: false }),
        existing_len matches Some(len) ==> (expected_size > 0 && len == expected_size
            <==> r == (TargetChoice::Preferred { already_present: true })),
        existing_len matches Some(len) ==> (!(expected_size > 0 && len == expected_size)
            <==> r == TargetChoice::SearchFreeName),
{
    match existing_len {
        None => TargetChoice::Preferred { already_present: false },
        Some(len) => if expected_size > 0 && len == expected_size {
            TargetChoice::Preferred { already_present: true }
        } else {
            TargetChoice::SearchFreeName
        },
    }
}

/// The search for a free name when the preferred file name is taken: the
/// conflict names with suffixes `FIRST_CONFLICT_SUFFIX`, `FIRST_CONFLICT_SUFFIX
/// + 1`, ... are offered in turn until one is free or the suffixes run out.
pub struct FreeNameSearch {
    /// The preferred file name.
    pub file_name: String,
    /// The suffix of the name offered next.
    pub next: u32,
    /// The names found taken so far, in order.
    pub taken: Ghost<Seq<Seq<char>>>,
}

impl FreeNameSearch {
    /// The names found taken are exactly the conflict names of the suffixes
    /// before `next`; so a name offered now is the first that was not found
    /// taken.
    pub open spec fn well_formed(self) -> bool {
        &&& FIRST_CONFLICT_SUFFIX <= self.next <= CONFLICT_SUFFIX_END
        &&& self.taken@.len() == self.next - FIRST_CONFLICT_SUFFIX
        &&& forall|k: int|
            0 <= k < self.taken@.len() ==> #[trigger] self.taken@[k] == conflict_name_spec(
                self.file_name@,
                (k + FIRST_CONFLICT_SUFFIX) as u32,
            )
    }

    /// A search for a free name instead of `file_name`.
    pub fn new(file_name: String) -> (r: FreeNameSearch)
        ensures
            r.well_formed(),
            r.file_name == file_name,
            r.next == FIRST_CONFLICT_SUFFIX,
            r.taken@.len() == 0,
    {
        FreeNameSearch { file_name, next: FIRST_CONFLICT_SUFFIX, taken: Ghost(Seq::empty()) }
    }

    /// The name to try next; `None` once every suffix was found taken.
    pub fn candidate(&self) -> (r: Option<String>)
        requires
            self.well_formed(),
        ensures
            r is None <==> self.next == CONFLICT_SUFFIX_END,
            r matches Some(n) ==> n@ == conflict_name_spec(self.file_name@, self.next),
    {
        if self.next >= CONFLICT_SUFFIX_END {
            None
        } else {
            Some(conflict_file_name(self.file_name.as_str(), self.next))
        }
    }

    /// The name offered last is taken: move on to the next suffix.
    pub fn mark_taken(&mut self)
        requires
            old(self).well_formed(),
            old(self).next < CONFLICT_SUFFIX_END,
        ensures
            final(self).well_formed(),
            final(self).file_name == old(self).file_name,
            final(self).next == old(self).next + 1,
            final(self).taken@ == old(self).taken@.push(
                conflict_name_spec(old(self).file_name@, old(self).next),
            ),
    {
        let ghost name = conflict_name_spec(self.file_name@, self.next);
        self.taken = Ghost(self.taken@.push(name));
        self.next = self.next + 1;
    }
}

// ---------------------------------------------------------------------------
// Progress
// ---------------------------------------------------------------------------

/// The progress shown while files are processed: the share of completed
/// files, in percent (the product saturating at `usize::MAX`), at most 99.
pub open spec fn counts_progress(completed: int, total: int) -> int {
    let product = if completed * 100 > usize::MAX { usize::MAX as int } else { completed * 100 };
    let p = product / total;
    if p > 99 {
        99
    } else {
        p
    }
}

/// The progress of the files of a sync, out of `total` (at least one).
pub fn progress_percent(completed: usize, total: usize) -> (r: u8)
    requires
        total >= 1,
    ensures
        r == counts_progress(completed as int, total as int),
        r <= 99,
{
    let product = match completed.checked_mul(100) {
        Some(v) => v,
        None => usize::MAX,
    };
    let p = product / total;
    if p > 99 {
        99
    } else {
        p as u8
    }
}

/// The progress of one download: the received share of the announced size,
/// in percent (the product saturating at `u64::MAX`), at most 99; `None` when
/// the size is unknown (zero).
pub fn download_progress(received: u64, reported_size: u64) -> (r: Option<u8>)
    ensures
        reported_size == 0 <==> r is None,
        r matches Some(p) ==> p <= 99 && p == ({
            let product = if received * 100 > u64::MAX { u64::MAX as int } else { received * 100 };
            let q = product / (reported_size as int);
            if q > 99 { 99 } else { q }
        }),
{
    if reported_size == 0 {
        return None;
    }
    let product = match received.checked_mul(100) {
        Some(v) => v,
        None => u64::MAX,
    };
    let q = product / reported_size;
    Some(if q > 99 { 99 } else { q as u8 })
}

// ---------------------------------------------------------------------------
// Status updates
// ---------------------------------------------------------------------------

/// The status when a sync starts listing the printer's files.
pub fn begin_listing(status: &mut SyncStatus)
    ensures
        final(status).phase@ == "listing"@,
        final(status).running,
        final(status).current_file is None,
        final(status).progress_percent == 0,
        final(status).downloaded == 0,
        final(status).skipped == 0,
        final(status).failed == 0,
        final(status).last_error is None,
        final(status).last_sync == old(status).last_sync,
        final(status).next_sync == old(status).next_sync,
{
    status.phase = string_of("listing");
    status.running = true;
    status.current_file = None;
    status.progress_percent = 0;
    status.downloaded = 0;
    status.skipped = 0;
    status.failed = 0;
    status.last_error = None;
}

/// `after` is `before` showing the counts of `summary`, the file at hand and
/// the progress of `completed` files out of `total`; the phase is `stopping`
/// once a pause is asked for, `downloading` otherwise.
pub open spec fn shows_counts(
    before: SyncStatus,
    after: SyncStatus,
    summary: SyncSummary,
    completed: int,
    total: int,
    current_file: Option<String>,
    stopping: bool,
) -> bool {
    &&& after.phase@ == (if stopping { "stopping"@ } else { "downloading"@ })
    &&& after.downloaded == summary.downloaded
    &&& after.skipped == summary.skipped
    &&& after.failed == summary.failed
    &&& after.current_file == current_file
    &&& after.progress_percent == counts_progress(completed, total)
    &&& after.running == before.running
    &&& after.last_error == before.last_error
    &&& after.last_sync == before.last_sync
    &&& after.next_sync == before.next_sync
}

/// The status while files are processed: `stopping` once a pause is asked
/// for, the counts of `summary`, the file at hand and the progress.
pub fn show_counts(
    status: &mut SyncStatus,
    summary: SyncSummary,
    completed: usize,
    total: usize,
    current_file: Option<String>,
    stopping: bool,
)
    requires
        total >= 1,
    ensures
        shows_counts(
            *old(status),
            *final(status),
            summary,
            completed as int,
            total as int,
            current_file,
            stopping,
        ),
        final(status).progress_percent <= 99,
{
    status.phase = if stopping {
        string_of("stopping")
    } else {
        string_of("downloading")
    };
    status.downloaded = summary.downloaded;
    status.skipped = summary.skipped;
    status.failed = summary.failed;
    status.current_file = current_file;
    status.progress_percent = progress_percent(completed, total);
}

/// `after` is `before` at the end of a sync: idle, not running, no file at
/// hand, complete unless it was stopped (then the progress stays), synced at
/// `now`, next sync as the schedule says; the counts and the last error stay.
pub open spec fn ends_sync(
    before: SyncStatus,
    after: SyncStatus,
    stopped: bool,
    now: UtcTimestamp,
    config: AppConfig,
) -> bool {
    &&& after.phase@ == "idle"@
    &&& !after.running
    &&& after.current_file is None
    &&& after.progress_percent == (if stopped { before.progress_percent } else { 100 })
    &&& after.last_sync == Some(now)
    &&& after.next_sync == config.next_sync_spec(now)
    &&& after.downloaded == before.downloaded
    &&& after.skipped == before.skipped
    &&& after.failed == before.failed
    &&& after.last_error == before.last_error
}

/// The status when a sync ends: idle, not running, complete unless it was
/// stopped, synced at `now`, next sync as the schedule says.
pub fn finish_sync(status: &mut SyncStatus, stopped: bool, now: UtcTimestamp, config: &AppConfig)
    requires
        config.next_sync_defined(now),
    ensures
        ends_sync(*old(status), *final(status), stopped, now, *config),
{
    status.phase = string_of("idle");
    status.running = false;
    status.current_file = None;
    if !stopped {
        status.progress_percent = 100;
    }
    status.last_sync = Some(now);
    status.next_sync = config.next_sync_from(now);
}

/// The status when a sync fails before its files: `error`, not running, the
/// message, synced at `now`, next sync as the schedule says.
pub fn fail_sync(status: &mut SyncStatus, message: String, now: UtcTimestamp, config: &AppConfig)
    requires
        config.next_sync_defined(now),
    ensures
        final(status).phase@ == "error"@,
        !final(status).running,
        final(status).current_file is None,
        final(status).last_error == Some(message),
        final(status).last_sync == Some(now),
        final(status).next_sync == config.next_sync_spec(now),
        final(status).progress_percent == old(status).progress_percent,
        final(status).downloaded == old(status).downloaded,
        final(status).skipped == old(status).skipped,
        final(status).failed == old(status).failed,
{
    status.phase = string_of("error");
    status.running = false;
    status.current_file = None;
    status.last_error = Some(message);
    status.last_sync = Some(now);
    status.next_sync = config.next_sync_from(now);
}

// ---------------------------------------------------------------------------
// The files of a sync
// ---------------------------------------------------------------------------

/// Whether a pause was asked for; it is read before each file.
pub fn should_stop_before_next_file(stop_requested: &AtomicBool) -> (r: bool) {
    stop_requested.load(Ordering::Acquire)
}

/// Why a sync does not start.
#[derive(Clone, Copy, Debug, PartialEq, Eq, Structural)]
pub enum SyncError {
    /// No printer, or one that is not paired.
    NoPairedPrinter,
    /// The destination folder is blank.
    NoDestination,
}

impl SyncError {
    pub fn message(&self) -> (r: String)
        ensures
            r@ == match *self {
                SyncError::NoPairedPrinter => "connect a printer before syncing"@,
                SyncError::NoDestination => "select a destination folder"@,
            },
    {
        match self {
            SyncError::NoPairedPrinter => string_of("connect a printer before syncing"),
            SyncError::NoDestination => string_of("select a destination folder"),
        }
    }
}

/// The printer a sync talks to: a paired printer and a destination are needed.
pub fn sync_printer(config: &AppConfig) -> (r: Result<PrinterConfig, SyncError>)
    ensures
        match r {
            Ok(p) => config.printer == Some(p) && p.paired && trim(config.destination@).len() > 0,
            Err(SyncError::NoPairedPrinter) => !(config.printer matches Some(p) && p.paired),
            Err(SyncError::NoDestination) => (config.printer matches Some(p) && p.paired) && trim(
                config.destination@,
            ).len() == 0,
        },
{
    let printer = match &config.printer {
        Some(p) => if p.paired {
            p.duplicate()
        } else {
            return Err(SyncError::NoPairedPrinter);
        },
        None => return Err(SyncError::NoPairedPrinter),
    };
    if is_blank(chars_of(config.destination.as_str()).as_slice()) {
        return Err(SyncError::NoDestination);
    }
    Ok(printer)
}

/// A transfer that ended well: downloaded or already present.
pub open spec fn is_completed(entry: HistoryEntry) -> bool {
    entry.result == HistoryResult::Downloaded || entry.result == HistoryResult::AlreadyPresent
}

/// The index of the last completed transfer under `key` in `history`.
pub open spec fn last_completed(history: Seq<HistoryEntry>, key: Seq<char>) -> Option<int>
    decreases history.len(),
{
    if history.len() == 0 {
        None
    } else if history.last().remote_key@ == key && is_completed(history.last()) {
        Some(history.len() - 1)
    } else {
        last_completed(history.drop_last(), key)
    }
}

/// The history entry that says a timelapse was synced: the last completed
/// transfer under its key.
pub fn find_completed(history: &Vec<HistoryEntry>, key: &str) -> (r: Option<usize>)
    ensures
        match r {
            Some(i) => last_completed(history@, key@) == Some(i as int),
            None => last_completed(history@, key@) is None,
        },
{
    let k = chars_of(key);
    let mut i = history.len();
    assert(history@.take(i as int) =~= history@);
    while i > 0
        invariant
            i <= history@.len(),
            last_completed(history@, key@) == last_completed(history@.take(i as int), key@),
            k@ == key@,
        decreases i,
    {
        let entry = &history[i - 1];
        let ghost prefix = history@.take(i as int);
        assert(prefix.last() == history@[i - 1]);
        assert(prefix.drop_last() =~= history@.take(i - 1));
        let same_key = chars_equal(chars_of(entry.remote_key.as_str()).as_slice(), k.as_slice());
        let completed = match entry.result {
            HistoryResult::Downloaded => true,
            HistoryResult::AlreadyPresent => true,
            HistoryResult::Failed => false,
        };
        if same_key && completed {
            return Some(i - 1);
        }
        i = i - 1;
    }
    None
}

/// Whether a path names a regular file, and the size of what is there.
#[derive(Clone, Copy, Debug, PartialEq, Eq, Structural)]
pub struct FileMetadata {
    pub is_file: bool,
    pub len: u64,
}

/// What is known of the file at the path a history entry recorded.
#[derive(Clone, Copy, Debug, PartialEq, Eq, Structural)]
pub struct LocalFileProbe {
    /// The recorded path lies inside the destination folder.
    pub inside_destination: bool,
    /// Whether it is a regular file, and its size, when it exists.
    pub metadata: Option<FileMetadata>,
}

/// The local copy still counts: a path was recorded, it lies in the
/// destination, a file is there, and its size is the expected size (the
/// listed size, else the recorded one; zero is not checked).
pub open spec fn local_copy_valid_spec(entry: HistoryEntry, expected_size: u64, probe: LocalFileProbe) -> bool {
    let size = if expected_size > 0 { expected_size } else { entry.size };
    &&& trim(entry.local_path@).len() > 0
    &&& probe.inside_destination
    &&& probe.metadata matches Some(m) && m.is_file && (size == 0 || m.len == size)
}

/// Whether the local copy recorded by `entry` is still valid.
pub fn local_copy_is_valid(entry: &HistoryEntry, expected_size: u64, probe: LocalFileProbe) -> (r: bool)
    ensures
        r == local_copy_valid_spec(*entry, expected_size, probe),
{
    if is_blank(chars_of(entry.local_path.as_str()).as_slice()) {
        return false;
    }
    if !probe.inside_destination {
        return false;
    }
    match probe.metadata {
        None => false,
        Some(m) => {
            if !m.is_file {
                return false;
            }
            let size = if expected_size > 0 {
                expected_size
            } else {
                entry.size
            };
            size == 0 || m.len == size
        },
    }
}

/// Whether a path lies in a folder: the folder's path components, as
/// `Path::components` gives them, are the first components of the path
/// (`Path::starts_with` compares whole components).
pub open spec fn components_start_with(path: Seq<Seq<char>>, folder: Seq<Seq<char>>) -> bool {
    folder.len() <= path.len() && forall|i: int| 0 <= i < folder.len() ==> path[i] == folder[i]
}

/// Whether the path with components `path` lies in the folder with components
/// `folder`.
pub fn lies_in_folder(path: &Vec<String>, folder: &Vec<String>) -> (r: bool)
    ensures
        r == components_start_with(path@.map_values(|c: String| c@), folder@.map_values(|c: String| c@)),
{
    let ghost p = path@.map_values(|c: String| c@);
    let ghost f = folder@.map_values(|c: String| c@);
    if folder.len() > path.len() {
        return false;
    }
    for i in 0..folder.len()
        invariant
            folder@.len() <= path@.len(),
            p == path@.map_values(|c: String| c@),
            f == folder@.map_values(|c: String| c@),
            forall|j: int| 0 <= j < i ==> p[j] == f[j],
    {
        let a = chars_of(path[i].as_str());
        let b = chars_of(folder[i].as_str());
        assert(p[i as int] == path@[i as int]@);
        assert(f[i as int] == folder@[i as int]@);
        if !chars_equal(a.as_slice(), b.as_slice()) {
            return false;
        }
    }
    true
}

/// A local copy counts only at the exact size: when the size to check (the
/// listed size, else the recorded one) is not zero, a copy whose length
/// differs from it, larger or smaller, is not valid, and the timelapse is
/// downloaded again; and of two probes that differ only in the length, at
/// most one gives a valid copy.
pub proof fn law_changed_copy_is_downloaded_again(
    history: Seq<HistoryEntry>,
    key: Seq<char>,
    expected_size: u64,
    inside: bool,
    m: FileMetadata,
    other_len: u64,
)
    ensures
        last_completed(history, key) matches Some(i) ==> ({
            let size = if expected_size > 0 { expected_size } else { history[i].size };
            size != 0 && m.len != size ==> !local_copy_valid_spec(
                history[i],
                expected_size,
                LocalFileProbe { inside_destination: inside, metadata: Some(m) },
            ) && file_action_spec(
                history,
                key,
                expected_size,
                Some(LocalFileProbe { inside_destination: inside, metadata: Some(m) }),
            ) == FileAction::Download
        }),
        forall|entry: HistoryEntry|
            #![trigger local_copy_valid_spec(entry, expected_size, LocalFileProbe { inside_destination: inside, metadata: Some(m) })]
            (if expected_size > 0 { expected_size } else { entry.size }) != 0 && other_len != m.len
                && local_copy_valid_spec(
                entry,
                expected_size,
                LocalFileProbe { inside_destination: inside, metadata: Some(m) },
            ) ==> !local_copy_valid_spec(
                entry,
                expected_size,
                LocalFileProbe {
                    inside_destination: inside,
                    metadata: Some(FileMetadata { is_file: m.is_file, len: other_len }),
                },
            ),
{
}

/// What the sync does with one listed timelapse.
#[derive(Clone, Copy, Debug, PartialEq, Eq, Structural)]
pub enum FileAction {
    /// An earlier transfer left a valid copy: keep it and skip the download.
    KeepEarlierCopy,
    /// Download the timelapse.
    Download,
}

/// A timelapse is skipped exactly when the last completed transfer under its
/// key left a copy that is still valid (`probe` describes the file at the
/// path that transfer recorded); otherwise it is downloaded.
pub open spec fn file_action_spec(
    history: Seq<HistoryEntry>,
    key: Seq<char>,
    expected_size: u64,
    probe: Option<LocalFileProbe>,
) -> FileAction {
    match last_completed(history, key) {
        Some(i) => match probe {
            Some(p) => if local_copy_valid_spec(history[i], expected_size, p) {
                FileAction::KeepEarlierCopy
            } else {
                FileAction::Download
            },
            None => FileAction::Download,
        },
        None => FileAction::Download,
    }
}

/// Decides whether a listed timelapse is downloaded, given what is on disk at
/// the path of the last completed transfer under `key` (`probe`, read for the
/// entry that `find_completed` names; `None` when nothing was read).
pub fn file_action(
    history: &Vec<HistoryEntry>,
    key: &str,
    expected_size: u64,
    probe: Option<LocalFileProbe>,
) -> (a: FileAction)
    ensures
        a == file_action_spec(history@, key@, expected_size, probe),
        a == FileAction::KeepEarlierCopy <==> (last_completed(history@, key@) matches Some(i)
            && probe matches Some(p) && local_copy_valid_spec(history@[i], expected_size, p)),
{
    match find_completed(history, key) {
        None => FileAction::Download,
        Some(i) => {
            proof {
                lemma_last_completed_bounds(history@, key@);
            }
            match probe {
                None => FileAction::Download,
                Some(p) => if local_copy_is_valid(&history[i], expected_size, p) {
                    FileAction::KeepEarlierCopy
                } else {
                    FileAction::Download
                },
            }
        },
    }
}

proof fn lemma_last_completed_bounds(history: Seq<HistoryEntry>, key: Seq<char>)
    ensures
        last_completed(history, key) matches Some(i) ==> 0 <= i < history.len(),
    decreases history.len(),
{
    if history.len() > 0 {
        lemma_last_completed_bounds(history.drop_last(), key);
    }
}

/// How one file of a sync ended.
#[derive(Clone, Copy, Debug, PartialEq, Eq, Structural)]
pub enum FileOutcome {
    /// A valid copy from an earlier sync is kept.
    KeptEarlierCopy,
    /// The video was downloaded.
    Downloaded,
    /// A file of the same name and size was already in the destination.
    AlreadyPresent,
    /// The download failed.
    Failed,
}

/// The counts after the outcomes `outcomes`, from zero.
pub open spec fn tally(outcomes: Seq<FileOutcome>) -> (int, int, int)
    decreases outcomes.len(),
{
    if outcomes.len() == 0 {
        (0, 0, 0)
    } else {
        let (d, s, f) = tally(outcomes.drop_last());
        match outcomes.last() {
            FileOutcome::Downloaded => (d + 1, s, f),
            FileOutcome::KeptEarlierCopy => (d, s + 1, f),
            FileOutcome::AlreadyPresent => (d, s + 1, f),
            FileOutcome::Failed => (d, s, f + 1),
        }
    }
}

/// The progress of a sync through its list of files.
pub struct SyncRun {
    /// The counts so far.
    pub summary: SyncSummary,
    /// The number of files listed.
    pub total: usize,
    /// The number of files processed.
    pub processed: usize,
    /// A pause was observed before the next file.
    pub stopped: bool,
    /// The outcome of each processed file, in order.
    pub outcomes: Ghost<Seq<FileOutcome>>,
}

/// What to do before the next file.
#[derive(Clone, Copy, Debug, PartialEq, Eq, Structural)]
pub enum NextFile {
    /// A pause was asked for: stop the sync here.
    Stop,
    /// Process the file with this index.
    Process(usize),
}

impl SyncRun {
    /// The counts always describe the outcomes so far, one per processed file.
    pub open spec fn well_formed(self) -> bool {
        &&& self.processed <= self.total
        &&& self.outcomes@.len() == self.processed
        &&& tally(self.outcomes@) == (
            self.summary.downloaded as int,
            self.summary.skipped as int,
            self.summary.failed as int,
        )
    }

    /// Every file has been processed, or the sync was stopped.
    pub open spec fn is_done(self) -> bool {
        self.stopped || self.processed == self.total
    }

    /// A sync over `total` files, none processed yet.
    pub fn new(total: usize) -> (r: SyncRun)
        ensures
            r.well_formed(),
            r.total == total,
            r.processed == 0,
            !r.stopped,
            r.summary == (SyncSummary { downloaded: 0, skipped: 0, failed: 0 }),
    {
        SyncRun {
            summary: SyncSummary { downloaded: 0, skipped: 0, failed: 0 },
            total,
            processed: 0,
            stopped: false,
            outcomes: Ghost(Seq::empty()),
        }
    }

    /// Whether every file has been processed or the sync was stopped.
    pub fn done(&self) -> (r: bool)
        ensures
            r == self.is_done(),
    {
        self.stopped || self.processed == self.total
    }

    /// The divisor of the progress: the number of files, at least one.
    pub fn progress_total(&self) -> (r: usize)
        ensures
            r >= 1,
            r == (if self.total == 0 { 1 } else { self.total as int }),
    {
        if self.total == 0 {
            1
        } else {
            self.total
        }
    }

    /// Before the next file: stop when a pause was asked for, else process it.
    pub fn next_file(&mut self, stop_requested: bool) -> (r: NextFile)
        requires
            old(self).well_formed(),
            !old(self).is_done(),
        ensures
            final(self).well_formed(),
            stop_requested ==> r == NextFile::Stop && final(self).stopped,
            !stop_requested ==> r == NextFile::Process(old(self).processed) && !final(self).stopped,
            final(self).summary == old(self).summary,
            final(self).processed == old(self).processed,
            final(self).total == old(self).total,
            final(self).outcomes == old(self).outcomes,
    {
        if stop_requested {
            self.stopped = true;
            NextFile::Stop
        } else {
            NextFile::Process(self.processed)
        }
    }

    /// Records how the current file ended.
    pub fn record(&mut self, outcome: FileOutcome)
        requires
            old(self).well_formed(),
            !old(self).is_done(),
        ensures
            final(self).well_formed(),
            final(self).processed == old(self).processed + 1,
            final(self).total == old(self).total,
            final(self).stopped == old(self).stopped,
            final(self).outcomes@ == old(self).outcomes@.push(outcome),
            final(self).summary == (match outcome {
                FileOutcome::Downloaded => SyncSummary {
                    downloaded: (old(self).summary.downloaded + 1) as u64,
                    ..old(self).summary
                },
                FileOutcome::Failed => SyncSummary {
                    failed: (old(self).summary.failed + 1) as u64,
                    ..old(self).summary
                },
                _ => SyncSummary { skipped: (old(self).summary.skipped + 1) as u64, ..old(self).summary },
            }),
    {
        proof {
            lemma_tally_bounded(self.outcomes@);
            assert(self.outcomes@.push(outcome).drop_last() =~= self.outcomes@);
        }
        match outcome {
            FileOutcome::Downloaded => {
                self.summary.downloaded = self.summary.downloaded + 1;
            },
            FileOutcome::Failed => {
                self.summary.failed = self.summary.failed + 1;
            },
            _ => {
                self.summary.skipped = self.summary.skipped + 1;
            },
        }
        self.processed = self.processed + 1;
        self.outcomes = Ghost(self.outcomes@.push(outcome));
    }
}

/// Each count is at most the number of outcomes, and together they make up all
/// of them.
pub proof fn lemma_tally_bounded(outcomes: Seq<FileOutcome>)
    ensures
        0 <= tally(outcomes).0 <= outcomes.len(),
        0 <= tally(outcomes).1 <= outcomes.len(),
        0 <= tally(outcomes).2 <= outcomes.len(),
        tally(outcomes).0 + tally(outcomes).1 + tally(outcomes).2 == outcomes.len(),
    decreases outcomes.len(),
{
    if outcomes.len() > 0 {
        lemma_tally_bounded(outcomes.drop_last());
    }
}

/// Every processed file is counted exactly once: downloaded, skipped and
/// failed add up to the number of files processed, which never exceeds the
/// number listed.
pub proof fn law_counts_add_up(run: SyncRun)
    requires
        run.well_formed(),
    ensures
        run.summary.downloaded + run.summary.skipped + run.summary.failed == run.processed,
        run.processed <= run.total,
{
    lemma_tally_bounded(run.outcomes@);
}

/// The tally of `outcomes` counts each kind of outcome: downloads, kept or
/// already present copies, and failures.
proof fn lemma_tally_counts_each_kind(outcomes: Seq<FileOutcome>)
    ensures
        tally(outcomes).0 == outcomes.filter(|o: FileOutcome| o == FileOutcome::Downloaded).len(),
        tally(outcomes).1 == outcomes.filter(
            |o: FileOutcome| o == FileOutcome::KeptEarlierCopy || o == FileOutcome::AlreadyPresent,
        ).len(),
        tally(outcomes).2 == outcomes.filter(|o: FileOutcome| o == FileOutcome::Failed).len(),
    decreases outcomes.len(),
{
    reveal_with_fuel(Seq::filter, 1);
    if outcomes.len() > 0 {
        lemma_tally_counts_each_kind(outcomes.drop_last());
    }
}

/// The counts shown while a sync runs are the numbers of files of each kind
/// processed so far: `downloaded` the files downloaded, `skipped` the files
/// kept from an earlier sync or already present, `failed` the failed ones.
pub proof fn law_shown_counts_match_the_files(
    run: SyncRun,
    before: SyncStatus,
    shown: SyncStatus,
    total: int,
    current_file: Option<String>,
    stopping: bool,
)
    requires
        run.well_formed(),
        shows_counts(before, shown, run.summary, run.processed as int, total, current_file, stopping),
    ensures
        shown.downloaded == run.outcomes@.filter(|o: FileOutcome| o == FileOutcome::Downloaded).len(),
        shown.skipped == run.outcomes@.filter(
            |o: FileOutcome| o == FileOutcome::KeptEarlierCopy || o == FileOutcome::AlreadyPresent,
        ).len(),
        shown.failed == run.outcomes@.filter(|o: FileOutcome| o == FileOutcome::Failed).len(),
{
    lemma_tally_counts_each_kind(run.outcomes@);
}

/// A sync that a pause stopped ends idle, not running and short of complete:
/// the progress of the last count update stays (at most 99), and the counts
/// shown add up to the files processed before the pause.
pub proof fn law_paused_sync_ends_incomplete(
    run: SyncRun,
    before: SyncStatus,
    shown: SyncStatus,
    ended: SyncStatus,
    total: int,
    current_file: Option<String>,
    stopping: bool,
    now: UtcTimestamp,
    config: AppConfig,
)
    requires
        run.well_formed(),
        run.stopped,
        total >= 1,
        shows_counts(before, shown, run.summary, run.processed as int, total, current_file, stopping),
        ends_sync(shown, ended, run.stopped, now, config),
    ensures
        ended.phase@ == "idle"@,
        !ended.running,
        ended.progress_percent <= 99,
        ended.downloaded + ended.skipped + ended.failed == run.processed,
{
    law_counts_add_up(run);
}

/// A pause is honoured before the next file: once it is asked for, the run
/// stops, no further file is processed and the counts stay as they were.
pub proof fn law_stop_before_next_file(before: SyncRun, after: SyncRun, r: NextFile)
    requires
        before.well_formed(),
        !before.is_done(),
        after.well_formed(),
        r == NextFile::Stop,
        after.stopped,
        after.summary == before.summary,
        after.processed == before.processed,
    ensures
        after.is_done(),
        after.summary.downloaded + after.summary.skipped + after.summary.failed == before.processed,
{
    lemma_tally_bounded(after.outcomes@);
}


// ---------------------------------------------------------------------------
// History entries of a sync
// ---------------------------------------------------------------------------

/// A lower-case hexadecimal digit.
pub open spec fn is_lower_hex(c: char) -> bool {
    ('0' <= c && c <= '9') || ('a' <= c && c <= 'f')
}

/// A version 4 UUID in the hyphenated lower-case form: 36 characters, dashes
/// at 8, 13, 18 and 23, the version digit `4` at 14, hexadecimal digits
/// elsewhere.
pub open spec fn is_v4_uuid_text(s: Seq<char>) -> bool {
    &&& s.len() == 36
    &&& s[8] == '-' && s[13] == '-' && s[18] == '-' && s[23] == '-'
    &&& s[14] == '4'
    &&& forall|i: int|
        0 <= i < 36 && i != 8 && i != 13 && i != 18 && i != 23 ==> is_lower_hex(#[trigger] s[i])
}

/// `uuid::Uuid::new_v4()` written by `Display`: a random version 4 UUID in the
/// hyphenated lower-case form. It is random, so only its form is stated.
#[verifier::external_body]
fn new_entry_id() -> (r: String)
    ensures
        is_v4_uuid_text(r@),
{
    uuid::Uuid::new_v4().to_string()
}

/// The history entry of a transfer that ended well: downloaded, or found
/// already present, at `local_path`.
pub fn completed_entry(
    remote_key: String,
    printer_sn: String,
    gcode_name: String,
    remote_path: String,
    local_path: String,
    size: u64,
    already_present: bool,
    now: UtcTimestamp,
) -> (r: HistoryEntry)
    ensures
        is_v4_uuid_text(r.id@),
        r.remote_key == remote_key,
        r.printer_sn == printer_sn,
        r.gcode_name == gcode_name,
        r.remote_path == remote_path,
        r.local_path == local_path,
        r.size == size,
        r.completed_at == now,
        r.result == (if already_present {
            HistoryResult::AlreadyPresent
        } else {
            HistoryResult::Downloaded
        }),
        !r.remote_deleted,
        r.message@.len() == 0,
{
    HistoryEntry {
        id: new_entry_id(),
        remote_key,
        printer_sn,
        gcode_name,
        remote_path,
        local_path,
        size,
        completed_at: now,
        result: if already_present {
            HistoryResult::AlreadyPresent
        } else {
            HistoryResult::Downloaded
        },
        remote_deleted: false,
        message: String::new(),
    }
}

/// The history entry of a failed transfer, with the error message.
pub fn failed_entry(
    remote_key: String,
    printer_sn: String,
    gcode_name: String,
    remote_path: String,
    message: String,
    now: UtcTimestamp,
) -> (r: HistoryEntry)
    ensures
        is_v4_uuid_text(r.id@),
        r.remote_key == remote_key,
        r.printer_sn == printer_sn,
        r.gcode_name == gcode_name,
        r.remote_path == remote_path,
        r.local_path@.len() == 0,
        r.size == 0,
        r.completed_at == now,
        r.result == HistoryResult::Failed,
        !r.remote_deleted,
        r.message == message,
{
    HistoryEntry {
        id: new_entry_id(),
        remote_key,
        printer_sn,
        gcode_name,
        remote_path,
        local_path: String::new(),
        size: 0,
        completed_at: now,
        result: HistoryResult::Failed,
        remote_deleted: false,
        message,
    }
}

/// `join` with a separator of several characters.
pub open spec fn join_text(pieces: Seq<Seq<char>>, sep: Seq<char>) -> Seq<char>
    decreases pieces.len(),
{
    if pieces.len() == 0 {
        Seq::<char>::empty()
    } else if pieces.len() == 1 {
        pieces[0]
    } else {
        join_text(pieces.drop_last(), sep) + sep + pieces.last()
    }
}

/// One failed attempt: `{url}: {error}`.
pub open spec fn attempt_text(attempt: (String, String)) -> Seq<char> {
    attempt.0@ + ": "@ + attempt.1@
}

/// The error of a download whose every URL failed: each URL with its error,
/// in the order they were tried.
pub open spec fn all_attempts_failed_text(attempts: Seq<(String, String)>) -> Seq<char> {
    "none of the download URLs returned by the U1 could be downloaded: "@ + join_text(
        attempts.map_values(|a: (String, String)| attempt_text(a)),
        " | "@,
    )
}

/// The message of a download whose every URL failed.
pub fn all_attempts_failed_message(attempts: &Vec<(String, String)>) -> (r: String)
    ensures
        r@ == all_attempts_failed_text(attempts@),
{
    let ghost texts = attempts@.map_values(|a: (String, String)| attempt_text(a));
    let mut joined: Vec<char> = Vec::new();
    for i in 0..attempts.len()
        invariant
            texts == attempts@.map_values(|a: (String, String)| attempt_text(a)),
            joined@ == join_text(texts.take(i as int), " | "@),
    {
        assert(texts.take(i + 1).drop_last() =~= texts.take(i as int));
        if i > 0 {
            append_str(&mut joined, " | ");
        } else {
            assert(joined@ =~= Seq::<char>::empty());
        }
        let ghost before = joined@;
        append_str(&mut joined, attempts[i].0.as_str());
        append_str(&mut joined, ": ");
        append_str(&mut joined, attempts[i].1.as_str());
        assert(texts.take(i + 1).last() == attempt_text(attempts@[i as int]));
        assert(joined@ =~= join_text(texts.take(i + 1), " | "@));
    }
    assert(texts.take(attempts.len() as int) =~= texts);
    let mut out = chars_of("none of the download URLs returned by the U1 could be downloaded: ");
    append_chars(&mut out, joined.as_slice());
    string_from_chars(out.as_slice())
}

} // verus!
