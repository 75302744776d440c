//! Character-level helpers. Strings are handled as sequences of `char`; each
//! helper states, over `Seq<char>`, what the corresponding `str` operation does.
use vstd::prelude::*;
use vstd::utf8::*;

verus! {

// ---------------------------------------------------------------------------
// Character classes
// ---------------------------------------------------------------------------

/// The Unicode `White_Space` property, which `char::is_whitespace` and
/// `str::trim` use.
pub open spec fn is_white_space(c: char) -> bool {
    let u = c as u32;
    ||| 0x9 <= u <= 0xd
    ||| u == 0x20
    ||| u == 0x85
    ||| u == 0xa0
    ||| u == 0x1680
    ||| 0x2000 <= u <= 0x200a
    ||| u == 0x2028
    ||| u == 0x2029
    ||| u == 0x202f
    ||| u == 0x205f
    ||| u == 0x3000
}

/// The general category `Cc` (control codes), which `char::is_control` tests.
pub open spec fn is_control(c: char) -> bool {
    let u = c as u32;
    u <= 0x1f || (0x7f <= u && u <= 0x9f)
}

/// `char::to_ascii_lowercase`.
pub open spec fn ascii_lower(c: char) -> char {
    if 'A' <= c && c <= 'Z' {
        ((c as u32) + 32) as char
    } else {
        c
    }
}

/// `str::to_ascii_lowercase`, char by char.
pub open spec fn ascii_lowercase(s: Seq<char>) -> Seq<char> {
    s.map_values(|c: char| ascii_lower(c))
}

/// `str::eq_ignore_ascii_case`.
pub open spec fn eq_ignore_ascii_case(a: Seq<char>, b: Seq<char>) -> bool {
    ascii_lowercase(a) == ascii_lowercase(b)
}

pub fn char_is_white_space(c: char) -> (b: bool)
    ensures
        b == is_white_space(c),
{
    let u = c as u32;
    (0x9 <= u && u <= 0xd) || u == 0x20 || u == 0x85 || u == 0xa0 || u == 0x1680 || (0x2000
        <= u && u <= 0x200a) || u == 0x2028 || u == 0x2029 || u == 0x202f || u == 0x205f || u
        == 0x3000
}

pub fn char_is_control(c: char) -> (b: bool)
    ensures
        b == is_control(c),
{
    let u = c as u32;
    u <= 0x1f || (0x7f <= u && u <= 0x9f)
}

pub fn char_ascii_lower(c: char) -> (r: char)
    ensures
        r == ascii_lower(c),
{
    if 'A' <= c && c <= 'Z' {
        let u = (c as u32) + 32;
        assert(u < 0x80);
        (u as u8) as char
    } else {
        c
    }
}

/// `to_ascii_lowercase` on a character sequence.
pub fn lowercase_ascii(v: &Vec<char>) -> (r: Vec<char>)
    ensures
        r@ == ascii_lowercase(v@),
{
    let mut r: Vec<char> = Vec::new();
    for i in 0..v.len()
        invariant
            r@ == ascii_lowercase(v@.take(i as int)),
    {
        r.push(char_ascii_lower(v[i]));
        assert(ascii_lowercase(v@.take(i + 1)) =~= ascii_lowercase(v@.take(i as int)).push(
            ascii_lower(v@[i as int]),
        ));
    }
    assert(v@.take(v.len() as int) =~= v@);
    r
}

/// `eq_ignore_ascii_case` on character sequences.
pub fn equal_ignoring_ascii_case(a: &Vec<char>, b: &[char]) -> (r: bool)
    ensures
        r == eq_ignore_ascii_case(a@, b@),
{
    if a.len() != b.len() {
        assert(ascii_lowercase(a@).len() != ascii_lowercase(b@).len());
        return false;
    }
    for i in 0..a.len()
        invariant
            a@.len() == b@.len(),
            forall|j: int| 0 <= j < i ==> ascii_lower(a@[j]) == ascii_lower(b@[j]),
    {
        if char_ascii_lower(a[i]) != char_ascii_lower(b[i]) {
            assert(ascii_lowercase(a@)[i as int] != ascii_lowercase(b@)[i as int]);
            return false;
        }
    }
    assert(ascii_lowercase(a@) =~= ascii_lowercase(b@));
    true
}

// ---------------------------------------------------------------------------
// Conversions between `str`/`String` and `Vec<char>`
// ---------------------------------------------------------------------------

/// Copies the characters of a string slice into a vector.
pub fn chars_of(s: &str) -> (v: Vec<char>)
    ensures
        v@ == s@,
{
    let mut v: Vec<char> = Vec::new();
    for c in it: s.chars()
        invariant
            v@ == it.seq().take(it.index() as int),
            it.seq() == s@,
    {
        v.push(c);
    }
    v
}

/// `String: FromIterator<char>`: collects the characters, in order, into a new `String`.
#[verifier::external_body]
pub(crate) fn string_from_chars(v: &[char]) -> (s: String)
    ensures
        s@ == v@,
{
    v.iter().collect()
}

/// Copies `v[lo..hi]`.
pub fn copy_range(v: &[char], lo: usize, hi: usize) -> (r: Vec<char>)
    requires
        lo <= hi <= v@.len(),
    ensures
        r@ == v@.subrange(lo as int, hi as int),
{
    let mut r: Vec<char> = Vec::new();
    let mut i = lo;
    while i < hi
        invariant
            lo <= i <= hi <= v@.len(),
            r@ == v@.subrange(lo as int, i as int),
        decreases hi - i,
    {
        r.push(v[i]);
        i = i + 1;
        assert(r@ =~= v@.subrange(lo as int, i as int));
    }
    r
}

/// Appends `src` to `dst`.
pub fn append_chars(dst: &mut Vec<char>, src: &[char])
    ensures
        final(dst)@ == old(dst)@ + src@,
{
    let ghost start = dst@;
    for i in 0..src.len()
        invariant
            dst@ == start + src@.take(i as int),
    {
        dst.push(src[i]);
        assert(start + src@.take(i + 1) =~= (start + src@.take(i as int)).push(src@[i as int]));
    }
    assert(src@.take(src.len() as int) =~= src@);
}

/// Appends the characters of a string slice to `dst`.
pub fn append_str(dst: &mut Vec<char>, s: &str)
    ensures
        final(dst)@ == old(dst)@ + s@,
{
    let v = chars_of(s);
    append_chars(dst, v.as_slice());
}

/// Whether `v` holds the character `c`.
pub fn contains_char(v: &[char], c: char) -> (r: bool)
    ensures
        r == v@.contains(c),
{
    for i in 0..v.len()
        invariant
            forall|j: int| 0 <= j < i ==> v@[j] != c,
    {
        if v[i] == c {
            assert(v@[i as int] == c);
            return true;
        }
    }
    false
}

/// Whether two character sequences are equal.
pub fn chars_equal(a: &[char], b: &[char]) -> (r: bool)
    ensures
        r == (a@ == b@),
{
    if a.len() != b.len() {
        return false;
    }
    for i in 0..a.len()
        invariant
            a@.len() == b@.len(),
            forall|j: int| 0 <= j < i ==> a@[j] == b@[j],
    {
        if a[i] != b[i] {
            return false;
        }
    }
    assert(a@ =~= b@);
    true
}

/// Whether `v` starts with `prefix`.
pub fn starts_with(v: &[char], prefix: &[char]) -> (r: bool)
    ensures
        r == (prefix@.len() <= v@.len() && v@.take(prefix@.len() as int) == prefix@),
{
    if prefix.len() > v.len() {
        return false;
    }
    for i in 0..prefix.len()
        invariant
            prefix@.len() <= v@.len(),
            forall|j: int| 0 <= j < i ==> v@[j] == prefix@[j],
    {
        if v[i] != prefix[i] {
            assert(v@.take(prefix@.len() as int)[i as int] != prefix@[i as int]);
            return false;
        }
    }
    assert(v@.take(prefix@.len() as int) =~= prefix@);
    true
}

// ---------------------------------------------------------------------------
// Trimming
// ---------------------------------------------------------------------------

/// Classes of characters that are trimmed.
pub enum CharClass {
    /// `char::is_whitespace`.
    WhiteSpace,
    /// The pattern `['.', ' ']`.
    DotOrSpace,
    /// The pattern `'/'`.
    Slash,
    /// The pattern `['[', ']']`.
    Bracket,
}

pub open spec fn in_class(k: CharClass, c: char) -> bool {
    match k {
        CharClass::WhiteSpace => is_white_space(c),
        CharClass::DotOrSpace => c == '.' || c == ' ',
        CharClass::Slash => c == '/',
        CharClass::Bracket => c == '[' || c == ']',
    }
}

fn char_in_class(k: &CharClass, c: char) -> (b: bool)
    ensures
        b == in_class(*k, c),
{
    match k {
        CharClass::WhiteSpace => char_is_white_space(c),
        CharClass::DotOrSpace => c == '.' || c == ' ',
        CharClass::Slash => c == '/',
        CharClass::Bracket => c == '[' || c == ']',
    }
}

/// Drops the characters of class `k` from the front (`trim_start_matches`).
pub open spec fn drop_leading(s: Seq<char>, k: CharClass) -> Seq<char>
    decreases s.len(),
{
    if s.len() > 0 && in_class(k, s[0]) {
        drop_leading(s.drop_first(), k)
    } else {
        s
    }
}

/// Drops the characters of class `k` from the back (`trim_end_matches`).
pub open spec fn drop_trailing(s: Seq<char>, k: CharClass) -> Seq<char>
    decreases s.len(),
{
    if s.len() > 0 && in_class(k, s.last()) {
        drop_trailing(s.drop_last(), k)
    } else {
        s
    }
}

/// `str::trim`: leading and trailing white space removed.
pub open spec fn trim(s: Seq<char>) -> Seq<char> {
    drop_trailing(drop_leading(s, CharClass::WhiteSpace), CharClass::WhiteSpace)
}

proof fn lemma_drop_leading_at(s: Seq<char>, k: CharClass, i: int)
    requires
        0 <= i <= s.len(),
        forall|j: int| 0 <= j < i ==> in_class(k, #[trigger] s[j]),
        i == s.len() || !in_class(k, s[i]),
    ensures
        drop_leading(s, k) == s.skip(i),
    decreases i,
{
    if i == 0 {
        assert(s.skip(0) =~= s);
    } else {
        let t = s.drop_first();
        assert forall|j: int| 0 <= j < i - 1 implies in_class(k, #[trigger] t[j]) by {
            assert(t[j] == s[j + 1]);
        }
        if i - 1 < t.len() {
            assert(t[i - 1] == s[i]);
        }
        lemma_drop_leading_at(t, k, i - 1);
        assert(t.skip(i - 1) =~= s.skip(i));
    }
}

proof fn lemma_drop_trailing_at(s: Seq<char>, k: CharClass, e: int)
    requires
        0 <= e <= s.len(),
        forall|j: int| e <= j < s.len() ==> in_class(k, #[trigger] s[j]),
        e == 0 || !in_class(k, s[e - 1]),
    ensures
        drop_trailing(s, k) == s.take(e),
    decreases s.len() - e,
{
    if e == s.len() {
        assert(s.take(e) =~= s);
    } else {
        let t = s.drop_last();
        assert forall|j: int| e <= j < t.len() implies in_class(k, #[trigger] t[j]) by {
            assert(t[j] == s[j]);
        }
        if e > 0 {
            assert(t[e - 1] == s[e - 1]);
        }
        lemma_drop_trailing_at(t, k, e);
        assert(t.take(e) =~= s.take(e));
    }
}


/// Trimming keeps only characters of the input: a property of every character
/// of `s` holds of every character of `drop_leading(s, k)`.
pub proof fn lemma_drop_leading_keeps(s: Seq<char>, k: CharClass, p: spec_fn(char) -> bool)
    requires
        forall|i: int| 0 <= i < s.len() ==> p(#[trigger] s[i]),
    ensures
        forall|i: int|
            0 <= i < drop_leading(s, k).len() ==> p(#[trigger] drop_leading(s, k)[i]),
    decreases s.len(),
{
    if s.len() > 0 && in_class(k, s[0]) {
        let t = s.drop_first();
        assert forall|i: int| 0 <= i < t.len() implies p(#[trigger] t[i]) by {
            assert(t[i] == s[i + 1]);
        }
        lemma_drop_leading_keeps(t, k, p);
        assert(drop_leading(s, k) == drop_leading(t, k));
    } else {
        assert(drop_leading(s, k) == s);
    }
}

/// A property of every character of `s` holds of every character of
/// `drop_trailing(s, k)`.
pub proof fn lemma_drop_trailing_keeps(s: Seq<char>, k: CharClass, p: spec_fn(char) -> bool)
    requires
        forall|i: int| 0 <= i < s.len() ==> p(#[trigger] s[i]),
    ensures
        forall|i: int|
            0 <= i < drop_trailing(s, k).len() ==> p(#[trigger] drop_trailing(s, k)[i]),
    decreases s.len(),
{
    if s.len() > 0 && in_class(k, s.last()) {
        let t = s.drop_last();
        assert forall|i: int| 0 <= i < t.len() implies p(#[trigger] t[i]) by {
            assert(t[i] == s[i]);
        }
        lemma_drop_trailing_keeps(t, k, p);
        assert(drop_trailing(s, k) == drop_trailing(t, k));
    } else {
        assert(drop_trailing(s, k) == s);
    }
}

/// A property of every character of `s` holds of every character of `trim(s)`.
pub proof fn lemma_trim_keeps(s: Seq<char>, p: spec_fn(char) -> bool)
    requires
        forall|i: int| 0 <= i < s.len() ==> p(#[trigger] s[i]),
    ensures
        forall|i: int| 0 <= i < trim(s).len() ==> p(#[trigger] trim(s)[i]),
{
    lemma_drop_leading_keeps(s, CharClass::WhiteSpace, p);
    lemma_drop_trailing_keeps(drop_leading(s, CharClass::WhiteSpace), CharClass::WhiteSpace, p);
}


pub proof fn lemma_drop_leading_first(s: Seq<char>, k: CharClass)
    ensures
        drop_leading(s, k).len() > 0 ==> !in_class(k, drop_leading(s, k)[0]),
    decreases s.len(),
{
    if s.len() > 0 && in_class(k, s[0]) {
        lemma_drop_leading_first(s.drop_first(), k);
    }
}

pub proof fn lemma_drop_trailing_prefix(s: Seq<char>, k: CharClass)
    ensures
        drop_trailing(s, k).len() <= s.len(),
        drop_trailing(s, k) == s.take(drop_trailing(s, k).len() as int),
        drop_trailing(s, k).len() > 0 ==> !in_class(k, drop_trailing(s, k).last()),
    decreases s.len(),
{
    if s.len() > 0 && in_class(k, s.last()) {
        lemma_drop_trailing_prefix(s.drop_last(), k);
        let t = drop_trailing(s.drop_last(), k);
        assert(s.drop_last().take(t.len() as int) =~= s.take(t.len() as int));
    } else {
        assert(s.take(s.len() as int) =~= s);
    }
}

/// Dropping leading characters never makes a text longer.
pub proof fn lemma_drop_leading_shorter(s: Seq<char>, k: CharClass)
    ensures
        drop_leading(s, k).len() <= s.len(),
    decreases s.len(),
{
    if s.len() > 0 && in_class(k, s[0]) {
        lemma_drop_leading_shorter(s.drop_first(), k);
    }
}

/// The UTF-8 encoding of ASCII text takes one byte per character.
pub proof fn lemma_ascii_utf8_len(s: Seq<char>)
    requires
        forall|i: int| 0 <= i < s.len() ==> (s[i] as u32) < 0x80,
    ensures
        utf8_len(s) == s.len(),
    decreases s.len(),
{
    if s.len() > 0 {
        assert forall|i: int| 0 <= i < s.drop_first().len() implies (s.drop_first()[i] as u32)
            < 0x80 by {
            assert(s.drop_first()[i] == s[i + 1]);
        }
        lemma_ascii_utf8_len(s.drop_first());
        assert((s[0] as u32) < 0x80);
    }
}

/// A trimmed text has nothing left to trim.
pub proof fn lemma_trim_is_trimmed(s: Seq<char>)
    ensures
        trim(trim(s)) == trim(s),
{
    let k = CharClass::WhiteSpace;
    let d = drop_leading(s, k);
    let t = drop_trailing(d, k);
    lemma_drop_leading_first(s, k);
    lemma_drop_trailing_prefix(d, k);
    if t.len() > 0 {
        assert(t[0] == d[0]);
        assert(drop_leading(t, k) == t);
        assert(drop_trailing(t, k) == t);
    } else {
        assert(drop_leading(t, k) == t);
        assert(drop_trailing(t, k) == t);
    }
}

/// Index of the first character not in class `k` (or the length).
fn leading_end(v: &[char], k: &CharClass) -> (i: usize)
    ensures
        i <= v@.len(),
        drop_leading(v@, *k) == v@.skip(i as int),
{
    let mut i: usize = 0;
    while i < v.len() && char_in_class(k, v[i])
        invariant
            i <= v@.len(),
            forall|j: int| 0 <= j < i ==> in_class(*k, #[trigger] v@[j]),
        decreases v@.len() - i,
    {
        i = i + 1;
    }
    proof {
        lemma_drop_leading_at(v@, *k, i as int);
    }
    i
}

/// Index just past the last character not in class `k` (or zero).
fn trailing_start(v: &[char], k: &CharClass) -> (e: usize)
    ensures
        e <= v@.len(),
        drop_trailing(v@, *k) == v@.take(e as int),
{
    let mut e: usize = v.len();
    while e > 0 && char_in_class(k, v[e - 1])
        invariant
            e <= v@.len(),
            forall|j: int| e <= j < v@.len() ==> in_class(*k, #[trigger] v@[j]),
        decreases e,
    {
        e = e - 1;
    }
    proof {
        lemma_drop_trailing_at(v@, *k, e as int);
    }
    e
}

/// `trim_start_matches` for a class of characters.
pub fn trim_leading(v: &[char], k: CharClass) -> (r: Vec<char>)
    ensures
        r@ == drop_leading(v@, k),
{
    let i = leading_end(v, &k);
    copy_range(v, i, v.len())
}

/// `trim_end_matches` for a class of characters.
pub fn trim_trailing(v: &[char], k: CharClass) -> (r: Vec<char>)
    ensures
        r@ == drop_trailing(v@, k),
{
    let e = trailing_start(v, &k);
    assert(v@.subrange(0, e as int) =~= v@.take(e as int));
    copy_range(v, 0, e)
}

/// `str::trim`.
pub fn trim_chars(v: &[char]) -> (r: Vec<char>)
    ensures
        r@ == trim(v@),
{
    let a = trim_leading(v, CharClass::WhiteSpace);
    trim_trailing(a.as_slice(), CharClass::WhiteSpace)
}

/// Whether `v` holds only white space (`s.trim().is_empty()`).
pub fn is_blank(v: &[char]) -> (r: bool)
    ensures
        r == (trim(v@).len() == 0),
{
    let t = trim_chars(v);
    t.len() == 0
}


// ---------------------------------------------------------------------------
// UTF-8 lengths
// ---------------------------------------------------------------------------

/// The number of bytes of the UTF-8 encoding of `c`.
pub open spec fn utf8_width(c: char) -> nat {
    let u = c as u32;
    if u < 0x80 {
        1
    } else if u < 0x800 {
        2
    } else if u < 0x10000 {
        3
    } else {
        4
    }
}

/// The number of bytes of the UTF-8 encoding of `s` (what `str::len` returns).
pub open spec fn utf8_len(s: Seq<char>) -> nat
    decreases s.len(),
{
    if s.len() == 0 {
        0
    } else {
        utf8_width(s[0]) + utf8_len(s.drop_first())
    }
}

proof fn lemma_encode_scalar_len(c: char)
    ensures
        encode_scalar(c as u32).len() == utf8_width(c),
{
    char_is_scalar(c);
}

/// `utf8_len` is the length of the encoding that vstd gives `str` values.
pub proof fn lemma_utf8_len_is_encoding_len(s: Seq<char>)
    ensures
        utf8_len(s) == encode_utf8(s).len(),
    decreases s.len(),
{
    if s.len() > 0 {
        lemma_encode_scalar_len(s[0]);
        lemma_utf8_len_is_encoding_len(s.drop_first());
    }
}

pub proof fn lemma_utf8_len_concat(a: Seq<char>, b: Seq<char>)
    ensures
        utf8_len(a + b) == utf8_len(a) + utf8_len(b),
    decreases a.len(),
{
    if a.len() > 0 {
        assert((a + b).drop_first() =~= a.drop_first() + b);
        lemma_utf8_len_concat(a.drop_first(), b);
    } else {
        assert(a + b =~= b);
    }
}

pub proof fn lemma_utf8_len_push(a: Seq<char>, c: char)
    ensures
        utf8_len(a.push(c)) == utf8_len(a) + utf8_width(c),
{
    lemma_utf8_len_concat(a, seq![c]);
    assert(a + seq![c] =~= a.push(c));
    assert(seq![c].drop_first() =~= Seq::<char>::empty());
    assert(utf8_len(Seq::<char>::empty()) == 0);
    assert(seq![c][0] == c);
    assert(utf8_len(seq![c]) == utf8_width(c) + utf8_len(seq![c].drop_first()));
}

pub proof fn lemma_utf8_len_bounds(s: Seq<char>)
    ensures
        s.len() <= utf8_len(s) <= 4 * s.len(),
    decreases s.len(),
{
    if s.len() > 0 {
        lemma_utf8_len_bounds(s.drop_first());
    }
}

pub fn char_utf8_width(c: char) -> (w: usize)
    ensures
        w == utf8_width(c),
{
    let u = c as u32;
    if u < 0x80 {
        1
    } else if u < 0x800 {
        2
    } else if u < 0x10000 {
        3
    } else {
        4
    }
}

/// Whether the UTF-8 encoding of `v` takes more than `limit` bytes.
pub fn utf8_len_exceeds(v: &[char], limit: usize) -> (r: bool)
    requires
        limit <= usize::MAX - 4,
    ensures
        r == (utf8_len(v@) > limit),
{
    let mut n: usize = 0;
    assert(v@.take(0) =~= Seq::<char>::empty());
    for i in 0..v.len()
        invariant
            limit <= usize::MAX - 4,
            n == utf8_len(v@.take(i as int)),
            n <= limit,
    {
        proof {
            lemma_utf8_len_push(v@.take(i as int), v@[i as int]);
            assert(v@.take(i as int).push(v@[i as int]) =~= v@.take(i + 1));
        }
        n = n + char_utf8_width(v[i]);
        if n > limit {
            proof {
                lemma_utf8_len_concat(v@.take(i + 1), v@.skip(i + 1));
                assert(v@.take(i + 1) + v@.skip(i + 1) =~= v@);
            }
            return true;
        }
    }
    assert(v@.take(v@.len() as int) =~= v@);
    false
}

// ---------------------------------------------------------------------------
// Decimal numerals
// ---------------------------------------------------------------------------

pub open spec fn digit_char(d: nat) -> char {
    (d + 48) as char
}

/// The decimal numeral of `n`, as `Display` for unsigned integers writes it.
pub open spec fn decimal(n: nat) -> Seq<char>
    decreases n,
{
    if n < 10 {
        seq![digit_char(n)]
    } else {
        decimal(n / 10).push(digit_char(n % 10))
    }
}

/// The decimal numeral of `v`, with a leading `-` when negative.
pub open spec fn signed_decimal(v: int) -> Seq<char> {
    if v < 0 {
        seq!['-'] + decimal((-v) as nat)
    } else {
        decimal(v as nat)
    }
}

/// A decimal numeral is not empty and holds only the digits `0` to `9`.
pub proof fn lemma_decimal_digits(n: nat)
    ensures
        decimal(n).len() >= 1,
        n >= 10 ==> decimal(n).len() >= 2,
        forall|i: int| 0 <= i < decimal(n).len() ==> '0' <= #[trigger] decimal(n)[i] <= '9',
    decreases n,
{
    if n >= 10 {
        lemma_decimal_digits(n / 10);
        let p = decimal(n / 10);
        assert forall|i: int| 0 <= i < decimal(n).len() implies '0' <= #[trigger] decimal(n)[i]
            <= '9' by {
            if i < p.len() {
                assert(decimal(n)[i] == p[i]);
            }
        }
    }
}

/// Different numbers have different decimal numerals.
pub proof fn lemma_decimal_injective(n: nat, m: nat)
    ensures
        decimal(n) == decimal(m) ==> n == m,
    decreases n,
{
    if decimal(n) == decimal(m) {
        lemma_decimal_digits(n);
        lemma_decimal_digits(m);
        if n >= 10 && m >= 10 {
            let a = decimal(n);
            assert(a.drop_last() =~= decimal(n / 10));
            assert(decimal(m).drop_last() =~= decimal(m / 10));
            lemma_decimal_injective(n / 10, m / 10);
            assert(a.last() == digit_char(n % 10));
            assert(decimal(m).last() == digit_char(m % 10));
        } else if n < 10 && m < 10 {
            assert(decimal(n)[0] == digit_char(n));
            assert(decimal(m)[0] == digit_char(m));
        }
    }
}

/// Different numbers have different signed decimal numerals.
pub proof fn lemma_signed_decimal_injective(v: int, w: int)
    ensures
        signed_decimal(v) == signed_decimal(w) ==> v == w,
{
    if signed_decimal(v) == signed_decimal(w) {
        if v < 0 && w < 0 {
            assert(signed_decimal(v).drop_first() =~= decimal((-v) as nat));
            assert(signed_decimal(w).drop_first() =~= decimal((-w) as nat));
            lemma_decimal_injective((-v) as nat, (-w) as nat);
        } else if v >= 0 && w >= 0 {
            lemma_decimal_injective(v as nat, w as nat);
        } else if v < 0 {
            lemma_decimal_digits(w as nat);
            assert(signed_decimal(v)[0] == '-');
            assert(signed_decimal(w)[0] == decimal(w as nat)[0]);
        } else {
            lemma_decimal_digits(v as nat);
            assert(signed_decimal(w)[0] == '-');
            assert(signed_decimal(v)[0] == decimal(v as nat)[0]);
        }
    }
}

/// Appends the decimal numeral of `n` to `out`.
pub fn push_decimal(out: &mut Vec<char>, n: u64)
    ensures
        final(out)@ == old(out)@ + decimal(n as nat),
    decreases n,
{
    if n >= 10 {
        push_decimal(out, n / 10);
    }
    let d = (n % 10) as u8;
    out.push((d + 48) as char);
    proof {
        assert(digit_char((n % 10) as nat) == (d + 48) as char);
    }
    assert(old(out)@ + decimal(n as nat) =~= out@) by {
        if n >= 10 {
            assert(decimal(n as nat) == decimal((n / 10) as nat).push(digit_char((n % 10) as nat)));
        }
    }
}

/// Appends the signed decimal numeral of `v` to `out`.
pub fn push_signed_decimal(out: &mut Vec<char>, v: i64)
    ensures
        final(out)@ == old(out)@ + signed_decimal(v as int),
{
    if v < 0 {
        out.push('-');
        let magnitude: u64 = ((-(v + 1)) as u64) + 1;
        push_decimal(out, magnitude);
        assert(old(out)@ + signed_decimal(v as int) =~= out@);
    } else {
        push_decimal(out, v as u64);
    }
}

// ---------------------------------------------------------------------------
// Splitting and joining
// ---------------------------------------------------------------------------

/// `str::split` on a single character: the pieces between separators, in order;
/// there is always at least one piece.
pub open spec fn split_on(s: Seq<char>, sep: char) -> Seq<Seq<char>>
    decreases s.len(),
{
    if s.len() == 0 {
        seq![Seq::<char>::empty()]
    } else {
        let pieces = split_on(s.drop_last(), sep);
        if s.last() == sep {
            pieces.push(Seq::<char>::empty())
        } else {
            pieces.update(pieces.len() - 1, pieces.last().push(s.last()))
        }
    }
}

/// `join` with a one-character separator.
pub open spec fn join_with(pieces: Seq<Seq<char>>, sep: char) -> Seq<char>
    decreases pieces.len(),
{
    if pieces.len() == 0 {
        Seq::<char>::empty()
    } else if pieces.len() == 1 {
        pieces[0]
    } else {
        join_with(pieces.drop_last(), sep).push(sep) + pieces.last()
    }
}

pub proof fn lemma_split_nonempty(s: Seq<char>, sep: char)
    ensures
        split_on(s, sep).len() >= 1,
    decreases s.len(),
{
    if s.len() > 0 {
        lemma_split_nonempty(s.drop_last(), sep);
    }
}

/// Splitting and joining again with the same separator gives the input back.
pub proof fn lemma_join_split(s: Seq<char>, sep: char)
    ensures
        join_with(split_on(s, sep), sep) == s,
    decreases s.len(),
{
    if s.len() > 0 {
        let t = s.drop_last();
        lemma_join_split(t, sep);
        lemma_split_nonempty(t, sep);
        let p = split_on(t, sep);
        if s.last() == sep {
            let q = p.push(Seq::<char>::empty());
            assert(q.drop_last() =~= p);
            assert(join_with(q, sep) =~= s);
        } else {
            let q = p.update(p.len() - 1, p.last().push(s.last()));
            assert(s =~= t.push(s.last()));
            if p.len() == 1 {
                assert(join_with(p, sep) == p[0]);
                assert(q[0] == p[0].push(s.last()));
                assert(join_with(q, sep) == q[0]);
            } else {
                assert(q.drop_last() =~= p.drop_last());
                assert(join_with(p, sep) == join_with(p.drop_last(), sep).push(sep) + p.last());
                assert(join_with(q, sep) =~= s);
            }
        }
    }
}

/// Appending text free of the separator extends the last piece of a split.
pub proof fn lemma_split_extend(x: Seq<char>, b: Seq<char>, sep: char)
    requires
        !b.contains(sep),
    ensures
        split_on(x + b, sep) == split_on(x, sep).update(
            split_on(x, sep).len() - 1,
            split_on(x, sep).last() + b,
        ),
    decreases b.len(),
{
    lemma_split_nonempty(x, sep);
    let p = split_on(x, sep);
    if b.len() == 0 {
        assert(x + b =~= x);
        assert(p.last() + b =~= p.last());
        assert(p.update(p.len() - 1, p.last()) =~= p);
    } else {
        let b0 = b.drop_last();
        assert(!b0.contains(sep)) by {
            if b0.contains(sep) {
                let j = choose|j: int| 0 <= j < b0.len() && b0[j] == sep;
                assert(b[j] == sep);
            }
        }
        assert(b.last() != sep) by {
            assert(b[b.len() - 1] == b.last());
        }
        lemma_split_extend(x, b0, sep);
        assert((x + b).drop_last() =~= x + b0);
        assert((x + b).last() == b.last());
        let q = split_on(x + b0, sep);
        assert(q.len() == p.len());
        assert(split_on(x + b, sep) == q.update(q.len() - 1, q.last().push(b.last())));
        assert(q.last() == p.last() + b0);
        assert(p.last() + b0 + seq![b.last()] =~= p.last() + b);
        assert((p.last() + b0).push(b.last()) =~= p.last() + b);
        assert(split_on(x + b, sep) =~= p.update(p.len() - 1, p.last() + b));
    }
}

/// Joining pieces free of the separator and splitting again gives the pieces back.
pub proof fn lemma_split_join(pieces: Seq<Seq<char>>, sep: char)
    requires
        pieces.len() >= 1,
        forall|i: int| 0 <= i < pieces.len() ==> !(#[trigger] pieces[i]).contains(sep),
    ensures
        split_on(join_with(pieces, sep), sep) == pieces,
    decreases pieces.len(),
{
    if pieces.len() == 1 {
        lemma_split_extend(Seq::<char>::empty(), pieces[0], sep);
        assert(Seq::<char>::empty() + pieces[0] =~= pieces[0]);
        assert(split_on(Seq::<char>::empty(), sep) =~= seq![Seq::<char>::empty()]);
        assert(Seq::<char>::empty() + pieces[0] =~= pieces[0]);
        assert(seq![Seq::<char>::empty()].update(0, Seq::<char>::empty() + pieces[0]) =~= pieces);
    } else {
        let front = pieces.drop_last();
        assert forall|i: int| 0 <= i < front.len() implies !(#[trigger] front[i]).contains(sep) by {
            assert(front[i] == pieces[i]);
        }
        lemma_split_join(front, sep);
        let a = join_with(front, sep);
        let last = pieces.last();
        assert(!last.contains(sep)) by {
            assert(pieces[pieces.len() - 1] == last);
        }
        assert(a.push(sep).drop_last() =~= a);
        assert(split_on(a.push(sep), sep) == split_on(a, sep).push(Seq::<char>::empty()));
        lemma_split_extend(a.push(sep), last, sep);
        let q = split_on(a.push(sep), sep);
        assert(Seq::<char>::empty() + last =~= last);
        assert(q.update(q.len() - 1, q.last() + last) =~= pieces);
    }
}

/// A vector of character vectors viewed as a sequence of character sequences.
pub open spec fn views_of(v: Seq<Vec<char>>) -> Seq<Seq<char>> {
    v.map_values(|x: Vec<char>| x@)
}

/// `str::split` on a single character.
pub fn split_chars(v: &[char], sep: char) -> (r: Vec<Vec<char>>)
    ensures
        views_of(r@) == split_on(v@, sep),
{
    let mut pieces: Vec<Vec<char>> = Vec::new();
    let mut cur: Vec<char> = Vec::new();
    for i in 0..v.len()
        invariant
            views_of(pieces@).push(cur@) == split_on(v@.take(i as int), sep),
    {
        let c = v[i];
        let ghost before = views_of(pieces@).push(cur@);
        assert(v@.take(i + 1).drop_last() =~= v@.take(i as int));
        if c == sep {
            let mut done: Vec<char> = Vec::new();
            std::mem::swap(&mut done, &mut cur);
            pieces.push(done);
            assert(views_of(pieces@).push(cur@) =~= before.push(Seq::<char>::empty()));
        } else {
            cur.push(c);
            assert(views_of(pieces@).push(cur@) =~= before.update(
                before.len() - 1,
                before.last().push(c),
            ));
        }
    }
    assert(v@.take(v.len() as int) =~= v@);
    pieces.push(cur);
    pieces
}

/// Joins pieces with a one-character separator.
pub fn join_chars(pieces: &Vec<Vec<char>>, sep: char) -> (r: Vec<char>)
    ensures
        r@ == join_with(views_of(pieces@), sep),
{
    let mut r: Vec<char> = Vec::new();
    for i in 0..pieces.len()
        invariant
            r@ == join_with(views_of(pieces@).take(i as int), sep),
    {
        let ghost taken = views_of(pieces@).take(i + 1);
        assert(taken.drop_last() =~= views_of(pieces@).take(i as int));
        if i > 0 {
            r.push(sep);
        } else {
            assert(r@ =~= Seq::<char>::empty());
        }
        append_chars(&mut r, pieces[i].as_slice());
        assert(r@ =~= join_with(taken, sep));
    }
    assert(views_of(pieces@).take(pieces.len() as int) =~= views_of(pieces@));
    r
}

} // verus!
