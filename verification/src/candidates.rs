//! The URLs from which a timelapse is downloaded. A URL that the printer hands
//! out is only accepted when it points back at the printer.
use vstd::prelude::*;
use base64::Engine;
use crate::text::{
    trim, drop_leading, drop_trailing, CharClass, eq_ignore_ascii_case, split_on, join_with,
    views_of, decimal, chars_of, trim_chars, trim_leading, trim_trailing, equal_ignoring_ascii_case,
    string_from_chars, append_chars, append_str, push_decimal, split_chars, join_chars, copy_range,
    starts_with, chars_equal,
};
use crate::paths::{last_segment, find_last, last_index_of, lemma_last_index_of_bounds};
use crate::protocol::{url_authority, authority_of, encode_url_path_spec, encode_url_path, camera_file_url_spec};
use crate::text::{is_blank};
use crate::urls::{ParsedUrl, ParsedUrlView, url_parse_result, url_join_result, parse_url, join_url};
use crate::models::{TimelapseInstance, string_of};
use crate::sync_engine::{all_attempts_failed_text, all_attempts_failed_message};

verus! {

/// Why no download URL can be built for a timelapse.
#[derive(Clone, Debug)]
pub enum CandidateError {
    /// The `url` crate refused a URL; its message.
    InvalidUrl(String),
    /// The printer handed out a URL that is neither `http` nor `https`.
    UnsupportedProtocol,
    /// The printer handed out a URL on another host.
    DifferentHost,
    /// The timelapse names neither a video URL nor a video path.
    NoVideoSource,
}

pub enum CandidateErrorView {
    InvalidUrl(Seq<char>),
    UnsupportedProtocol,
    DifferentHost,
    NoVideoSource,
}

impl View for CandidateError {
    type V = CandidateErrorView;

    open spec fn view(&self) -> CandidateErrorView {
        match self {
            CandidateError::InvalidUrl(m) => CandidateErrorView::InvalidUrl(m@),
            CandidateError::UnsupportedProtocol => CandidateErrorView::UnsupportedProtocol,
            CandidateError::DifferentHost => CandidateErrorView::DifferentHost,
            CandidateError::NoVideoSource => CandidateErrorView::NoVideoSource,
        }
    }
}

impl CandidateError {
    /// The message shown for the error.
    pub fn message(&self) -> (r: String)
        ensures
            r@ == match self@ {
                CandidateErrorView::InvalidUrl(m) => m,
                CandidateErrorView::UnsupportedProtocol => "the printer returned an unsupported download protocol"@,
                CandidateErrorView::DifferentHost => "the printer returned a URL for a different host"@,
                CandidateErrorView::NoVideoSource => "the timelapse does not contain a video URL or path"@,
            },
    {
        match self {
            CandidateError::InvalidUrl(m) => m.clone(),
            CandidateError::UnsupportedProtocol => string_of(
                "the printer returned an unsupported download protocol",
            ),
            CandidateError::DifferentHost => string_of("the printer returned a URL for a different host"),
            CandidateError::NoVideoSource => string_of(
                "the timelapse does not contain a video URL or path",
            ),
        }
    }
}

/// A list of parsed URLs seen through their views.
pub open spec fn urls_view(s: Seq<ParsedUrl>) -> Seq<ParsedUrlView> {
    s.map_values(|u: ParsedUrl| u@)
}

pub open spec fn candidates_view(r: Result<Vec<ParsedUrl>, CandidateError>) -> Result<
    Seq<ParsedUrlView>,
    CandidateErrorView,
> {
    match r {
        Ok(v) => Ok(urls_view(v@)),
        Err(e) => Err(e@),
    }
}

// ---------------------------------------------------------------------------
// Accepting a URL handed out by the printer
// ---------------------------------------------------------------------------

/// A host with the brackets of an IPv6 literal removed.
pub open spec fn trim_brackets(s: Seq<char>) -> Seq<char> {
    drop_trailing(drop_leading(s, CharClass::Bracket), CharClass::Bracket)
}

/// Why a URL that the printer handed out does not point at `expected_host`, if
/// it does not: it must use `http` or `https`, and its host (as `Url::host_str`
/// gives it) must equal the expected host with its own brackets removed,
/// ignoring ASCII case.
pub open spec fn local_url_problem(url: ParsedUrlView, expected_host: Seq<char>) -> Option<CandidateErrorView> {
    if !(url.scheme == "http"@ || url.scheme == "https"@) {
        Some(CandidateErrorView::UnsupportedProtocol)
    } else {
        let returned = match url.host {
            Some(h) => h,
            None => Seq::<char>::empty(),
        };
        if !eq_ignore_ascii_case(returned, trim_brackets(expected_host)) {
            Some(CandidateErrorView::DifferentHost)
        } else {
            None
        }
    }
}

/// Accepts a URL handed out by the printer only when it points at the printer.
pub fn ensure_local_url(url: &ParsedUrl, expected_host: &str) -> (r: Result<(), CandidateError>)
    ensures
        match r {
            Ok(()) => local_url_problem(url@, expected_host@) is None,
            Err(e) => local_url_problem(url@, expected_host@) == Some(e@),
        },
{
    let scheme = chars_of(url.scheme.as_str());
    let http = chars_of("http");
    let https = chars_of("https");
    if !(chars_equal(scheme.as_slice(), http.as_slice()) || chars_equal(
        scheme.as_slice(),
        https.as_slice(),
    )) {
        return Err(CandidateError::UnsupportedProtocol);
    }
    let returned: Vec<char> = match &url.host {
        Some(h) => chars_of(h.as_str()),
        None => Vec::new(),
    };
    let expected = chars_of(expected_host);
    let front = trim_leading(expected.as_slice(), CharClass::Bracket);
    let bare = trim_trailing(front.as_slice(), CharClass::Bracket);
    if !equal_ignoring_ascii_case(&returned, bare.as_slice()) {
        return Err(CandidateError::DifferentHost);
    }
    Ok(())
}

// ---------------------------------------------------------------------------
// URLs from the suffix the printer reports
// ---------------------------------------------------------------------------

/// `http://{authority}:{port}/`, the base of relative URLs.
pub open spec fn base_url_input(authority: Seq<char>, port: u16) -> Seq<char> {
    "http://"@ + authority + seq![':'] + decimal(port as nat) + seq!['/']
}

/// The URLs that the reported suffix gives: an absolute URL that points at the
/// printer; `http://{authority}` followed by a suffix that starts with `:`; or
/// the suffix resolved against the base, and also against port 8080 when the
/// base uses another port.
pub open spec fn suffix_candidates(
    base: ParsedUrlView,
    authority: Seq<char>,
    host: Seq<char>,
    port: u16,
    suffix: Seq<char>,
) -> Result<Seq<ParsedUrlView>, CandidateErrorView> {
    if suffix.len() == 0 {
        Ok(Seq::<ParsedUrlView>::empty())
    } else {
        match url_parse_result(suffix) {
            Ok(u) => match local_url_problem(u, host) {
                Some(e) => Err(e),
                None => Ok(seq![u]),
            },
            Err(_) => if suffix[0] == ':' {
                match url_parse_result("http://"@ + authority + suffix) {
                    Ok(u) => match local_url_problem(u, host) {
                        Some(e) => Err(e),
                        None => Ok(seq![u]),
                    },
                    Err(m) => Err(CandidateErrorView::InvalidUrl(m)),
                }
            } else {
                let relative = drop_leading(suffix, CharClass::Slash);
                match url_join_result(base.href, relative) {
                    Err(m) => Err(CandidateErrorView::InvalidUrl(m)),
                    Ok(first) => if port != 8080 {
                        match url_parse_result("http://"@ + authority + ":8080/"@) {
                            Err(m) => Err(CandidateErrorView::InvalidUrl(m)),
                            Ok(alt) => match url_join_result(alt.href, relative) {
                                Err(m) => Err(CandidateErrorView::InvalidUrl(m)),
                                Ok(second) => Ok(seq![first, second]),
                            },
                        }
                    } else {
                        Ok(seq![first])
                    },
                }
            },
        }
    }
}

fn invalid_url(m: String) -> (e: CandidateError)
    ensures
        e@ == CandidateErrorView::InvalidUrl(m@),
{
    CandidateError::InvalidUrl(m)
}

pub fn checked_local(u: ParsedUrl, host: &str) -> (r: Result<Vec<ParsedUrl>, CandidateError>)
    ensures
        candidates_view(r) == match local_url_problem(u@, host@) {
            Some(e) => Err(e),
            None => Ok(seq![u@]),
        },
{
    match ensure_local_url(&u, host) {
        Ok(()) => {
            let mut v: Vec<ParsedUrl> = Vec::new();
            v.push(u);
            assert(urls_view(v@) =~= seq![u@]);
            Ok(v)
        },
        Err(e) => Err(e),
    }
}

pub fn candidates_from_suffix(
    base: &ParsedUrl,
    authority: &Vec<char>,
    host: &str,
    port: u16,
    suffix: &Vec<char>,
) -> (r: Result<Vec<ParsedUrl>, CandidateError>)
    ensures
        candidates_view(r) == suffix_candidates(base@, authority@, host@, port, suffix@),
{
    if suffix.len() == 0 {
        let v: Vec<ParsedUrl> = Vec::new();
        assert(urls_view(v@) =~= Seq::<ParsedUrlView>::empty());
        return Ok(v);
    }
    let suffix_str = string_from_chars(suffix.as_slice());
    match parse_url(suffix_str.as_str()) {
        Ok(u) => checked_local(u, host),
        Err(_) => {
            if suffix[0] == ':' {
                let mut text = chars_of("http://");
                append_chars(&mut text, authority.as_slice());
                append_chars(&mut text, suffix.as_slice());
                let text_str = string_from_chars(text.as_slice());
                match parse_url(text_str.as_str()) {
                    Ok(u) => checked_local(u, host),
                    Err(m) => Err(invalid_url(m)),
                }
            } else {
                let relative = trim_leading(suffix.as_slice(), CharClass::Slash);
                let relative_str = string_from_chars(relative.as_slice());
                match join_url(base, relative_str.as_str()) {
                    Err(m) => Err(invalid_url(m)),
                    Ok(first) => {
                        if port != 8080 {
                            let mut alt_text = chars_of("http://");
                            append_chars(&mut alt_text, authority.as_slice());
                            append_str(&mut alt_text, ":8080/");
                            let alt_str = string_from_chars(alt_text.as_slice());
                            match parse_url(alt_str.as_str()) {
                                Err(m) => Err(invalid_url(m)),
                                Ok(alt) => match join_url(&alt, relative_str.as_str()) {
                                    Err(m) => Err(invalid_url(m)),
                                    Ok(second) => {
                                        let mut v: Vec<ParsedUrl> = Vec::new();
                                        v.push(first);
                                        v.push(second);
                                        assert(urls_view(v@) =~= seq![v@[0]@, v@[1]@]);
                                        Ok(v)
                                    },
                                },
                            }
                        } else {
                            let mut v: Vec<ParsedUrl> = Vec::new();
                            v.push(first);
                            assert(urls_view(v@) =~= seq![v@[0]@]);
                            Ok(v)
                        }
                    },
                }
            }
        },
    }
}

// ---------------------------------------------------------------------------
// The URL from the video path
// ---------------------------------------------------------------------------

/// `pat` occurs in `s` at `i`.
pub open spec fn occurs_at(s: Seq<char>, pat: Seq<char>, i: int) -> bool {
    0 <= i && i + pat.len() <= s.len() && s.subrange(i, i + pat.len()) == pat
}

/// The first occurrence of `pat` in `s` at or after `i`.
pub open spec fn find_from(s: Seq<char>, pat: Seq<char>, i: int) -> Option<int>
    decreases s.len() + 1 - i,
{
    if i < 0 || i + pat.len() > s.len() {
        None
    } else if occurs_at(s, pat, i) {
        Some(i)
    } else {
        find_from(s, pat, i + 1)
    }
}

/// `s.split(pat).nth(1)`: the text between the first and the second occurrence
/// of `pat`, or after the first when there is no second.
pub open spec fn second_piece(s: Seq<char>, pat: Seq<char>) -> Option<Seq<char>> {
    match find_from(s, pat, 0) {
        None => None,
        Some(i) => {
            let after = s.skip(i + pat.len());
            match find_from(after, pat, 0) {
                Some(j) => Some(after.take(j)),
                None => Some(after),
            }
        },
    }
}

/// Backslashes turned into slashes.
pub open spec fn forward_slashes(s: Seq<char>) -> Seq<char> {
    s.map_values(|c: char| if c == '\\' { '/' } else { c })
}

/// The part of a video path inside the camera folder: after `/camera/`, else
/// after a leading `camera/`, else the last segment.
pub open spec fn camera_relative(remote: Seq<char>) -> Seq<char> {
    match second_piece(remote, "/camera/"@) {
        Some(p) => p,
        None => if remote.len() >= 7 && remote.take(7) == "camera/"@ {
            remote.skip(7)
        } else {
            last_segment(remote)
        },
    }
}

/// A path segment that names a file or folder: not empty, `.` or `..`.
pub open spec fn is_normal_part(p: Seq<char>) -> bool {
    p.len() > 0 && p != seq!['.'] && p != seq!['.', '.']
}

/// A relative path with its empty, `.` and `..` segments removed.
pub open spec fn safe_relative_path(rel: Seq<char>) -> Seq<char> {
    join_with(split_on(rel, '/').filter(|p: Seq<char>| is_normal_part(p)), '/')
}

/// The URL of the video in the camera folder, when the video path names a file.
pub open spec fn camera_candidate(base: ParsedUrlView, video_path: Seq<char>) -> Option<
    Result<ParsedUrlView, CandidateErrorView>,
> {
    let rel = camera_relative(forward_slashes(video_path));
    if rel.len() == 0 {
        None
    } else {
        let encoded = encode_url_path_spec(safe_relative_path(rel));
        match url_join_result(base.href, "server/files/camera/"@ + encoded) {
            Ok(u) => Some(Ok(u)),
            Err(m) => Some(Err(CandidateErrorView::InvalidUrl(m))),
        }
    }
}

fn occurs_at_exec(s: &Vec<char>, pat: &Vec<char>, i: usize) -> (r: bool)
    ensures
        r == occurs_at(s@, pat@, i as int),
{
    if i > s.len() || pat.len() > s.len() - i {
        return false;
    }
    let mut j: usize = 0;
    while j < pat.len()
        invariant
            i + pat@.len() <= s@.len(),
            i + pat.len() <= s.len(),
            j <= pat@.len(),
            forall|m: int| 0 <= m < j ==> s@[i + m] == pat@[m],
        decreases pat@.len() - j,
    {
        if s[i + j] != pat[j] {
            assert(s@.subrange(i as int, i + pat@.len())[j as int] != pat@[j as int]);
            return false;
        }
        j = j + 1;
    }
    assert(s@.subrange(i as int, i + pat@.len()) =~= pat@);
    true
}

/// The first occurrence of `pat` in `s`.
fn find_first(s: &Vec<char>, pat: &Vec<char>) -> (r: Option<usize>)
    ensures
        match r {
            Some(i) => find_from(s@, pat@, 0) == Some(i as int),
            None => find_from(s@, pat@, 0) is None,
        },
{
    let mut i: usize = 0;
    while i < s.len() && pat.len() <= s.len() - i
        invariant
            i <= s@.len(),
            find_from(s@, pat@, 0) == find_from(s@, pat@, i as int),
        decreases s@.len() - i,
    {
        if occurs_at_exec(s, pat, i) {
            return Some(i);
        }
        i = i + 1;
    }
    if pat.len() <= s.len() - i && occurs_at_exec(s, pat, i) {
        return Some(i);
    }
    assert(find_from(s@, pat@, i as int) is None) by {
        if i + pat@.len() <= s@.len() {
            assert(find_from(s@, pat@, i as int) == find_from(s@, pat@, i + 1));
        }
    }
    None
}

fn second_piece_exec(s: &Vec<char>, pat: &Vec<char>) -> (r: Option<Vec<char>>)
    ensures
        match r {
            Some(p) => second_piece(s@, pat@) == Some(p@),
            None => second_piece(s@, pat@) is None,
        },
{
    match find_first(s, pat) {
        None => None,
        Some(i) => {
            proof {
                lemma_find_from_found(s@, pat@, 0);
            }
            assert(occurs_at(s@, pat@, i as int));
            let slen = s.len();
            let plen = pat.len();
            assert(i + plen <= slen);
            let after = copy_range(s.as_slice(), i + plen, slen);
            assert(after@ =~= s@.skip(i + pat@.len()));
            match find_first(&after, pat) {
                Some(j) => {
                    proof {
                        lemma_find_from_found(after@, pat@, 0);
                    }
                    let p = copy_range(after.as_slice(), 0, j);
                    assert(p@ =~= after@.take(j as int));
                    Some(p)
                },
                None => Some(after),
            }
        },
    }
}

proof fn lemma_find_from_found(s: Seq<char>, pat: Seq<char>, i: int)
    ensures
        find_from(s, pat, i) matches Some(k) ==> occurs_at(s, pat, k) && i <= k,
    decreases s.len() + 1 - i,
{
    if i < 0 || i + pat.len() > s.len() {
    } else if occurs_at(s, pat, i) {
    } else {
        lemma_find_from_found(s, pat, i + 1);
    }
}

fn forward_slashes_exec(v: &Vec<char>) -> (r: Vec<char>)
    ensures
        r@ == forward_slashes(v@),
{
    let mut r: Vec<char> = Vec::new();
    for i in 0..v.len()
        invariant
            r@ == forward_slashes(v@.take(i as int)),
    {
        let c = v[i];
        r.push(if c == '\\' { '/' } else { c });
        assert(forward_slashes(v@.take(i + 1)) =~= forward_slashes(v@.take(i as int)).push(
            if c == '\\' { '/' } else { c },
        ));
    }
    assert(v@.take(v.len() as int) =~= v@);
    r
}

fn camera_relative_exec(remote: &Vec<char>) -> (r: Vec<char>)
    ensures
        r@ == camera_relative(remote@),
{
    let pat = chars_of("/camera/");
    match second_piece_exec(remote, &pat) {
        Some(p) => p,
        None => {
            let prefix = chars_of("camera/");
            proof {
                reveal_strlit("camera/");
            }
            if starts_with(remote.as_slice(), prefix.as_slice()) {
                let r = copy_range(remote.as_slice(), 7, remote.len());
                assert(r@ =~= remote@.skip(7));
                r
            } else {
                proof {
                    lemma_last_index_of_bounds(remote@, '/');
                }
                match find_last(remote.as_slice(), '/') {
                    Some(k) => {
                        let rlen = remote.len();
                        assert(k < rlen);
                        let r = copy_range(remote.as_slice(), k + 1, rlen);
                        assert(r@ =~= remote@.skip(k + 1));
                        r
                    },
                    None => copy_range(remote.as_slice(), 0, remote.len()),
                }
            }
        },
    }
}

fn is_normal_part_exec(p: &Vec<char>) -> (r: bool)
    ensures
        r == is_normal_part(p@),
{
    let n = p.len();
    if n == 0 {
        return false;
    }
    if n == 1 && p[0] == '.' {
        assert(p@ =~= seq!['.']);
        return false;
    }
    if n == 2 && p[0] == '.' && p[1] == '.' {
        assert(p@ =~= seq!['.', '.']);
        return false;
    }
    assert(p@ != seq!['.']);
    assert(p@ != seq!['.', '.']);
    true
}

fn safe_relative_path_exec(rel: &Vec<char>) -> (r: Vec<char>)
    ensures
        r@ == safe_relative_path(rel@),
{
    let parts = split_chars(rel.as_slice(), '/');
    let ghost keep = |p: Seq<char>| is_normal_part(p);
    let mut kept: Vec<Vec<char>> = Vec::new();
    for i in 0..parts.len()
        invariant
            keep == (|p: Seq<char>| is_normal_part(p)),
            views_of(kept@) == views_of(parts@).take(i as int).filter(keep),
    {
        proof {
            assert(views_of(parts@).take(i + 1).drop_last() =~= views_of(parts@).take(i as int));
            assert(views_of(parts@).take(i + 1).last() == parts@[i as int]@);
            reveal_with_fuel(Seq::filter, 1);
        }
        if is_normal_part_exec(&parts[i]) {
            let piece = copy_range(parts[i].as_slice(), 0, parts[i].len());
            assert(piece@ =~= parts@[i as int]@);
            let ghost before = views_of(kept@);
            kept.push(piece);
            assert(views_of(kept@) =~= before.push(piece@));
        }
    }
    assert(views_of(parts@).take(parts.len() as int) =~= views_of(parts@));
    join_chars(&kept, '/')
}

pub fn candidate_from_video_path(base: &ParsedUrl, video_path: &str) -> (r: Option<
    Result<ParsedUrl, CandidateError>,
>)
    ensures
        match r {
            None => camera_candidate(base@, video_path@) is None,
            Some(Ok(u)) => camera_candidate(base@, video_path@) == Some(
                Ok::<ParsedUrlView, CandidateErrorView>(u@),
            ),
            Some(Err(e)) => camera_candidate(base@, video_path@) == Some(
                Err::<ParsedUrlView, CandidateErrorView>(e@),
            ),
        },
{
    let remote = forward_slashes_exec(&chars_of(video_path));
    let rel = camera_relative_exec(&remote);
    if rel.len() == 0 {
        return None;
    }
    let safe = safe_relative_path_exec(&rel);
    let safe_str = string_from_chars(safe.as_slice());
    let encoded = encode_url_path(safe_str.as_str());
    let mut target = chars_of("server/files/camera/");
    append_str(&mut target, encoded.as_str());
    let target_str = string_from_chars(target.as_slice());
    match join_url(base, target_str.as_str()) {
        Ok(u) => Some(Ok(u)),
        Err(m) => Some(Err(invalid_url(m))),
    }
}

// ---------------------------------------------------------------------------
// The candidate list
// ---------------------------------------------------------------------------

/// Consecutive URLs with the same serialization collapsed into one
/// (`Vec::dedup_by`).
pub open spec fn dedup_by_href(s: Seq<ParsedUrlView>) -> Seq<ParsedUrlView>
    decreases s.len(),
{
    if s.len() == 0 {
        s
    } else {
        let d = dedup_by_href(s.drop_last());
        if d.len() > 0 && d.last().href == s.last().href {
            d
        } else {
            d.push(s.last())
        }
    }
}

/// The host of a parsed URL, or nothing.
pub open spec fn host_text(h: Option<Seq<char>>) -> Seq<char> {
    match h {
        Some(t) => t,
        None => Seq::<char>::empty(),
    }
}

/// Why a download URL is refused, if it is: it must use `http` or `https`,
/// and its host must be the host of `base`, the URL built from the printer's
/// address, ignoring ASCII case.
pub open spec fn off_printer_problem(url: ParsedUrlView, base: ParsedUrlView) -> Option<CandidateErrorView> {
    if !(url.scheme == "http"@ || url.scheme == "https"@) {
        Some(CandidateErrorView::UnsupportedProtocol)
    } else if !eq_ignore_ascii_case(host_text(url.host), host_text(base.host)) {
        Some(CandidateErrorView::DifferentHost)
    } else {
        None
    }
}

/// Why the first URL of `s` that is not on the host of `base` is refused, if
/// one is not.
pub open spec fn first_foreign(s: Seq<ParsedUrlView>, base: ParsedUrlView) -> Option<CandidateErrorView>
    decreases s.len(),
{
    if s.len() == 0 {
        None
    } else {
        match off_printer_problem(s[0], base) {
            Some(e) => Some(e),
            None => first_foreign(s.drop_first(), base),
        }
    }
}

/// The candidate list once its URLs are known: neighbours with the same
/// serialization collapsed; refused when nothing is left, and refused when any
/// URL is not on the host of `base`.
pub open spec fn finished_candidates(list: Seq<ParsedUrlView>, base: ParsedUrlView) -> Result<
    Seq<ParsedUrlView>,
    CandidateErrorView,
> {
    let deduped = dedup_by_href(list);
    if deduped.len() == 0 {
        Err(CandidateErrorView::NoVideoSource)
    } else {
        match first_foreign(deduped, base) {
            Some(e) => Err(e),
            None => Ok(deduped),
        }
    }
}

/// When no URL of `s` is refused, every URL of `s` is on the host of `base`.
pub proof fn lemma_first_foreign_none(s: Seq<ParsedUrlView>, base: ParsedUrlView)
    ensures
        first_foreign(s, base) is None ==> forall|i: int|
            0 <= i < s.len() ==> off_printer_problem(#[trigger] s[i], base) is None,
    decreases s.len(),
{
    if s.len() > 0 {
        lemma_first_foreign_none(s.drop_first(), base);
        assert forall|i: int| 0 < i < s.len() implies s[i] == s.drop_first()[i - 1] by {}
    }
}

/// The download URLs of a timelapse, in the order they are tried.
pub open spec fn download_candidates_spec(host: Seq<char>, port: u16, instance: TimelapseInstance) -> Result<
    Seq<ParsedUrlView>,
    CandidateErrorView,
> {
    let authority = url_authority(host);
    match url_parse_result(base_url_input(authority, port)) {
        Err(m) => Err(CandidateErrorView::InvalidUrl(m)),
        Ok(base) => match suffix_candidates(
            base,
            authority,
            host,
            port,
            trim(instance.video_local_url_suffix@),
        ) {
            Err(e) => Err(e),
            Ok(first) => {
                let all = match camera_candidate(base, instance.video_path@) {
                    None => Ok(first),
                    Some(Ok(u)) => Ok(first.push(u)),
                    Some(Err(e)) => Err(e),
                };
                match all {
                    Err(e) => Err(e),
                    Ok(list) => finished_candidates(list, base),
                }
            },
        }
    }
}

/// Collapsing keeps the first URL and never lets two neighbours share a
/// serialization.
pub proof fn lemma_dedup_by_href(s: Seq<ParsedUrlView>)
    ensures
        s.len() > 0 ==> dedup_by_href(s).len() > 0 && dedup_by_href(s)[0] == s[0],
        dedup_by_href(s).len() <= s.len(),
        forall|i: int|
            0 <= i < dedup_by_href(s).len() - 1 ==> (#[trigger] dedup_by_href(s)[i]).href
                != dedup_by_href(s)[i + 1].href,
    decreases s.len(),
{
    if s.len() > 0 {
        lemma_dedup_by_href(s.drop_last());
        if s.len() == 1 {
            assert(s.drop_last().len() == 0);
            assert(dedup_by_href(s.drop_last()) =~= Seq::<ParsedUrlView>::empty());
        } else {
            assert(s.drop_last()[0] == s[0]);
        }
    }
}

/// A URL that the printer hands out is only tried when it points back at the
/// printer: when the reported suffix is an absolute URL and download URLs
/// result, the first one is that URL, over `http` or `https`, on the printer's
/// host.
pub proof fn law_absolute_suffix_stays_on_printer(host: Seq<char>, port: u16, instance: TimelapseInstance)
    requires
        download_candidates_spec(host, port, instance) is Ok,
        trim(instance.video_local_url_suffix@).len() > 0,
        url_parse_result(trim(instance.video_local_url_suffix@)) is Ok,
    ensures
        local_url_problem(url_parse_result(trim(instance.video_local_url_suffix@))->Ok_0, host) is None,
        download_candidates_spec(host, port, instance)->Ok_0[0] == url_parse_result(
            trim(instance.video_local_url_suffix@),
        )->Ok_0,
{
    let authority = url_authority(host);
    let base = url_parse_result(base_url_input(authority, port))->Ok_0;
    let suffix = trim(instance.video_local_url_suffix@);
    let first = suffix_candidates(base, authority, host, port, suffix)->Ok_0;
    let list = match camera_candidate(base, instance.video_path@) {
        None => first,
        Some(r) => first.push(r->Ok_0),
    };
    lemma_dedup_by_href(list);
    assert(list[0] == first[0]);
}

/// The same holds of a suffix that starts with a port (`:7125/...`): the first
/// download URL is the printer's authority followed by the suffix, and it
/// points at the printer.
pub proof fn law_port_suffix_stays_on_printer(host: Seq<char>, port: u16, instance: TimelapseInstance)
    requires
        download_candidates_spec(host, port, instance) is Ok,
        trim(instance.video_local_url_suffix@).len() > 0,
        url_parse_result(trim(instance.video_local_url_suffix@)) is Err,
        trim(instance.video_local_url_suffix@)[0] == ':',
    ensures
        url_parse_result("http://"@ + url_authority(host) + trim(instance.video_local_url_suffix@)) is Ok,
        local_url_problem(
            url_parse_result("http://"@ + url_authority(host) + trim(instance.video_local_url_suffix@))->Ok_0,
            host,
        ) is None,
        download_candidates_spec(host, port, instance)->Ok_0[0] == url_parse_result(
            "http://"@ + url_authority(host) + trim(instance.video_local_url_suffix@),
        )->Ok_0,
{
    let authority = url_authority(host);
    let base = url_parse_result(base_url_input(authority, port))->Ok_0;
    let suffix = trim(instance.video_local_url_suffix@);
    let first = suffix_candidates(base, authority, host, port, suffix)->Ok_0;
    let list = match camera_candidate(base, instance.video_path@) {
        None => first,
        Some(r) => first.push(r->Ok_0),
    };
    lemma_dedup_by_href(list);
    assert(list[0] == first[0]);
}

/// Downloads stay on the printer: every download URL of a timelapse uses
/// `http` or `https` and names the host of the URL built from the printer's
/// address (`http://{host}:{port}/`, as the `url` crate parses it).
pub proof fn law_downloads_stay_on_printer(host: Seq<char>, port: u16, instance: TimelapseInstance)
    requires
        download_candidates_spec(host, port, instance) is Ok,
    ensures
        url_parse_result(base_url_input(url_authority(host), port)) is Ok,
        forall|i: int|
            0 <= i < download_candidates_spec(host, port, instance)->Ok_0.len() ==> off_printer_problem(
                #[trigger] download_candidates_spec(host, port, instance)->Ok_0[i],
                url_parse_result(base_url_input(url_authority(host), port))->Ok_0,
            ) is None,
{
    let authority = url_authority(host);
    let base = url_parse_result(base_url_input(authority, port))->Ok_0;
    let suffix = trim(instance.video_local_url_suffix@);
    let first = suffix_candidates(base, authority, host, port, suffix)->Ok_0;
    let list = match camera_candidate(base, instance.video_path@) {
        None => first,
        Some(r) => first.push(r->Ok_0),
    };
    lemma_first_foreign_none(dedup_by_href(list), base);
}

/// A text in which `pat` occurs nowhere at or after `i` has no occurrence
/// there to find.
proof fn lemma_find_from_absent(s: Seq<char>, pat: Seq<char>, i: int)
    requires
        0 <= i,
        forall|j: int| i <= j ==> !#[trigger] occurs_at(s, pat, j),
    ensures
        find_from(s, pat, i) is None,
    decreases s.len() + 1 - i,
{
    if i + pat.len() <= s.len() {
        lemma_find_from_absent(s, pat, i + 1);
    }
}

/// A video in a subfolder of the camera folder keeps its subfolders: when the
/// printer reports no URL suffix and the video path is `camera/` followed by
/// a path (with no backslash and no `/camera/` in it), the only download URL
/// is the base URL joined with `server/files/camera/` and the encoded safe
/// form of that whole path, not of its last segment alone.
pub proof fn law_camera_subfolders_are_kept(host: Seq<char>, port: u16, instance: TimelapseInstance)
    requires
        trim(instance.video_local_url_suffix@).len() == 0,
        instance.video_path@.len() > 7,
        instance.video_path@.take(7) == "camera/"@,
        forall|i: int| 0 <= i < instance.video_path@.len() ==> instance.video_path@[i] != '\\',
        forall|j: int|
            0 <= j && j + 8 <= instance.video_path@.len() ==> #[trigger] instance.video_path@.subrange(
                j,
                j + 8,
            ) != "/camera/"@,
        url_parse_result(base_url_input(url_authority(host), port)) is Ok,
        url_join_result(
            url_parse_result(base_url_input(url_authority(host), port))->Ok_0.href,
            "server/files/camera/"@ + encode_url_path_spec(safe_relative_path(instance.video_path@.skip(7))),
        ) is Ok,
    ensures
        ({
            let base = url_parse_result(base_url_input(url_authority(host), port))->Ok_0;
            let u = url_join_result(
                base.href,
                "server/files/camera/"@ + encode_url_path_spec(
                    safe_relative_path(instance.video_path@.skip(7)),
                ),
            )->Ok_0;
            &&& download_candidates_spec(host, port, instance) is Ok <==> off_printer_problem(u, base) is None
            &&& download_candidates_spec(host, port, instance) is Ok ==> download_candidates_spec(
                host,
                port,
                instance,
            )->Ok_0 == seq![u]
        }),
{
    let p = instance.video_path@;
    reveal_strlit("/camera/");
    reveal_strlit("camera/");
    assert(forward_slashes(p) =~= p);
    assert forall|j: int| 0 <= j implies !#[trigger] occurs_at(p, "/camera/"@, j) by {
        if j + 8 <= p.len() {
            assert(p.subrange(j, j + 8) != "/camera/"@);
        }
    }
    lemma_find_from_absent(p, "/camera/"@, 0);
    assert(second_piece(p, "/camera/"@) is None);
    assert(camera_relative(p) == p.skip(7));
    let authority = url_authority(host);
    let base = url_parse_result(base_url_input(authority, port))->Ok_0;
    assert(suffix_candidates(base, authority, host, port, trim(instance.video_local_url_suffix@))
        == Ok::<Seq<ParsedUrlView>, CandidateErrorView>(Seq::<ParsedUrlView>::empty()));
    let u = url_join_result(
        base.href,
        "server/files/camera/"@ + encode_url_path_spec(safe_relative_path(p.skip(7))),
    )->Ok_0;
    let list = Seq::<ParsedUrlView>::empty().push(u);
    assert(dedup_by_href(Seq::<ParsedUrlView>::empty()) =~= Seq::<ParsedUrlView>::empty());
    assert(list.drop_last() =~= Seq::<ParsedUrlView>::empty());
    assert(dedup_by_href(list) =~= seq![u]);
    assert(seq![u].drop_first() =~= Seq::<ParsedUrlView>::empty());
    assert(camera_candidate(base, p) == Some(Ok::<ParsedUrlView, CandidateErrorView>(u)));
    assert(Seq::<ParsedUrlView>::empty().push(u) == list);
    assert(first_foreign(seq![u], base) == off_printer_problem(u, base)) by {
        assert(seq![u][0] == u);
        assert(seq![u].drop_first() =~= Seq::<ParsedUrlView>::empty());
        assert(first_foreign(Seq::<ParsedUrlView>::empty(), base) is None);
        assert(first_foreign(seq![u].drop_first(), base) is None);
    }
    assert(download_candidates_spec(host, port, instance) == finished_candidates(list, base));
}

/// A thumbnail path outside the `camera/` prefix is used whole: when the
/// timelapse carries no base64 thumbnail and its thumbnail path (with no
/// backslash, no `/camera/` and no leading `camera/`) is not blank, the
/// thumbnail is fetched from the camera-folder URL of the safe form of that
/// whole path, subfolders included.
pub proof fn law_thumbnail_path_is_kept_whole(instance: TimelapseInstance, host: Seq<char>, port: u16)
    requires
        trim(instance.thumbnail_base64@).len() == 0,
        trim(instance.thumbnail_path@).len() > 0,
        !(instance.thumbnail_path@.len() >= 7 && instance.thumbnail_path@.take(7) == "camera/"@),
        forall|i: int| 0 <= i < instance.thumbnail_path@.len() ==> instance.thumbnail_path@[i] != '\\',
        forall|j: int|
            0 <= j && j + 8 <= instance.thumbnail_path@.len() ==> #[trigger] instance.thumbnail_path@.subrange(
                j,
                j + 8,
            ) != "/camera/"@,
    ensures
        thumbnail_source_spec(instance, host, port) == Ok::<ThumbnailSourceView, Seq<char>>(
            ThumbnailSourceView::Fetch(
                camera_file_url_spec(
                    host,
                    port,
                    encode_url_path_spec(safe_relative_path(instance.thumbnail_path@)),
                ),
            ),
        ),
{
    let p = instance.thumbnail_path@;
    reveal_strlit("/camera/");
    assert(forward_slashes(p) =~= p);
    assert forall|j: int| 0 <= j implies !#[trigger] occurs_at(p, "/camera/"@, j) by {
        if j + 8 <= p.len() {
            assert(p.subrange(j, j + 8) != "/camera/"@);
        }
    }
    lemma_find_from_absent(p, "/camera/"@, 0);
    assert(second_piece(p, "/camera/"@) is None);
    assert(thumbnail_relative(p) == p);
}

/// Two URLs tried one after the other never have the same serialization.
pub proof fn law_no_url_tried_twice_in_a_row(host: Seq<char>, port: u16, instance: TimelapseInstance)
    requires
        download_candidates_spec(host, port, instance) is Ok,
    ensures
        download_candidates_spec(host, port, instance)->Ok_0.len() > 0,
        forall|i: int|
            0 <= i < download_candidates_spec(host, port, instance)->Ok_0.len() - 1 ==> (
            #[trigger] download_candidates_spec(host, port, instance)->Ok_0[i]).href
                != download_candidates_spec(host, port, instance)->Ok_0[i + 1].href,
{
    let authority = url_authority(host);
    let base = url_parse_result(base_url_input(authority, port))->Ok_0;
    let suffix = trim(instance.video_local_url_suffix@);
    let first = suffix_candidates(base, authority, host, port, suffix)->Ok_0;
    let list = match camera_candidate(base, instance.video_path@) {
        None => first,
        Some(r) => first.push(r->Ok_0),
    };
    lemma_dedup_by_href(list);
}

pub fn dedup_urls(v: Vec<ParsedUrl>) -> (r: Vec<ParsedUrl>)
    ensures
        urls_view(r@) == dedup_by_href(urls_view(v@)),
{
    let mut r: Vec<ParsedUrl> = Vec::new();
    let n = v.len();
    let mut i: usize = 0;
    while i < n
        invariant
            n == v@.len(),
            i <= n,
            urls_view(r@) == dedup_by_href(urls_view(v@).take(i as int)),
        decreases n - i,
    {
        proof {
            assert(urls_view(v@).take(i + 1).drop_last() =~= urls_view(v@).take(i as int));
            assert(urls_view(v@).take(i + 1).last() == v@[i as int]@);
        }
        let u = &v[i];
        let same = if r.len() > 0 {
            let last = &r[r.len() - 1];
            let a = chars_of(last.href.as_str());
            let b = chars_of(u.href.as_str());
            chars_equal(a.as_slice(), b.as_slice())
        } else {
            false
        };
        if !same {
            let ghost before = urls_view(r@);
            r.push(u.duplicate());
            assert(urls_view(r@) =~= before.push(u@));
        }
        i = i + 1;
    }
    assert(urls_view(v@).take(n as int) =~= urls_view(v@));
    r
}

/// Refuses a download URL that is not on the host of `base`.
pub fn ensure_on_printer(url: &ParsedUrl, base: &ParsedUrl) -> (r: Result<(), CandidateError>)
    ensures
        match r {
            Ok(()) => off_printer_problem(url@, base@) is None,
            Err(e) => off_printer_problem(url@, base@) == Some(e@),
        },
{
    let scheme = chars_of(url.scheme.as_str());
    let http = chars_of("http");
    let https = chars_of("https");
    if !(chars_equal(scheme.as_slice(), http.as_slice()) || chars_equal(
        scheme.as_slice(),
        https.as_slice(),
    )) {
        return Err(CandidateError::UnsupportedProtocol);
    }
    let returned: Vec<char> = match &url.host {
        Some(h) => chars_of(h.as_str()),
        None => Vec::new(),
    };
    let expected: Vec<char> = match &base.host {
        Some(h) => chars_of(h.as_str()),
        None => Vec::new(),
    };
    if !equal_ignoring_ascii_case(&returned, expected.as_slice()) {
        return Err(CandidateError::DifferentHost);
    }
    Ok(())
}

/// The candidate list once its URLs are known (see `finished_candidates`).
pub fn finish_candidates(list: Vec<ParsedUrl>, base: &ParsedUrl) -> (r: Result<Vec<ParsedUrl>, CandidateError>)
    ensures
        candidates_view(r) == finished_candidates(urls_view(list@), base@),
        r matches Ok(c) ==> forall|i: int|
            0 <= i < c@.len() ==> off_printer_problem(#[trigger] c@[i]@, base@) is None,
{
    let deduped = dedup_urls(list);
    if deduped.len() == 0 {
        return Err(CandidateError::NoVideoSource);
    }
    let mut i: usize = 0;
    assert(urls_view(deduped@).skip(0) =~= urls_view(deduped@));
    while i < deduped.len()
        invariant
            i <= deduped@.len(),
            urls_view(deduped@) == dedup_by_href(urls_view(list@)),
            first_foreign(urls_view(deduped@), base@) == first_foreign(
                urls_view(deduped@).skip(i as int),
                base@,
            ),
        decreases deduped@.len() - i,
    {
        let ghost rest = urls_view(deduped@).skip(i as int);
        assert(rest[0] == deduped@[i as int]@);
        assert(rest.drop_first() =~= urls_view(deduped@).skip(i + 1));
        match ensure_on_printer(&deduped[i], base) {
            Err(e) => return Err(e),
            Ok(()) => {},
        }
        i = i + 1;
    }
    assert(urls_view(deduped@).skip(i as int) =~= Seq::<ParsedUrlView>::empty());
    proof {
        lemma_first_foreign_none(urls_view(deduped@), base@);
        assert forall|k: int| 0 <= k < deduped@.len() implies off_printer_problem(
            #[trigger] deduped@[k]@,
            base@,
        ) is None by {
            assert(urls_view(deduped@)[k] == deduped@[k]@);
        }
    }
    Ok(deduped)
}

/// The URLs from which the video of `instance` is downloaded from the printer
/// at `host`, in the order they are tried (see `download_candidates_spec`).
/// Every one of them is on the host of the URL built from the printer's
/// address.
pub fn download_candidates(host: &str, http_port: u16, instance: &TimelapseInstance) -> (r: Result<
    Vec<ParsedUrl>,
    CandidateError,
>)
    ensures
        candidates_view(r) == download_candidates_spec(host@, http_port, *instance),
        r is Ok ==> url_parse_result(base_url_input(url_authority(host@), http_port)) is Ok,
        r matches Ok(c) ==> forall|i: int|
            0 <= i < c@.len() ==> off_printer_problem(
                #[trigger] c@[i]@,
                url_parse_result(base_url_input(url_authority(host@), http_port))->Ok_0,
            ) is None,
{
    let host_chars = chars_of(host);
    let authority = authority_of(&host_chars);
    let mut base_text = chars_of("http://");
    append_chars(&mut base_text, authority.as_slice());
    base_text.push(':');
    push_decimal(&mut base_text, http_port as u64);
    base_text.push('/');
    assert(base_text@ =~= base_url_input(authority@, http_port));
    let base_str = string_from_chars(base_text.as_slice());
    let base = match parse_url(base_str.as_str()) {
        Ok(b) => b,
        Err(m) => return Err(invalid_url(m)),
    };
    let suffix = trim_chars(chars_of(instance.video_local_url_suffix.as_str()).as_slice());
    let mut list = match candidates_from_suffix(&base, &authority, host, http_port, &suffix) {
        Ok(l) => l,
        Err(e) => return Err(e),
    };
    match candidate_from_video_path(&base, instance.video_path.as_str()) {
        None => {},
        Some(Ok(u)) => {
            let ghost before = urls_view(list@);
            list.push(u);
            assert(urls_view(list@) =~= before.push(u@));
        },
        Some(Err(e)) => return Err(e),
    }
    finish_candidates(list, &base)
}


// ---------------------------------------------------------------------------
// Trying the candidates
// ---------------------------------------------------------------------------

/// The download of one timelapse from its candidate URLs: they are tried in
/// order, and the first that succeeds ends the download.
pub struct DownloadAttempts {
    /// The index of the URL tried next.
    pub next: usize,
    /// Each URL tried so far, with the error it gave.
    pub failures: Vec<(String, String)>,
}

/// What to do next.
#[derive(Clone, Debug)]
pub enum AttemptStep {
    /// Try the candidate with this index.
    Try(usize),
    /// Every candidate failed: give up with this message.
    GiveUp(String),
}

impl DownloadAttempts {
    /// The URLs before `next` were tried in order, and each failed.
    pub open spec fn well_formed(self, candidates: Seq<ParsedUrl>) -> bool {
        &&& self.next <= candidates.len()
        &&& self.failures@.len() == self.next
        &&& forall|i: int| 0 <= i < self.next ==> (#[trigger] self.failures@[i]).0 == candidates[i].href
    }

    /// Nothing tried yet.
    pub fn new() -> (r: DownloadAttempts)
        ensures
            r.next == 0,
            r.failures@.len() == 0,
    {
        DownloadAttempts { next: 0, failures: Vec::new() }
    }

    /// The next candidate to try, or, once every one failed, the message that
    /// lists each URL with its error.
    pub fn step(&self, candidates: &Vec<ParsedUrl>) -> (r: AttemptStep)
        requires
            self.well_formed(candidates@),
        ensures
            self.next < candidates@.len() ==> r == AttemptStep::Try(self.next),
            self.next == candidates@.len() ==> (r matches AttemptStep::GiveUp(m)
                && m@ == all_attempts_failed_text(self.failures@)),
    {
        if self.next < candidates.len() {
            AttemptStep::Try(self.next)
        } else {
            AttemptStep::GiveUp(all_attempts_failed_message(&self.failures))
        }
    }

    /// The candidate tried last failed with `error`.
    pub fn failed(&mut self, candidates: &Vec<ParsedUrl>, error: String)
        requires
            old(self).well_formed(candidates@),
            old(self).next < candidates@.len(),
        ensures
            final(self).well_formed(candidates@),
            final(self).next == old(self).next + 1,
            final(self).failures@ == old(self).failures@.push(
                (candidates@[old(self).next as int].href, error),
            ),
    {
        let i = self.next;
        let n = candidates.len();
        assert(i < n);
        let url = candidates[i].href.clone();
        self.failures.push((url, error));
        self.next = i + 1;
    }
}

// ---------------------------------------------------------------------------
// Thumbnails
// ---------------------------------------------------------------------------

/// What `base64::engine::general_purpose::STANDARD.decode` gives for the bytes
/// of `input`: the decoded bytes, or the message of its `DecodeError`.
pub uninterp spec fn base64_decode_result(input: Seq<char>) -> Result<Seq<u8>, Seq<char>>;

/// `Engine::decode` of the standard base64 engine (padded, standard
/// alphabet), its error read through `Display`. The contract only names the
/// result.
#[verifier::external_body]
fn decode_base64(input: &str) -> (r: Result<Vec<u8>, String>)
    ensures
        match r {
            Ok(b) => base64_decode_result(input@) == Ok::<Seq<u8>, Seq<char>>(b@),
            Err(m) => base64_decode_result(input@) == Err::<Seq<u8>, Seq<char>>(m@),
        },
{
    match base64::engine::general_purpose::STANDARD.decode(input) {
        Ok(b) => Ok(b),
        Err(e) => Err(e.to_string()),
    }
}

/// Where the thumbnail of a timelapse comes from.
#[derive(Clone, Debug)]
pub enum ThumbnailSource {
    /// The timelapse has no thumbnail.
    Nothing,
    /// Download it from this URL.
    Fetch(String),
    /// The timelapse carries it: these bytes.
    Inline(Vec<u8>),
}

pub enum ThumbnailSourceView {
    Nothing,
    Fetch(Seq<char>),
    Inline(Seq<u8>),
}

impl View for ThumbnailSource {
    type V = ThumbnailSourceView;

    open spec fn view(&self) -> ThumbnailSourceView {
        match self {
            ThumbnailSource::Nothing => ThumbnailSourceView::Nothing,
            ThumbnailSource::Fetch(u) => ThumbnailSourceView::Fetch(u@),
            ThumbnailSource::Inline(b) => ThumbnailSourceView::Inline(b@),
        }
    }
}

/// The part of a thumbnail path inside the camera folder: after `/camera/`,
/// else after a leading `camera/`, else the whole path.
pub open spec fn thumbnail_relative(remote: Seq<char>) -> Seq<char> {
    match second_piece(remote, "/camera/"@) {
        Some(p) => p,
        None => if remote.len() >= 7 && remote.take(7) == "camera/"@ {
            remote.skip(7)
        } else {
            remote
        },
    }
}

/// The text after the first `,` of `s` (the payload of a data URL), or all of
/// `s` when it has none.
pub open spec fn after_first_comma(s: Seq<char>) -> Seq<char> {
    let pieces = split_on(s, ',');
    if pieces.len() <= 1 {
        s
    } else {
        s.skip((pieces[0].len() + 1) as int)
    }
}

/// The thumbnail of `instance`: decoded from its base64 text when it has one;
/// otherwise fetched from its path in the camera folder of the printer at
/// `host`; nothing when it has neither. The error is the decoder's message.
pub open spec fn thumbnail_source_spec(instance: TimelapseInstance, host: Seq<char>, port: u16) -> Result<
    ThumbnailSourceView,
    Seq<char>,
> {
    if trim(instance.thumbnail_base64@).len() == 0 {
        if trim(instance.thumbnail_path@).len() == 0 {
            Ok(ThumbnailSourceView::Nothing)
        } else {
            let rel = thumbnail_relative(forward_slashes(instance.thumbnail_path@));
            let encoded = encode_url_path_spec(safe_relative_path(rel));
            Ok(ThumbnailSourceView::Fetch(camera_file_url_spec(host, port, encoded)))
        }
    } else {
        match base64_decode_result(trim(after_first_comma(instance.thumbnail_base64@))) {
            Ok(b) => Ok(ThumbnailSourceView::Inline(b)),
            Err(m) => Err(m),
        }
    }
}

fn thumbnail_relative_exec(remote: &Vec<char>) -> (r: Vec<char>)
    ensures
        r@ == thumbnail_relative(remote@),
{
    let pat = chars_of("/camera/");
    match second_piece_exec(remote, &pat) {
        Some(p) => p,
        None => {
            let prefix = chars_of("camera/");
            proof {
                reveal_strlit("camera/");
            }
            if starts_with(remote.as_slice(), prefix.as_slice()) {
                let r = copy_range(remote.as_slice(), 7, remote.len());
                assert(r@ =~= remote@.skip(7));
                r
            } else {
                let r = copy_range(remote.as_slice(), 0, remote.len());
                assert(r@ =~= remote@);
                r
            }
        },
    }
}

fn after_first_comma_exec(v: &Vec<char>) -> (r: Vec<char>)
    ensures
        r@ == after_first_comma(v@),
{
    let pieces = split_chars(v.as_slice(), ',');
    proof {
        crate::text::lemma_split_nonempty(v@, ',');
        crate::text::lemma_join_split(v@, ',');
    }
    if pieces.len() <= 1 {
        let r = copy_range(v.as_slice(), 0, v.len());
        assert(r@ =~= v@);
        r
    } else {
        proof {
            lemma_first_piece_then_sep(v@, ',');
        }
        assert(views_of(pieces@)[0] == pieces@[0]@);
        let vlen = v.len();
        assert(pieces@[0]@.len() < vlen);
        let start = pieces[0].len() + 1;
        let r = copy_range(v.as_slice(), start, v.len());
        assert(r@ =~= v@.skip(start as int));
        r
    }
}

/// When a split has more than one piece, the separator follows the first piece.
proof fn lemma_first_piece_then_sep(s: Seq<char>, sep: char)
    ensures
        split_on(s, sep).len() > 1 ==> split_on(s, sep)[0].len() < s.len() && s[split_on(
            s,
            sep,
        )[0].len() as int] == sep && s.take(split_on(s, sep)[0].len() as int) == split_on(s, sep)[0],
    decreases s.len(),
{
    if s.len() > 0 {
        let t = s.drop_last();
        lemma_first_piece_then_sep(t, sep);
        crate::text::lemma_split_nonempty(t, sep);
        let p = split_on(t, sep);
        if p.len() > 1 {
            assert(split_on(s, sep)[0] == p[0]);
            assert(s.take(p[0].len() as int) =~= t.take(p[0].len() as int));
        } else if s.last() == sep {
            assert(split_on(s, sep)[0] == p[0]);
            lemma_single_piece_is_whole(t, sep);
            assert(s.take(t.len() as int) =~= t);
        }
    }
}

/// A split with a single piece is the whole text.
proof fn lemma_single_piece_is_whole(s: Seq<char>, sep: char)
    ensures
        split_on(s, sep).len() == 1 ==> split_on(s, sep)[0] == s,
    decreases s.len(),
{
    if s.len() > 0 {
        let t = s.drop_last();
        lemma_single_piece_is_whole(t, sep);
        crate::text::lemma_split_nonempty(t, sep);
        if s.last() != sep && split_on(t, sep).len() == 1 {
            assert(split_on(t, sep)[0].push(s.last()) =~= s);
        }
    }
}

/// Where the thumbnail of `instance` comes from, for the printer at `host`.
pub fn thumbnail_source(instance: &TimelapseInstance, host: &str, http_port: u16) -> (r: Result<
    ThumbnailSource,
    String,
>)
    ensures
        match r {
            Ok(t) => thumbnail_source_spec(*instance, host@, http_port) == Ok::<
                ThumbnailSourceView,
                Seq<char>,
            >(t@),
            Err(m) => thumbnail_source_spec(*instance, host@, http_port) == Err::<
                ThumbnailSourceView,
                Seq<char>,
            >(m@),
        },
{
    let b64 = chars_of(instance.thumbnail_base64.as_str());
    if is_blank(b64.as_slice()) {
        let path = chars_of(instance.thumbnail_path.as_str());
        if is_blank(path.as_slice()) {
            return Ok(ThumbnailSource::Nothing);
        }
        let rel = thumbnail_relative_exec(&forward_slashes_exec(&path));
        let safe = safe_relative_path_exec(&rel);
        let encoded = encode_url_path(string_from_chars(safe.as_slice()).as_str());
        let mut url = chars_of("http://");
        let authority = authority_of(&chars_of(host));
        append_chars(&mut url, authority.as_slice());
        url.push(':');
        push_decimal(&mut url, http_port as u64);
        append_str(&mut url, "/server/files/camera/");
        append_str(&mut url, encoded.as_str());
        assert(url@ =~= camera_file_url_spec(host@, http_port, encoded@));
        Ok(ThumbnailSource::Fetch(string_from_chars(url.as_slice())))
    } else {
        let payload = trim_chars(after_first_comma_exec(&b64).as_slice());
        assert(payload@ == trim(after_first_comma(instance.thumbnail_base64@)));
        match decode_base64(string_from_chars(payload.as_slice()).as_str()) {
            Ok(bytes) => Ok(ThumbnailSource::Inline(bytes)),
            Err(m) => Err(m),
        }
    }
}

} // verus!
