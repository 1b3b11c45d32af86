//! How the engine reads a server's headers and checks that a resumed or
//! segmented response really is the part of the file that was asked for.
//! Header values arrive as text: `None` stands for a header that is missing
//! or does not hold visible ASCII.
use vstd::prelude::*;

use crate::engine::{copy_validator, validators_equal, EngineError};
use crate::model::{CookieEntry, DownloadSource, HeaderEntry, ResumeSupport, SourceValidator, TransferSize};
use crate::text::{
    chars_of, lower_chars, parse_u64, range_is, string_of, string_of_range, trim_bounds,
};

verus! {

/// An entity tag marked weak (`W/...`) cannot identify an exact byte sequence.
pub open spec fn is_weak_etag(e: Seq<char>) -> bool {
    crate::text::has_prefix(crate::text::trim_start(e), "W/"@)
}

/// `ETag` when it is strong, else `Last-Modified`, else nothing.
pub open spec fn spec_response_validator(
    etag: Option<Seq<char>>,
    last_modified: Option<Seq<char>>,
    r: SourceValidator,
) -> bool {
    match r {
        SourceValidator::Etag { value } => etag == Some(value@) && !is_weak_etag(value@),
        SourceValidator::LastModified { value } => (etag is None || is_weak_etag(etag->0))
            && last_modified == Some(value@),
        SourceValidator::Absent => (etag is None || is_weak_etag(etag->0)) && last_modified is None,
    }
}

pub open spec fn opt_view(o: Option<&str>) -> Option<Seq<char>> {
    match o {
        Some(s) => Some(s@),
        None => None,
    }
}

fn is_weak(e: &str) -> (r: bool)
    ensures
        r == is_weak_etag(e@),
{
    proof {
        reveal_strlit("W/");
    }
    let v = chars_of(e);
    let (a, b) = trim_bounds(&v);
    let r = range_is(&v, a, "W/");
    proof {
        let t = v@.subrange(a as int, v@.len() as int);
        if "W/"@.len() <= t.len() {
            assert(t.subrange(0, "W/"@.len() as int) =~= v@.subrange(
                a as int,
                a + "W/"@.len(),
            ));
        }
    }
    r
}

/// The validator that identifies the version of the file a response carries.
pub fn response_validator(etag: Option<&str>, last_modified: Option<&str>) -> (r: SourceValidator)
    ensures
        spec_response_validator(opt_view(etag), opt_view(last_modified), r),
{
    if let Some(value) = etag {
        if !is_weak(value) {
            return SourceValidator::Etag { value: value.to_owned() };
        }
    }
    if let Some(value) = last_modified {
        return SourceValidator::LastModified { value: value.to_owned() };
    }
    SourceValidator::Absent
}

/// The validator of a range confirmation: the one already known when the
/// response brings none, the observed one when none was known or both agree,
/// and an error when they differ.
pub fn confirmed_segment_validator(expected: &SourceValidator, observed: SourceValidator) -> (r:
    Result<SourceValidator, EngineError>)
    ensures
        observed is Absent ==> r == Ok::<SourceValidator, EngineError>(*expected),
        !(observed is Absent) && (expected is Absent || crate::engine::same_validator(
            *expected,
            observed,
        )) ==> r == Ok::<SourceValidator, EngineError>(observed),
        !(observed is Absent) && !(expected is Absent) && !crate::engine::same_validator(
            *expected,
            observed,
        ) ==> r matches Err(EngineError::SourceChanged),
{
    if matches!(observed, SourceValidator::Absent) {
        return Ok(copy_validator(expected));
    }
    if matches!(expected, SourceValidator::Absent) || validators_equal(expected, &observed) {
        return Ok(observed);
    }
    Err(EngineError::SourceChanged)
}

/// A segment response may omit the validator; if it brings one, it must be
/// the one the transfer started with.
pub fn validate_segment_response_validator(expected: &SourceValidator, observed: &SourceValidator) -> (r:
    Result<(), EngineError>)
    ensures
        r is Ok <==> (observed is Absent || crate::engine::same_validator(*expected, *observed)),
        r matches Err(e) ==> e is SourceChanged,
{
    if matches!(observed, SourceValidator::Absent) || validators_equal(expected, observed) {
        return Ok(());
    }
    Err(EngineError::SourceChanged)
}

/// `Accept-Ranges: bytes`, in any letter case.
pub fn accepts_ranges(accept_ranges: Option<&str>) -> (r: bool)
    ensures
        r == (accept_ranges matches Some(v) && (crate::text::lower_seq(v@) == "bytes"@)),
{
    match accept_ranges {
        Some(v) => {
            let c = chars_of(v);
            let l = lower_chars(&c);
            let n = l.len();
            proof {
                reveal_strlit("bytes");
            }
            let r = n == 5 && range_is(&l, 0, "bytes");
            proof {
                if n == 5 && r {
                    assert(l@.subrange(0, 5) =~= l@);
                }
                if n == 5 && !r {
                    assert(l@.subrange(0, 5) =~= l@);
                }
            }
            r
        },
        None => false,
    }
}

/// Resuming needs a server that takes byte ranges.
pub fn resume_support(accepts_ranges: bool) -> (r: ResumeSupport)
    ensures
        accepts_ranges ==> r is Supported,
        !accepts_ranges ==> (r matches ResumeSupport::Unsupported { reason } && reason@
            == "El servidor no acepta solicitudes por rango"@),
{
    if !accepts_ranges {
        ResumeSupport::Unsupported { reason: "El servidor no acepta solicitudes por rango".to_owned() }
    } else {
        ResumeSupport::Supported
    }
}

/// Appending to a partial file is refused when both the stored and the new
/// validator exist and differ.
pub fn ensure_same_source(downloaded: u64, previous: &SourceValidator, current: &SourceValidator) -> (r:
    Result<(), EngineError>)
    ensures
        r is Err <==> (downloaded > 0 && !(previous is Absent) && !(current is Absent)
            && !crate::engine::same_validator(*previous, *current)),
        r matches Err(e) ==> e is SourceChanged,
{
    if downloaded > 0 && !matches!(previous, SourceValidator::Absent) && !matches!(
        current,
        SourceValidator::Absent,
    ) && !validators_equal(
        previous,
        current,
    ) {
        return Err(EngineError::SourceChanged);
    }
    Ok(())
}

/// Appending to a partial file is refused when a known size changes or
/// becomes unknown.
pub fn ensure_same_size(downloaded: u64, previous: &TransferSize, current: &TransferSize) -> (r:
    Result<(), EngineError>)
    ensures
        r is Err <==> (downloaded > 0 && previous is Known && *current != *previous),
        r matches Err(e) ==> e is SourceChanged,
{
    if downloaded > 0 {
        match (previous, current) {
            (TransferSize::Known { total_bytes: p }, TransferSize::Known { total_bytes: c }) if *p
                == *c => {},
            (TransferSize::Known { .. }, _) => return Err(EngineError::SourceChanged),
            _ => {},
        }
    }
    Ok(())
}

/// First index of `c` in `s`.
pub open spec fn first_index(s: Seq<char>, c: char) -> Option<int>
    decreases s.len(),
{
    if s.len() == 0 {
        None
    } else if s[0] == c {
        Some(0)
    } else {
        match first_index(s.drop_first(), c) {
            Some(i) => Some(i + 1),
            None => None,
        }
    }
}

pub proof fn lemma_first_index(s: Seq<char>, c: char)
    ensures
        first_index(s, c) is Some ==> {
            let i = first_index(s, c)->0;
            &&& 0 <= i < s.len()
            &&& s[i] == c
            &&& forall|j: int| 0 <= j < i ==> s[j] != c
        },
        first_index(s, c) is None ==> forall|j: int| 0 <= j < s.len() ==> s[j] != c,
    decreases s.len(),
{
    if s.len() > 0 && s[0] != c {
        lemma_first_index(s.drop_first(), c);
        if first_index(s.drop_first(), c) is Some {
            let i = first_index(s.drop_first(), c)->0;
            assert forall|j: int| 0 <= j < i + 1 implies s[j] != c by {
                if j > 0 {
                    assert(s[j] == s.drop_first()[j - 1]);
                }
            }
        } else {
            assert forall|j: int| 0 <= j < s.len() implies s[j] != c by {
                if j > 0 {
                    assert(s[j] == s.drop_first()[j - 1]);
                }
            }
        }
    }
}

/// `s.split(c).next()`: the text before the first `c`.
pub open spec fn before_first(s: Seq<char>, c: char) -> Seq<char> {
    match first_index(s, c) {
        Some(i) => s.subrange(0, i),
        None => s,
    }
}

/// `s.split_once(c)`.
pub open spec fn split_once(s: Seq<char>, c: char) -> Option<(Seq<char>, Seq<char>)> {
    match first_index(s, c) {
        Some(i) => Some((s.subrange(0, i), s.subrange(i + 1, s.len() as int))),
        None => None,
    }
}

/// First index of `c` in `v[from..to]`, as `first_index` counts it.
pub fn find_char(v: &Vec<char>, from: usize, to: usize, c: char) -> (r: Option<usize>)
    requires
        from <= to <= v@.len(),
    ensures
        match first_index(v@.subrange(from as int, to as int), c) {
            Some(i) => r == Some((from + i) as usize),
            None => r is None,
        },
{
    let ghost s = v@.subrange(from as int, to as int);
    let mut i = from;
    while i < to
        invariant
            from <= i <= to <= v@.len(),
            s == v@.subrange(from as int, to as int),
            forall|j: int| from <= j < i ==> v@[j] != c,
        decreases to - i,
    {
        if v[i] == c {
            proof {
                lemma_first_index(s, c);
                assert(s[i - from] == c);
                if first_index(s, c) is Some {
                    let k = first_index(s, c)->0;
                    if k < i - from {
                        assert(s[k] == v@[from + k]);
                    }
                }
            }
            return Some(i);
        }
        i = i + 1;
    }
    proof {
        lemma_first_index(s, c);
        if first_index(s, c) is Some {
            let k = first_index(s, c)->0;
            assert(s[k] == v@[from + k]);
        }
    }
    None
}

/// The byte bounds of `Content-Range: bytes <start>-<end>/<total>`.
pub open spec fn content_range_bounds(v: Seq<char>) -> Option<(u64, u64)> {
    if !crate::text::has_prefix(v, "bytes "@) {
        None
    } else {
        let rest = v.subrange(6, v.len() as int);
        match split_once(before_first(rest, '/'), '-') {
            Some((a, b)) => match (crate::text::parse_u64_spec(a), crate::text::parse_u64_spec(b)) {
                (Some(x), Some(y)) => Some((x, y)),
                _ => None,
            },
            None => None,
        }
    }
}

/// `value.split('/').nth(1)` parsed as a number: the total of a `Content-Range`.
pub open spec fn content_range_total_spec(v: Seq<char>) -> Option<u64> {
    match first_index(v, '/') {
        Some(i) => crate::text::parse_u64_spec(before_first(v.subrange(i + 1, v.len() as int), '/')),
        None => None,
    }
}

fn parse_range(v: &Vec<char>, from: usize, to: usize) -> (r: Option<u64>)
    requires
        from <= to <= v@.len(),
    ensures
        r == crate::text::parse_u64_spec(v@.subrange(from as int, to as int)),
{
    let mut w: Vec<char> = Vec::new();
    let mut i = from;
    while i < to
        invariant
            from <= i <= to <= v@.len(),
            w@ == v@.subrange(from as int, i as int),
        decreases to - i,
    {
        w.push(v[i]);
        i = i + 1;
    }
    parse_u64(&w)
}

fn total_of(v: &Vec<char>) -> (r: Option<u64>)
    ensures
        r == content_range_total_spec(v@),
{
    let n = v.len();
    proof {
        lemma_first_index(v@, '/');
        assert(v@.subrange(0, n as int) =~= v@);
    }
    match find_char(v, 0, n, '/') {
        Some(i) => {
            let ghost after = v@.subrange(i + 1, n as int);
            let end = match find_char(v, i + 1, n, '/') {
                Some(j) => j,
                None => n,
            };
            proof {
                assert(v@.subrange(i + 1, n as int) =~= after);
                lemma_first_index(after, '/');
                if first_index(after, '/') is Some {
                    let k = first_index(after, '/')->0;
                    assert(v@.subrange(i + 1, end as int) =~= after.subrange(0, k));
                } else {
                    assert(v@.subrange(i + 1, end as int) =~= after);
                }
            }
            parse_range(v, i + 1, end)
        },
        None => {
            assert(v@.subrange(0, n as int) =~= v@);
            None
        },
    }
}

/// `Content-Range` total: `value.split('/').nth(1)` as a number.
pub fn content_range_total(content_range: Option<&str>) -> (r: Option<u64>)
    ensures
        r == match content_range {
            Some(v) => content_range_total_spec(v@),
            None => None,
        },
{
    match content_range {
        Some(s) => {
            let v = chars_of(s);
            total_of(&v)
        },
        None => None,
    }
}

fn bounds_of(v: &Vec<char>) -> (r: Option<(u64, u64)>)
    ensures
        r == content_range_bounds(v@),
{
    let n = v.len();
    proof {
        reveal_strlit("bytes ");
    }
    if !range_is(v, 0, "bytes ") {
        return None;
    }
    let ghost rest = v@.subrange(6, n as int);
    let end = match find_char(v, 6, n, '/') {
        Some(j) => j,
        None => n,
    };
    let ghost head = before_first(rest, '/');
    proof {
        assert(v@.subrange(6, n as int) =~= rest);
        lemma_first_index(rest, '/');
        if first_index(rest, '/') is Some {
            assert(v@.subrange(6, end as int) =~= head);
        } else {
            assert(v@.subrange(6, end as int) =~= head);
        }
        lemma_first_index(head, '-');
    }
    match find_char(v, 6, end, '-') {
        Some(d) => {
            let a = parse_range(v, 6, d);
            let b = parse_range(v, d + 1, end);
            proof {
                let k = d - 6;
                assert(v@.subrange(6, d as int) =~= head.subrange(0, k));
                assert(v@.subrange(d + 1, end as int) =~= head.subrange(k + 1, head.len() as int));
            }
            match (a, b) {
                (Some(x), Some(y)) => Some((x, y)),
                _ => None,
            }
        },
        None => None,
    }
}

/// The checks of a `206` response: the `Content-Range` header reads
/// `bytes <start>-<end>/...` with `start <= end`, starts where it was asked,
/// ends where it was asked when an end is given, has the expected total when
/// one is given, and a `Content-Length` that parses must count the range.
pub open spec fn spec_content_range_valid(
    content_range: Option<Seq<char>>,
    content_length: Option<Seq<char>>,
    expected_start: u64,
    expected_end: Option<u64>,
    expected_total: Option<u64>,
) -> bool {
    match content_range {
        None => false,
        Some(v) => match content_range_bounds(v) {
            None => false,
            Some((s, e)) => {
                &&& s <= e
                &&& s == expected_start
                &&& (expected_end matches Some(x) ==> x == e)
                &&& (expected_total matches Some(t) ==> content_range_total_spec(v) == Some(t))
                &&& match content_length {
                    Some(l) => match crate::text::parse_u64_spec(l) {
                        Some(n) => n == e - s + 1,
                        None => true,
                    },
                    None => true,
                }
            },
        },
    }
}

pub fn validate_content_range(
    content_range: Option<&str>,
    content_length: Option<&str>,
    expected_start: u64,
    expected_end: Option<u64>,
    expected_total: Option<u64>,
) -> (r: Result<(), EngineError>)
    ensures
        r is Ok <==> spec_content_range_valid(
            opt_view(content_range),
            opt_view(content_length),
            expected_start,
            expected_end,
            expected_total,
        ),
        r matches Err(e) ==> e is InvalidContentRange,
{
    let value = match content_range {
        Some(v) => v,
        None => return Err(EngineError::InvalidContentRange),
    };
    let v = chars_of(value);
    let (start, end) = match bounds_of(&v) {
        Some(b) => b,
        None => return Err(EngineError::InvalidContentRange),
    };
    if end < start || start != expected_start {
        return Err(EngineError::InvalidContentRange);
    }
    if let Some(x) = expected_end {
        if x != end {
            return Err(EngineError::InvalidContentRange);
        }
    }
    if let Some(t) = expected_total {
        match total_of(&v) {
            Some(total) => if total != t {
                return Err(EngineError::InvalidContentRange);
            },
            None => return Err(EngineError::InvalidContentRange),
        }
    }
    if let Some(l) = content_length {
        let lc = chars_of(l);
        if let Some(length) = parse_u64(&lc) {
            if length == 0 || length - 1 != end - start {
                return Err(EngineError::InvalidContentRange);
            }
        }
    }
    Ok(())
}

/// The size a response announces: after a resumed request the total of its
/// `Content-Range` when it has one, else the resumed offset plus the
/// `Content-Length` (wrapping at 2^64 as the release build computes it),
/// else unknown.
pub open spec fn spec_response_size(
    content_length: Option<Seq<char>>,
    content_range: Option<Seq<char>>,
    resumed: u64,
) -> TransferSize {
    let total = match content_range {
        Some(v) => content_range_total_spec(v),
        None => None,
    };
    if resumed > 0 && total is Some {
        TransferSize::Known { total_bytes: total->0 }
    } else {
        match content_length {
            Some(l) => match crate::text::parse_u64_spec(l) {
                Some(n) => TransferSize::Known { total_bytes: ((resumed + n) % 0x1_0000_0000_0000_0000) as u64 },
                None => TransferSize::Unknown,
            },
            None => TransferSize::Unknown,
        }
    }
}

pub fn response_size(content_length: Option<&str>, content_range: Option<&str>, resumed: u64) -> (r:
    TransferSize)
    ensures
        r == spec_response_size(opt_view(content_length), opt_view(content_range), resumed),
{
    if resumed > 0 {
        if let Some(total_bytes) = content_range_total(content_range) {
            return TransferSize::Known { total_bytes };
        }
    }
    match content_length {
        Some(l) => {
            let lc = chars_of(l);
            match parse_u64(&lc) {
                Some(remaining) => {
                    let total = resumed.wrapping_add(remaining);
                    TransferSize::Known { total_bytes: total }
                },
                None => TransferSize::Unknown,
            }
        },
        None => TransferSize::Unknown,
    }
}


/// Scanner state of `split_header_parameters`: the parameters found so far,
/// the one being read, and whether the scan is inside quotes or right after
/// a backslash inside quotes.
pub type ParamScan = (Seq<Seq<char>>, Seq<char>, bool, bool);

pub open spec fn param_step(st: ParamScan, c: char) -> ParamScan {
    let (params, current, quoted, escaped) = st;
    if escaped {
        (params, current.push(c), quoted, false)
    } else if c == '\\' && quoted {
        (params, current.push(c), quoted, true)
    } else if c == '"' {
        (params, current.push(c), !quoted, false)
    } else if c == ';' && !quoted {
        (params.push(crate::text::trim(current)), Seq::empty(), quoted, false)
    } else {
        (params, current.push(c), quoted, false)
    }
}

pub open spec fn param_scan(s: Seq<char>) -> ParamScan
    decreases s.len(),
{
    if s.len() == 0 {
        (Seq::empty(), Seq::empty(), false, false)
    } else {
        param_step(param_scan(s.drop_last()), s.last())
    }
}

/// The parameters of a header value, split at each `;` outside quotes and
/// trimmed.
pub open spec fn spec_split_params(s: Seq<char>) -> Seq<Seq<char>> {
    let st = param_scan(s);
    st.0.push(crate::text::trim(st.1))
}

pub open spec fn views(v: Seq<Vec<char>>) -> Seq<Seq<char>> {
    v.map_values(|p: Vec<char>| p@)
}

/// Splits a header value into its parameters.
pub fn split_header_parameters(value: &Vec<char>) -> (r: Vec<Vec<char>>)
    ensures
        views(r@) == spec_split_params(value@),
{
    let mut params: Vec<Vec<char>> = Vec::new();
    let mut current: Vec<char> = Vec::new();
    let mut quoted = false;
    let mut escaped = false;
    let mut i: usize = 0;
    while i < value.len()
        invariant
            i <= value@.len(),
            param_scan(value@.subrange(0, i as int)) == (views(params@), current@, quoted, escaped),
        decreases value@.len() - i,
    {
        let c = value[i];
        let ghost before = (views(params@), current@, quoted, escaped);
        assert(value@.subrange(0, i + 1).drop_last() =~= value@.subrange(0, i as int));
        if escaped {
            current.push(c);
            escaped = false;
        } else if c == '\\' && quoted {
            current.push(c);
            escaped = true;
        } else if c == '"' {
            quoted = !quoted;
            current.push(c);
        } else if c == ';' && !quoted {
            let t = crate::text::trim_chars(&current);
            params.push(t);
            current = Vec::new();
            assert(views(params@) =~= before.0.push(crate::text::trim(before.1)));
        } else {
            current.push(c);
        }
        i = i + 1;
        assert(param_scan(value@.subrange(0, i as int)) == param_step(before, c));
        assert(param_scan(value@.subrange(0, i as int)) =~= (views(params@), current@, quoted, escaped));
    }
    let t = crate::text::trim_chars(&current);
    params.push(t);
    assert(value@.subrange(0, value@.len() as int) =~= value@);
    assert(views(params@) =~= spec_split_params(value@));
    params
}

/// The scan of `unquote_header_value`: the chars kept so far, and whether the
/// last one read was an unconsumed backslash.
pub open spec fn unescape_scan(s: Seq<char>) -> (Seq<char>, bool)
    decreases s.len(),
{
    if s.len() == 0 {
        (Seq::empty(), false)
    } else {
        let (out, escaped) = unescape_scan(s.drop_last());
        let c = s.last();
        if escaped {
            (out.push(c), false)
        } else if c == '\\' {
            (out, true)
        } else {
            (out.push(c), false)
        }
    }
}

/// The text inside one pair of surrounding double quotes, or the whole text.
pub open spec fn strip_quotes(v: Seq<char>) -> Seq<char> {
    if v.len() >= 2 && v[0] == '"' && v.last() == '"' {
        v.subrange(1, v.len() - 1)
    } else {
        v
    }
}

/// A header parameter value without its quotes, with each backslash escape
/// replaced by the escaped char; a trailing lone backslash stays.
pub open spec fn spec_unquote(v: Seq<char>) -> Seq<char> {
    let (out, escaped) = unescape_scan(strip_quotes(v));
    if escaped {
        out.push('\\')
    } else {
        out
    }
}

pub fn unquote_header_value(value: &Vec<char>) -> (r: Vec<char>)
    ensures
        r@ == spec_unquote(value@),
{
    let n = value.len();
    let (from, to): (usize, usize) = if n >= 2 && value[0] == '"' && value[n - 1] == '"' {
        (1, n - 1)
    } else {
        (0, n)
    };
    let ghost inner = value@.subrange(from as int, to as int);
    proof {
        if from == 0 {
            assert(inner =~= value@);
        }
        assert(inner == strip_quotes(value@));
    }
    let mut out: Vec<char> = Vec::new();
    let mut escaped = false;
    let mut i = from;
    while i < to
        invariant
            from <= i <= to <= value@.len(),
            inner == value@.subrange(from as int, to as int),
            unescape_scan(value@.subrange(from as int, i as int)) == (out@, escaped),
        decreases to - i,
    {
        let c = value[i];
        assert(value@.subrange(from as int, i + 1).drop_last() =~= value@.subrange(
            from as int,
            i as int,
        ));
        if escaped {
            out.push(c);
            escaped = false;
        } else if c == '\\' {
            escaped = true;
        } else {
            out.push(c);
        }
        i = i + 1;
    }
    if escaped {
        out.push('\\');
    }
    out
}

/// The value of an ASCII hex digit byte.
pub open spec fn hex_value(b: u8) -> Option<u8> {
    if 48 <= b <= 57 {
        Some((b - 48) as u8)
    } else if 97 <= b <= 102 {
        Some((b - 87) as u8)
    } else if 65 <= b <= 70 {
        Some((b - 55) as u8)
    } else {
        None
    }
}

/// `u8::from_str_radix(text, 16)` on the two bytes after a `%`: an optional
/// `+` sign followed by one digit, or two digits.
pub open spec fn hex_pair(a: u8, b: u8) -> Option<u8> {
    if a == 43 {
        hex_value(b)
    } else {
        match (hex_value(a), hex_value(b)) {
            (Some(x), Some(y)) => Some((x * 16 + y) as u8),
            _ => None,
        }
    }
}

/// Bytes with each `%XX` replaced by the byte it encodes; `None` when a `%`
/// is not followed by two bytes that `hex_pair` reads.
pub open spec fn percent_bytes(b: Seq<u8>) -> Option<Seq<u8>>
    decreases b.len(),
{
    if b.len() == 0 {
        Some(Seq::empty())
    } else if b[0] == 37 {
        if b.len() < 3 {
            None
        } else {
            match hex_pair(b[1], b[2]) {
                Some(x) => match percent_bytes(b.subrange(3, b.len() as int)) {
                    Some(r) => Some(seq![x] + r),
                    None => None,
                },
                None => None,
            }
        }
    } else {
        match percent_bytes(b.drop_first()) {
            Some(r) => Some(seq![b[0]] + r),
            None => None,
        }
    }
}

/// Percent-decodes the UTF-8 bytes of a text and reads the result as UTF-8.
pub open spec fn spec_percent_decode(s: Seq<char>) -> Option<Seq<char>> {
    match percent_bytes(vstd::utf8::encode_utf8(s)) {
        Some(b) => if vstd::utf8::valid_utf8(b) {
            Some(vstd::utf8::decode_utf8(b))
        } else {
            None
        },
        None => None,
    }
}

fn hex_byte(b: u8) -> (r: Option<u8>)
    ensures
        r == hex_value(b),
{
    if 48 <= b && b <= 57 {
        Some(b - 48)
    } else if 97 <= b && b <= 102 {
        Some(b - 87)
    } else if 65 <= b && b <= 70 {
        Some(b - 55)
    } else {
        None
    }
}

fn hex_pair_exec(a: u8, b: u8) -> (r: Option<u8>)
    ensures
        r == hex_pair(a, b),
{
    if a == 43 {
        hex_byte(b)
    } else {
        match (hex_byte(a), hex_byte(b)) {
            (Some(x), Some(y)) => Some(x * 16 + y),
            _ => None,
        }
    }
}

pub open spec fn prepend(d: Seq<u8>, o: Option<Seq<u8>>) -> Option<Seq<u8>> {
    match o {
        Some(r) => Some(d + r),
        None => None,
    }
}

/// Decodes `%XX` escapes of a text and reads the bytes as UTF-8.
pub fn percent_decode_utf8(value: &str) -> (r: Option<String>)
    ensures
        match r {
            Some(s) => spec_percent_decode(value@) == Some(s@),
            None => spec_percent_decode(value@) is None,
        },
{
    let bytes = value.as_bytes();
    let ghost b = bytes@;
    assert(b == vstd::utf8::encode_utf8(value@));
    let n = bytes.len();
    let mut decoded: Vec<u8> = Vec::new();
    let mut index: usize = 0;
    proof {
        assert(b.subrange(0, n as int) =~= b);
        match percent_bytes(b) {
            Some(r) => {
                assert(Seq::<u8>::empty() + r =~= r);
            },
            None => {},
        }
    }
    while index < n
        invariant
            n == b.len(),
            bytes@ == b,
            b == vstd::utf8::encode_utf8(value@),
            index <= n,
            percent_bytes(b) == prepend(decoded@, percent_bytes(b.subrange(index as int, n as int))),
        decreases n - index,
    {
        let ghost rest = b.subrange(index as int, n as int);
        assert(rest[0] == b[index as int]);
        if bytes[index] == 37 {
            if n - index < 3 {
                assert(percent_bytes(rest) is None);
                return None;
            }
            assert(rest[1] == b[index + 1]);
            assert(rest[2] == b[index + 2]);
            match hex_pair_exec(bytes[index + 1], bytes[index + 2]) {
                Some(x) => {
                    proof {
                        assert(rest.subrange(3, rest.len() as int) =~= b.subrange(index + 3, n as int));
                        let tail = percent_bytes(b.subrange(index + 3, n as int));
                        match tail {
                            Some(t) => {
                                assert(decoded@ + (seq![x] + t) =~= decoded@.push(x) + t);
                            },
                            None => {},
                        }
                    }
                    decoded.push(x);
                    index = index + 3;
                },
                None => {
                    assert(percent_bytes(rest) is None);
                    return None;
                },
            }
        } else {
            let x = bytes[index];
            proof {
                assert(rest.drop_first() =~= b.subrange(index + 1, n as int));
                let tail = percent_bytes(b.subrange(index + 1, n as int));
                match tail {
                    Some(t) => {
                        assert(decoded@ + (seq![x] + t) =~= decoded@.push(x) + t);
                    },
                    None => {},
                }
            }
            decoded.push(x);
            index = index + 1;
        }
    }
    proof {
        assert(b.subrange(n as int, n as int) =~= Seq::<u8>::empty());
        assert(decoded@ + Seq::<u8>::empty() =~= decoded@);
    }
    crate::outside::string_from_utf8(decoded)
}


/// First position at or after `i` where `p` occurs in `s`.
pub open spec fn first_occurrence(s: Seq<char>, p: Seq<char>, i: int) -> Option<int>
    decreases s.len() + 1 - i,
{
    if i < 0 || i > s.len() {
        None
    } else if crate::text::contains_at(s, p, i) {
        Some(i)
    } else {
        first_occurrence(s, p, i + 1)
    }
}

pub proof fn lemma_first_occurrence_found(s: Seq<char>, p: Seq<char>, from: int, k: int)
    requires
        0 <= from <= k,
        crate::text::contains_at(s, p, k),
        forall|j: int| from <= j < k ==> !crate::text::contains_at(s, p, j),
    ensures
        first_occurrence(s, p, from) == Some(k),
    decreases k - from,
{
    if from < k {
        lemma_first_occurrence_found(s, p, from + 1, k);
    }
}

pub proof fn lemma_first_occurrence_none(s: Seq<char>, p: Seq<char>, from: int)
    requires
        0 <= from,
        forall|j: int| from <= j ==> !crate::text::contains_at(s, p, j),
    ensures
        first_occurrence(s, p, from) is None,
    decreases s.len() + 1 - from,
{
    if from <= s.len() {
        lemma_first_occurrence_none(s, p, from + 1);
    }
}

/// A `name=value` parameter: its name trimmed and in lower case, and its
/// value trimmed and unquoted.
pub open spec fn disposition_param(p: Seq<char>) -> Option<(Seq<char>, Seq<char>)> {
    match split_once(p, '=') {
        Some((n, v)) => Some(
            (crate::text::lower_seq(crate::text::trim(n)), spec_unquote(crate::text::trim(v))),
        ),
        None => None,
    }
}

/// An RFC 5987 value `UTF-8''<percent-encoded>`, decoded.
pub open spec fn extended_value(raw: Seq<char>) -> Option<Seq<char>> {
    match first_occurrence(raw, "''"@, 0) {
        Some(k) => if crate::text::lower_seq(raw.subrange(0, k)) == "utf-8"@ {
            spec_percent_decode(raw.subrange(k + 2, raw.len() as int))
        } else {
            None
        },
        None => None,
    }
}

/// The scan of the parameters from index `i`: the first `filename*` whose
/// value decodes wins; otherwise the first `filename`, when it is not empty.
pub open spec fn disposition_scan(ps: Seq<Seq<char>>, i: int, regular: Option<Seq<char>>) -> Option<
    Seq<char>,
>
    decreases ps.len() - i,
{
    if i < 0 || i >= ps.len() {
        match regular {
            Some(r) => if r.len() > 0 {
                Some(r)
            } else {
                None
            },
            None => None,
        }
    } else {
        match disposition_param(ps[i]) {
            None => disposition_scan(ps, i + 1, regular),
            Some((name, raw)) => if name == "filename*"@ {
                match extended_value(raw) {
                    Some(d) => Some(d),
                    None => disposition_scan(ps, i + 1, regular),
                }
            } else if name == "filename"@ && regular is None {
                disposition_scan(ps, i + 1, Some(raw))
            } else {
                disposition_scan(ps, i + 1, regular)
            },
        }
    }
}

/// The file name that a `Content-Disposition` value gives.
pub open spec fn spec_disposition_file_name(v: Seq<char>) -> Option<Seq<char>> {
    disposition_scan(spec_split_params(v), 1, None)
}

fn copy_range(v: &Vec<char>, from: usize, to: usize) -> (r: Vec<char>)
    requires
        from <= to <= v@.len(),
    ensures
        r@ == v@.subrange(from as int, to as int),
{
    let mut r: Vec<char> = Vec::new();
    let mut i = from;
    while i < to
        invariant
            from <= i <= to <= v@.len(),
            r@ == v@.subrange(from as int, i as int),
        decreases to - i,
    {
        r.push(v[i]);
        i = i + 1;
    }
    r
}

fn is_lower_literal(v: &Vec<char>, literal: &str) -> (r: bool)
    ensures
        r == (crate::text::lower_seq(v@) == literal@),
{
    let l = lower_chars(v);
    let c = chars_of(literal);
    crate::text::chars_equal(&l, &c)
}

fn is_literal(v: &Vec<char>, literal: &str) -> (r: bool)
    ensures
        r == (v@ == literal@),
{
    let c = chars_of(literal);
    crate::text::chars_equal(v, &c)
}

fn read_param(p: &Vec<char>) -> (r: Option<(Vec<char>, Vec<char>)>)
    ensures
        match r {
            Some((n, v)) => disposition_param(p@) == Some((n@, v@)),
            None => disposition_param(p@) is None,
        },
{
    let n = p.len();
    proof {
        assert(p@.subrange(0, n as int) =~= p@);
        lemma_first_index(p@, '=');
    }
    match find_char(p, 0, n, '=') {
        Some(eq) => {
            let name_part = copy_range(p, 0, eq);
            let value_part = copy_range(p, eq + 1, n);
            let name = lower_chars(&crate::text::trim_chars(&name_part));
            let raw = unquote_header_value(&crate::text::trim_chars(&value_part));
            Some((name, raw))
        },
        None => None,
    }
}

fn extended_value_exec(raw: &Vec<char>) -> (r: Option<String>)
    ensures
        match r {
            Some(d) => extended_value(raw@) == Some(d@),
            None => extended_value(raw@) is None,
        },
{
    proof {
        reveal_strlit("''");
    }
    match crate::text::find_from(raw, "''", 0) {
        Some(k) => {
            proof {
                lemma_first_occurrence_found(raw@, "''"@, 0, k as int);
            }
            let charset = copy_range(raw, 0, k);
            if !is_lower_literal(&charset, "utf-8") {
                return None;
            }
            let n = raw.len();
            assert(k + 2 <= n);
            let encoded = string_of_range(raw, k + 2, n);
            percent_decode_utf8(encoded.as_str())
        },
        None => {
            proof {
                lemma_first_occurrence_none(raw@, "''"@, 0);
            }
            None
        },
    }
}

pub open spec fn opt_chars(o: Option<Vec<char>>) -> Option<Seq<char>> {
    match o {
        Some(v) => Some(v@),
        None => None,
    }
}

/// The file name of a `Content-Disposition` header: a `filename*` in UTF-8
/// is preferred, then the first non-empty `filename`.
pub fn content_disposition_file_name(content_disposition: Option<&str>) -> (r: Option<String>)
    ensures
        match content_disposition {
            Some(v) => match r {
                Some(n) => spec_disposition_file_name(v@) == Some(n@),
                None => spec_disposition_file_name(v@) is None,
            },
            None => r is None,
        },
{
    let value = match content_disposition {
        Some(v) => v,
        None => return None,
    };
    let chars = chars_of(value);
    let params = split_header_parameters(&chars);
    let ghost ps = views(params@);
    let mut regular: Option<Vec<char>> = None;
    let mut i: usize = 1;
    while i < params.len()
        invariant
            content_disposition == Some(value),
            ps == views(params@),
            ps == spec_split_params(value@),
            1 <= i,
            disposition_scan(ps, 1, None) == disposition_scan(ps, i as int, opt_chars(regular)),
        decreases params@.len() - i,
    {
        assert(ps[i as int] == params@[i as int]@);
        match read_param(&params[i]) {
            None => {},
            Some((name, raw)) => {
                if is_literal(&name, "filename*") {
                    if let Some(decoded) = extended_value_exec(&raw) {
                        assert(ps.len() == params@.len());
                        assert(disposition_param(ps[i as int]) == Some((name@, raw@)));
                        assert(disposition_scan(ps, i as int, opt_chars(regular)) == Some(decoded@));
                        return Some(decoded);
                    }
                } else if is_literal(&name, "filename") && regular.is_none() {
                    regular = Some(raw);
                }
            },
        }
        i = i + 1;
    }
    match regular {
        Some(r) => if r.len() > 0 {
            Some(string_of(&r))
        } else {
            None
        },
        None => None,
    }
}

/// The chars after the last `/` of `s`.
pub open spec fn tail_segment(s: Seq<char>) -> Seq<char>
    decreases s.len(),
{
    if s.len() == 0 {
        s
    } else if s.last() == '/' {
        Seq::empty()
    } else {
        tail_segment(s.drop_last()).push(s.last())
    }
}

/// The last non-empty `/`-separated segment of `s`.
pub open spec fn last_segment(s: Seq<char>) -> Option<Seq<char>>
    decreases s.len(),
{
    if s.len() == 0 {
        None
    } else if s.last() == '/' {
        last_segment(s.drop_last())
    } else {
        Some(tail_segment(s))
    }
}

/// The file name a response URL ends in: its last non-empty path segment,
/// percent-decoded.
pub open spec fn spec_url_file_name(url: Seq<char>) -> Option<Seq<char>> {
    match crate::outside::spec_url_parts(url) {
        Some((_, _, path)) => if path.len() > 0 && path[0] == '/' {
            match last_segment(path.drop_first()) {
                Some(seg) => match spec_percent_decode(seg) {
                    Some(d) => if d.len() > 0 {
                        Some(d)
                    } else {
                        None
                    },
                    None => None,
                },
                None => None,
            }
        } else {
            None
        },
        None => None,
    }
}

fn last_segment_exec(v: &Vec<char>) -> (r: Option<Vec<char>>)
    ensures
        opt_chars(r) == last_segment(v@),
{
    let mut end = v.len();
    assert(v@.subrange(0, end as int) =~= v@);
    while end > 0 && v[end - 1] == '/'
        invariant
            end <= v@.len(),
            last_segment(v@) == last_segment(v@.subrange(0, end as int)),
        decreases end,
    {
        assert(v@.subrange(0, end as int).drop_last() =~= v@.subrange(0, end - 1));
        end = end - 1;
    }
    if end == 0 {
        return None;
    }
    assert(v@.subrange(0, end as int).last() == v@[end - 1]);
    let mut start = end;
    while start > 0 && v[start - 1] != '/'
        invariant
            start <= end <= v@.len(),
            tail_segment(v@.subrange(0, end as int)) == tail_segment(v@.subrange(0, start as int))
                + v@.subrange(start as int, end as int),
        decreases start,
    {
        let ghost pre = v@.subrange(0, start as int);
        assert(pre.drop_last() =~= v@.subrange(0, start - 1));
        assert(pre.last() == v@[start - 1]);
        assert(tail_segment(pre) == tail_segment(v@.subrange(0, start - 1)).push(v@[start - 1]));
        assert(tail_segment(v@.subrange(0, start - 1)).push(v@[start - 1]) + v@.subrange(
            start as int,
            end as int,
        ) =~= tail_segment(v@.subrange(0, start - 1)) + v@.subrange(start - 1, end as int));
        start = start - 1;
    }
    proof {
        let pre = v@.subrange(0, start as int);
        if start > 0 {
            assert(pre.last() == v@[start - 1]);
        }
        assert(tail_segment(pre) =~= Seq::<char>::empty());
        assert(Seq::<char>::empty() + v@.subrange(start as int, end as int) =~= v@.subrange(
            start as int,
            end as int,
        ));
    }
    Some(copy_range(v, start, end))
}

/// The file name that the final URL of a response ends in.
pub fn file_name_from_response_url(url: &str) -> (r: Option<String>)
    ensures
        match r {
            Some(n) => spec_url_file_name(url@) == Some(n@),
            None => spec_url_file_name(url@) is None,
        },
{
    let (_, _, path) = match crate::outside::parse_url(url) {
        Some(parts) => parts,
        None => return None,
    };
    let p = chars_of(path.as_str());
    if p.len() == 0 || p[0] != '/' {
        return None;
    }
    let rem = copy_range(&p, 1, p.len());
    assert(rem@ =~= p@.drop_first());
    let segment = match last_segment_exec(&rem) {
        Some(s) => s,
        None => return None,
    };
    let text = string_of(&segment);
    match percent_decode_utf8(text.as_str()) {
        Some(d) => if d.unicode_len() > 0 {
            Some(d)
        } else {
            None
        },
        None => None,
    }
}


/// Header names that the engine always sets itself.
pub open spec fn engine_owned_name(n: Seq<char>) -> bool {
    ||| n == "range"@
    ||| n == "if-range"@
    ||| n == "content-length"@
    ||| n == "content-range"@
    ||| n == "cookie"@
    ||| n == "accept-encoding"@
    ||| n == "connection"@
    ||| n == "host"@
    ||| n == "te"@
    ||| n == "trailer"@
    ||| n == "transfer-encoding"@
    ||| n == "upgrade"@
}

/// Every UTF-8 byte of the text is allowed in a header value.
pub open spec fn header_value_ok(s: Seq<char>) -> bool {
    forall|i: int|
        0 <= i < vstd::utf8::encode_utf8(s).len() ==> crate::outside::header_value_byte(
            #[trigger] vstd::utf8::encode_utf8(s)[i],
        )
}

/// A header of the source can be sent: its name is a valid header name that
/// the engine does not own, and its value is a valid header value.
pub open spec fn source_header_ok(h: HeaderEntry) -> bool {
    &&& crate::outside::spec_header_name(h.name@) is Some
    &&& !engine_owned_name(crate::outside::spec_header_name(h.name@)->0)
    &&& header_value_ok(h.value@)
}

/// `name=value` of one cookie.
pub open spec fn cookie_pair(c: CookieEntry) -> Seq<char> {
    c.name@ + "="@ + c.value@
}

/// The cookies joined as one `Cookie` header: `a=1; b=2`.
pub open spec fn cookie_line(cs: Seq<CookieEntry>) -> Seq<char>
    decreases cs.len(),
{
    if cs.len() == 0 {
        Seq::empty()
    } else if cs.len() == 1 {
        cookie_pair(cs[0])
    } else {
        cookie_line(cs.drop_last()) + "; "@ + cookie_pair(cs.last())
    }
}

fn cookie_header(cookies: &Vec<CookieEntry>) -> (r: String)
    ensures
        r@ == cookie_line(cookies@),
{
    let mut line = String::new();
    let mut i: usize = 0;
    while i < cookies.len()
        invariant
            i <= cookies@.len(),
            line@ == cookie_line(cookies@.subrange(0, i as int)),
        decreases cookies@.len() - i,
    {
        let ghost before = line@;
        if i > 0 {
            line.append("; ");
        }
        line.append(cookies[i].name.as_str());
        line.append("=");
        line.append(cookies[i].value.as_str());
        proof {
            let pre = cookies@.subrange(0, i + 1);
            assert(pre.drop_last() =~= cookies@.subrange(0, i as int));
            assert(pre.last() == cookies@[i as int]);
            if i == 0 {
                assert(line@ =~= cookie_pair(cookies@[0]));
            } else {
                assert(line@ =~= before + "; "@ + cookie_pair(cookies@[i as int]));
            }
        }
        i = i + 1;
    }
    assert(cookies@.subrange(0, cookies@.len() as int) =~= cookies@);
    line
}

fn owned_name(n: &String) -> (r: bool)
    ensures
        r == engine_owned_name(n@),
{
    let v = chars_of(n.as_str());
    is_literal(&v, "range") || is_literal(&v, "if-range") || is_literal(&v, "content-length")
        || is_literal(&v, "content-range") || is_literal(&v, "cookie") || is_literal(
        &v,
        "accept-encoding",
    ) || is_literal(&v, "connection") || is_literal(&v, "host") || is_literal(&v, "te")
        || is_literal(&v, "trailer") || is_literal(&v, "transfer-encoding") || is_literal(
        &v,
        "upgrade",
    )
}

/// The headers a request for the source carries: each header of the source
/// under its canonical name, then one `cookie` header joining the cookies.
/// The first header that cannot be sent gives `InvalidHeader` with its name;
/// a cookie line that is not a valid value gives `InvalidHeader("Cookie")`.
pub fn request_headers(source: &DownloadSource) -> (r: Result<Vec<HeaderEntry>, EngineError>)
    ensures
        ({
            let hs = source.headers@;
            let cs = source.cookies@;
            let all_ok = forall|i: int| 0 <= i < hs.len() ==> source_header_ok(#[trigger] hs[i]);
            match r {
                Ok(v) => {
                    &&& all_ok
                    &&& (cs.len() > 0 ==> header_value_ok(cookie_line(cs)))
                    &&& v@.len() == hs.len() + if cs.len() > 0 { 1int } else { 0int }
                    &&& forall|i: int|
                        0 <= i < hs.len() ==> #[trigger] v@[i].name@
                            == crate::outside::spec_header_name(hs[i].name@)->0 && v@[i].value@
                            == hs[i].value@
                    &&& cs.len() > 0 ==> v@.last().name@ == "cookie"@ && v@.last().value@
                        == cookie_line(cs)
                },
                Err(EngineError::InvalidHeader(name)) => {
                    ||| exists|k: int|
                        0 <= k < hs.len() && !source_header_ok(#[trigger] hs[k]) && name@
                            == hs[k].name@ && forall|j: int|
                            0 <= j < k ==> source_header_ok(#[trigger] hs[j])
                    ||| all_ok && cs.len() > 0 && !header_value_ok(cookie_line(cs)) && name@
                        == "Cookie"@
                },
                Err(_) => false,
            }
        }),
{
    let ghost hs = source.headers@;
    let mut out: Vec<HeaderEntry> = Vec::new();
    let mut i: usize = 0;
    while i < source.headers.len()
        invariant
            hs == source.headers@,
            i <= hs.len(),
            out@.len() == i,
            forall|j: int| 0 <= j < i ==> source_header_ok(#[trigger] hs[j]),
            forall|j: int|
                0 <= j < i ==> #[trigger] out@[j].name@ == crate::outside::spec_header_name(
                    hs[j].name@,
                )->0 && out@[j].value@ == hs[j].value@,
        decreases hs.len() - i,
    {
        let header = &source.headers[i];
        let name = match crate::outside::canonical_header_name(header.name.as_str()) {
            Some(n) => n,
            None => {
                return Err(EngineError::InvalidHeader(header.name.clone()));
            },
        };
        if owned_name(&name) {
            return Err(EngineError::InvalidHeader(header.name.clone()));
        }
        if !crate::outside::header_value_valid(header.value.as_str()) {
            return Err(EngineError::InvalidHeader(header.name.clone()));
        }
        out.push(HeaderEntry { name, value: header.value.clone() });
        i = i + 1;
    }
    if source.cookies.len() > 0 {
        let line = cookie_header(&source.cookies);
        if !crate::outside::header_value_valid(line.as_str()) {
            return Err(EngineError::InvalidHeader("Cookie".to_owned()));
        }
        out.push(HeaderEntry { name: "cookie".to_owned(), value: line });
    }
    Ok(out)
}

/// The `If-Range` value for a validator, or none without one; an error when
/// the validator is not a valid header value.
pub fn if_range_value(validator: &SourceValidator) -> (r: Result<Option<String>, EngineError>)
    ensures
        match validator {
            SourceValidator::Absent => r == Ok::<Option<String>, EngineError>(None),
            SourceValidator::Etag { value } | SourceValidator::LastModified { value } =>
                if header_value_ok(value@) {
                    r matches Ok(Some(v)) && v@ == value@
                } else {
                    r matches Err(EngineError::InvalidHeader(n)) && n@ == "If-Range"@
                },
        },
{
    let value = match validator {
        SourceValidator::Absent => return Ok(None),
        SourceValidator::Etag { value } | SourceValidator::LastModified { value } => value,
    };
    if !crate::outside::header_value_valid(value.as_str()) {
        return Err(EngineError::InvalidHeader("If-Range".to_owned()));
    }
    Ok(Some(value.clone()))
}

/// The `Range` value `bytes=<start>-` or `bytes=<start>-<end>`.
pub open spec fn spec_range_value(start: u64, end: Option<u64>) -> Seq<char> {
    "bytes="@ + crate::text::decimal_text(start as nat) + "-"@ + match end {
        Some(e) => crate::text::decimal_text(e as nat),
        None => Seq::empty(),
    }
}

pub fn range_value(start: u64, end: Option<u64>) -> (r: String)
    ensures
        r@ == spec_range_value(start, end),
{
    let mut r = "bytes=".to_owned();
    crate::text::push_decimal(&mut r, start);
    r.append("-");
    if let Some(e) = end {
        crate::text::push_decimal(&mut r, e);
    }
    proof {
        if end is None {
            assert(r@ =~= spec_range_value(start, end));
        }
    }
    r
}

} // verus!
