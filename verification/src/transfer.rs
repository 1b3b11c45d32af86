//! The decisions a transfer makes on what a server answers: whether a
//! response to a whole or resumed download may be written, what a probe
//! learns of the source, whether a segment's response and its bytes are
//! those that were asked for, and the state a segment ends in.
use vstd::prelude::*;
use crate::engine::{same_validator, EngineError, ProbeResult};
use crate::http::{
    accepts_ranges, content_disposition_file_name, content_range_total, content_range_total_spec,
    confirmed_segment_validator, ensure_same_size, ensure_same_source, file_name_from_response_url,
    is_weak_etag, opt_view, resume_support, response_size, response_validator,
    spec_content_range_valid, spec_disposition_file_name, spec_response_size,
    spec_response_validator, spec_url_file_name, validate_content_range,
    validate_segment_response_validator,
};
use crate::model::{
    DownloadSource, ResumeSupport, SegmentProgress, SegmentState, SourceValidator, TransferPhase,
    TransferProgress, TransferSize,
};
use crate::segments::{SegmentRuntime, SEGMENT_COMPLETED, SEGMENT_FAILED, SEGMENT_STOPPED};
use crate::text::{lower_seq, parse_u64, parse_u64_spec};

verus! {

/// How many redirects a client without credentials follows.
pub const MAX_REDIRECTS: usize = 10;

/// What the engine reads of a server's response: its status and the headers
/// that tell about the source, each as text when present.
#[derive(Clone, Debug)]
pub struct ResponseHeaders {
    pub status: u16,
    pub etag: Option<String>,
    pub last_modified: Option<String>,
    pub content_range: Option<String>,
    pub content_length: Option<String>,
    pub accept_ranges: Option<String>,
}

pub open spec fn opt_text(o: Option<String>) -> Option<Seq<char>> {
    match o {
        Some(s) => Some(s@),
        None => None,
    }
}

fn opt_str(o: &Option<String>) -> (r: Option<&str>)
    ensures
        opt_view(r) == opt_text(*o),
{
    match o {
        Some(s) => Some(s.as_str()),
        None => None,
    }
}

/// A 2xx status.
pub open spec fn is_success(status: u16) -> bool {
    200 <= status < 300
}

/// Whether the headers name a version of the source: a strong `ETag` or a
/// `Last-Modified`.
pub open spec fn has_response_validator(etag: Option<Seq<char>>, last_modified: Option<Seq<char>>) -> bool {
    (etag matches Some(e) && !is_weak_etag(e)) || last_modified is Some
}

/// The total size a resumed response must announce: the recorded one, or,
/// when none was recorded, the one the response itself gives.
pub open spec fn expected_total(recorded: TransferSize, total: u64) -> u64 {
    match recorded {
        TransferSize::Known { total_bytes } => total_bytes,
        TransferSize::Unknown => total,
    }
}

/// The last offset of a source of `total` bytes, or zero for an empty one.
pub open spec fn last_offset(total: u64) -> u64 {
    if total > 0 {
        (total - 1) as u64
    } else {
        0
    }
}

/// Why a response to a single-stream request cannot be written, checked in
/// this order: a resume answered without `206`; a status that is no
/// success; a resume whose `Content-Range` does not start at the resume
/// point, end at the last byte and announce the expected total; a resume
/// whose source now has another version; a resume whose size changed.
pub open spec fn single_reply_error(resume_at: u64, h: ResponseHeaders, recorded: TransferProgress) -> Option<
    EngineError,
> {
    let cr = opt_text(h.content_range);
    let cl = opt_text(h.content_length);
    let etag = opt_text(h.etag);
    let lm = opt_text(h.last_modified);
    if resume_at > 0 && h.status != 206 {
        Some(EngineError::ResumeRejected)
    } else if !is_success(h.status) {
        Some(EngineError::HttpStatus(h.status))
    } else if resume_at > 0 && match cr {
        Some(v) => match content_range_total_spec(v) {
            Some(t) => !spec_content_range_valid(
                cr,
                cl,
                resume_at,
                Some(last_offset(t)),
                Some(expected_total(recorded.size, t)),
            ),
            None => true,
        },
        None => true,
    } {
        Some(EngineError::InvalidContentRange)
    } else if resume_at > 0 && !(recorded.validator is Absent) && has_response_validator(etag, lm)
        && !spec_response_validator(etag, lm, recorded.validator) {
        Some(EngineError::SourceChanged)
    } else if resume_at > 0 && recorded.size is Known && spec_response_size(cl, cr, resume_at)
        != recorded.size {
        Some(EngineError::SourceChanged)
    } else {
        None
    }
}

/// What a single-stream response tells of the source.
#[derive(Clone, Debug)]
pub struct SingleReply {
    pub size: TransferSize,
    pub validator: SourceValidator,
    pub resume: ResumeSupport,
}

proof fn lemma_validator_matches(
    etag: Option<Seq<char>>,
    lm: Option<Seq<char>>,
    current: SourceValidator,
    previous: SourceValidator,
)
    requires
        spec_response_validator(etag, lm, current),
    ensures
        (current is Absent) <==> !has_response_validator(etag, lm),
        !(current is Absent) && !(previous is Absent) ==> (same_validator(previous, current)
            <==> spec_response_validator(etag, lm, previous)),
{
}

/// Checks the response to a single-stream request that starts at
/// `resume_at`, against what was recorded of the transfer, and reads from
/// it the source's size, version and whether it resumes. A resumed response
/// without a validator keeps the recorded one.
pub fn check_single_response(resume_at: u64, headers: &ResponseHeaders, recorded: &TransferProgress) -> (r:
    Result<SingleReply, EngineError>)
    ensures
        match single_reply_error(resume_at, *headers, *recorded) {
            Some(e) => r == Err::<SingleReply, EngineError>(e),
            None => r matches Ok(reply) && {
                let etag = opt_text(headers.etag);
                let lm = opt_text(headers.last_modified);
                &&& reply.size == spec_response_size(
                    opt_text(headers.content_length),
                    opt_text(headers.content_range),
                    resume_at,
                )
                &&& if resume_at > 0 && !has_response_validator(etag, lm) {
                    reply.validator == recorded.validator
                } else {
                    spec_response_validator(etag, lm, reply.validator)
                }
                &&& if headers.status == 206 || (opt_text(headers.accept_ranges) matches Some(v)
                    && lower_seq(v) == "bytes"@) {
                    reply.resume is Supported
                } else {
                    reply.resume matches ResumeSupport::Unsupported { reason } && reason@
                        == "El servidor no acepta solicitudes por rango"@
                }
            },
        },
{
    let cr = opt_str(&headers.content_range);
    let cl = opt_str(&headers.content_length);
    if resume_at > 0 && headers.status != 206 {
        return Err(EngineError::ResumeRejected);
    }
    if !(200 <= headers.status && headers.status < 300) {
        return Err(EngineError::HttpStatus(headers.status));
    }
    if resume_at > 0 {
        let total_bytes = match content_range_total(cr) {
            Some(t) => t,
            None => return Err(EngineError::InvalidContentRange),
        };
        let expected = match recorded.size {
            TransferSize::Known { total_bytes } => total_bytes,
            TransferSize::Unknown => total_bytes,
        };
        validate_content_range(cr, cl, resume_at, Some(total_bytes.saturating_sub(1)), Some(expected))?;
    }
    let current = response_validator(opt_str(&headers.etag), opt_str(&headers.last_modified));
    proof {
        lemma_validator_matches(
            opt_text(headers.etag),
            opt_text(headers.last_modified),
            current,
            recorded.validator,
        );
    }
    ensure_same_source(resume_at, &recorded.validator, &current)?;
    let validator = if resume_at > 0 && matches!(current, SourceValidator::Absent) {
        crate::engine::copy_validator(&recorded.validator)
    } else {
        current
    };
    let resume = resume_support(headers.status == 206 || accepts_ranges(opt_str(&headers.accept_ranges)));
    let size = response_size(cl, cr, resume_at);
    ensure_same_size(resume_at, &recorded.size, &size)?;
    Ok(SingleReply { size, validator, resume })
}

/// What a `HEAD` response tells of the source, or nothing when its status is
/// no success: the size from `Content-Length` when it is a number, the
/// version, and whether byte ranges are accepted.
pub fn probe_from_response(headers: &ResponseHeaders) -> (r: Option<ProbeResult>)
    ensures
        !is_success(headers.status) ==> r is None,
        is_success(headers.status) ==> (r matches Some(p) && {
            &&& p.size == match opt_text(headers.content_length) {
                Some(l) => match parse_u64_spec(l) {
                    Some(n) => TransferSize::Known { total_bytes: n },
                    None => TransferSize::Unknown,
                },
                None => TransferSize::Unknown,
            }
            &&& spec_response_validator(
                opt_text(headers.etag),
                opt_text(headers.last_modified),
                p.validator,
            )
            &&& p.accepts_ranges == (opt_text(headers.accept_ranges) matches Some(v) && lower_seq(v)
                == "bytes"@)
        }),
{
    if !(200 <= headers.status && headers.status < 300) {
        return None;
    }
    let size = match &headers.content_length {
        Some(l) => match parse_u64(&crate::text::chars_of(l.as_str())) {
            Some(total_bytes) => TransferSize::Known { total_bytes },
            None => TransferSize::Unknown,
        },
        None => TransferSize::Unknown,
    };
    Some(
        ProbeResult {
            size,
            validator: response_validator(opt_str(&headers.etag), opt_str(&headers.last_modified)),
            accepts_ranges: accepts_ranges(opt_str(&headers.accept_ranges)),
        },
    )
}

/// What the answer to a one-byte range request tells of a source whose
/// `HEAD` failed: a `206` that holds exactly the first byte of a known
/// total shows that ranges are served, with that size and version; any
/// other answer tells nothing, and the transfer takes one stream.
pub fn probe_from_range_reply(headers: &ResponseHeaders) -> (r: Option<ProbeResult>)
    ensures
        r is Some <==> headers.status == 206 && (opt_text(headers.content_range) matches Some(v)
            && content_range_total_spec(v) matches Some(n) && spec_content_range_valid(
            opt_text(headers.content_range),
            opt_text(headers.content_length),
            0,
            Some(0),
            Some(n),
        )),
        r matches Some(p) ==> p.accepts_ranges && (opt_text(headers.content_range) matches Some(v)
            && p.size == TransferSize::Known { total_bytes: content_range_total_spec(v)->0 })
            && spec_response_validator(
            opt_text(headers.etag),
            opt_text(headers.last_modified),
            p.validator,
        ),
{
    if headers.status != 206 {
        return None;
    }
    let total = match content_range_total(opt_str(&headers.content_range)) {
        Some(n) => n,
        None => return None,
    };
    match validate_content_range(
        opt_str(&headers.content_range),
        opt_str(&headers.content_length),
        0,
        Some(0),
        Some(total),
    ) {
        Ok(()) => {},
        Err(_) => return None,
    }
    Some(
        ProbeResult {
            size: TransferSize::Known { total_bytes: total },
            validator: response_validator(opt_str(&headers.etag), opt_str(&headers.last_modified)),
            accepts_ranges: true,
        },
    )
}

/// Checks the answer to the one-byte request that confirms a source serves
/// ranges before a segmented transfer: `206`, exactly the first byte of the
/// probed size, and a version that does not contradict the probe's.
/// Returns the version the transfer goes on with.
pub fn check_confirmation(headers: &ResponseHeaders, total_bytes: u64, probed: &SourceValidator) -> (r:
    Result<SourceValidator, EngineError>)
    ensures
        headers.status != 206 ==> r == Err::<SourceValidator, EngineError>(
            EngineError::ResumeRejected,
        ),
        headers.status == 206 && !spec_content_range_valid(
            opt_text(headers.content_range),
            opt_text(headers.content_length),
            0,
            Some(0),
            Some(total_bytes),
        ) ==> r == Err::<SourceValidator, EngineError>(EngineError::InvalidContentRange),
        headers.status == 206 && spec_content_range_valid(
            opt_text(headers.content_range),
            opt_text(headers.content_length),
            0,
            Some(0),
            Some(total_bytes),
        ) ==> {
            let etag = opt_text(headers.etag);
            let lm = opt_text(headers.last_modified);
            if !has_response_validator(etag, lm) {
                r == Ok::<SourceValidator, EngineError>(*probed)
            } else if probed is Absent || spec_response_validator(etag, lm, *probed) {
                r matches Ok(v) && spec_response_validator(etag, lm, v)
            } else {
                r == Err::<SourceValidator, EngineError>(EngineError::SourceChanged)
            }
        },
{
    if headers.status != 206 {
        return Err(EngineError::ResumeRejected);
    }
    validate_content_range(
        opt_str(&headers.content_range),
        opt_str(&headers.content_length),
        0,
        Some(0),
        Some(total_bytes),
    )?;
    let observed = response_validator(opt_str(&headers.etag), opt_str(&headers.last_modified));
    proof {
        lemma_validator_matches(
            opt_text(headers.etag),
            opt_text(headers.last_modified),
            observed,
            *probed,
        );
    }
    confirmed_segment_validator(probed, observed)
}

/// The body of the confirmation must be exactly one byte: a first chunk of
/// one byte, then nothing more.
pub fn check_confirmation_body(first_chunk_len: Option<usize>, more: bool) -> (r: Result<(), EngineError>)
    ensures
        r is Ok <==> (first_chunk_len == Some(1usize) && !more),
        r is Err ==> r == Err::<(), EngineError>(EngineError::InvalidContentRange),
{
    match first_chunk_len {
        Some(1) => {},
        _ => return Err(EngineError::InvalidContentRange),
    }
    if more {
        return Err(EngineError::InvalidContentRange);
    }
    Ok(())
}

/// Checks the response to a segment's request for bytes `start..=end` of a
/// source of `total` bytes: `206`, exactly that range, and the version the
/// transfer started with when the response names one.
pub fn check_segment_response(
    headers: &ResponseHeaders,
    start: u64,
    end: u64,
    total: u64,
    validator: &SourceValidator,
) -> (r: Result<(), EngineError>)
    ensures
        ({
            let etag = opt_text(headers.etag);
            let lm = opt_text(headers.last_modified);
            if headers.status != 206 {
                r == Err::<(), EngineError>(EngineError::ResumeRejected)
            } else if !spec_content_range_valid(
                opt_text(headers.content_range),
                opt_text(headers.content_length),
                start,
                Some(end),
                Some(total),
            ) {
                r == Err::<(), EngineError>(EngineError::InvalidContentRange)
            } else if has_response_validator(etag, lm) && !spec_response_validator(
                etag,
                lm,
                *validator,
            ) {
                r == Err::<(), EngineError>(EngineError::SourceChanged)
            } else {
                r is Ok
            }
        }),
{
    if headers.status != 206 {
        return Err(EngineError::ResumeRejected);
    }
    validate_content_range(
        opt_str(&headers.content_range),
        opt_str(&headers.content_length),
        start,
        Some(end),
        Some(total),
    )?;
    let observed = response_validator(opt_str(&headers.etag), opt_str(&headers.last_modified));
    proof {
        lemma_validator_matches(
            opt_text(headers.etag),
            opt_text(headers.last_modified),
            observed,
            *validator,
        );
        if !(observed is Absent) && *validator is Absent {
            assert(!spec_response_validator(
                opt_text(headers.etag),
                opt_text(headers.last_modified),
                *validator,
            ));
        }
    }
    validate_segment_response_validator(validator, &observed)
}

/// Counts a chunk a segment received: a segment may not receive more than
/// the `expected` bytes of its range. Returns the new count.
pub fn accept_segment_chunk(received: u64, chunk: u64, expected: u64) -> (r: Result<u64, EngineError>)
    requires
        received <= expected,
    ensures
        received + chunk > expected ==> r == Err::<u64, EngineError>(
            EngineError::InvalidContentRange,
        ),
        received + chunk <= expected ==> r == Ok::<u64, EngineError>((received + chunk) as u64),
{
    if chunk > expected - received {
        return Err(EngineError::InvalidContentRange);
    }
    Ok(received + chunk)
}

/// A segment's response must end with exactly its range.
pub fn finish_segment_transfer(received: u64, expected: u64) -> (r: Result<(), EngineError>)
    ensures
        r is Ok <==> received == expected,
        r is Err ==> r == Err::<(), EngineError>(EngineError::Request),
{
    if received != expected {
        return Err(EngineError::Request);
    }
    Ok(())
}

/// The state a segment ends in: complete when its transfer succeeded,
/// stopped when it was cancelled, failed with the error's text otherwise.
pub fn finish_segment(runtime: &mut SegmentRuntime, outcome: &Result<(), EngineError>)
    ensures
        final(runtime).index == old(runtime).index,
        final(runtime).start_byte == old(runtime).start_byte,
        final(runtime).end_byte == old(runtime).end_byte,
        final(runtime).downloaded_bytes == old(runtime).downloaded_bytes,
        match outcome {
            Ok(()) => final(runtime).state == SEGMENT_COMPLETED
                && final(runtime).error == old(runtime).error,
            Err(EngineError::Cancelled) => final(runtime).state == SEGMENT_STOPPED
                && final(runtime).error == old(runtime).error,
            Err(e) => final(runtime).state == SEGMENT_FAILED && (final(runtime).error matches Some(m)
                && m@ == crate::engine::spec_engine_message(*e)),
        },
{
    match outcome {
        Ok(()) => runtime.set_state(SEGMENT_COMPLETED),
        Err(EngineError::Cancelled) => runtime.set_state(SEGMENT_STOPPED),
        Err(e) => runtime.mark_failed(e.message()),
    }
}

/// The phase a segmented transfer shows while it runs: transferring once a
/// segment is downloading, connecting before.
pub fn segments_phase(segments: &Vec<SegmentProgress>) -> (r: TransferPhase)
    ensures
        r == if exists|i: int|
            0 <= i < segments@.len() && (#[trigger] segments@[i]).state == SegmentState::Downloading {
            TransferPhase::Transferring
        } else {
            TransferPhase::Connecting
        },
{
    let mut i: usize = 0;
    while i < segments.len()
        invariant
            i <= segments@.len(),
            forall|j: int| 0 <= j < i ==> (#[trigger] segments@[j]).state != SegmentState::Downloading,
        decreases segments@.len() - i,
    {
        if segments[i].state == SegmentState::Downloading {
            return TransferPhase::Transferring;
        }
        i = i + 1;
    }
    TransferPhase::Connecting
}

/// The version a resumed segmented transfer checks the source against: the
/// probe's, or the one stored with the partials when the probe names none.
pub fn carried_validator(has_segment_partials: bool, probed: SourceValidator, previous: &SourceValidator) -> (r:
    SourceValidator)
    ensures
        r == if has_segment_partials && probed is Absent && !(*previous is Absent) {
            *previous
        } else {
            probed
        },
{
    if has_segment_partials && matches!(probed, SourceValidator::Absent) && !matches!(
        previous,
        SourceValidator::Absent,
    ) {
        crate::engine::copy_validator(previous)
    } else {
        probed
    }
}

/// A header of the browser's request that may follow a redirect to
/// another host: `Referer` or `User-Agent`, in any case.
pub open spec fn redirect_safe_header(name: Seq<char>) -> bool {
    lower_seq(name) == "referer"@ || lower_seq(name) == "user-agent"@
}

/// How many redirects a client follows: none when the request carries
/// cookies, or headers other than `Referer` and `User-Agent`, so that the
/// user's credentials never reach another host; else up to `MAX_REDIRECTS`.
pub fn redirect_limit(source: &DownloadSource) -> (r: usize)
    ensures
        r == if source.cookies@.len() > 0 || exists|i: int|
            0 <= i < source.headers@.len() && !redirect_safe_header(
                (#[trigger] source.headers@[i]).name@,
            ) {
            0
        } else {
            MAX_REDIRECTS
        },
{
    if source.cookies.len() > 0 {
        return 0;
    }
    let mut i: usize = 0;
    while i < source.headers.len()
        invariant
            i <= source.headers@.len(),
            forall|j: int| 0 <= j < i ==> redirect_safe_header((#[trigger] source.headers@[j]).name@),
        decreases source.headers@.len() - i,
    {
        if !is_redirect_safe_header(source.headers[i].name.as_str()) {
            return 0;
        }
        i = i + 1;
    }
    MAX_REDIRECTS
}

fn is_redirect_safe_header(name: &str) -> (r: bool)
    ensures
        r == redirect_safe_header(name@),
{
    let l = crate::text::lower_chars(&crate::text::chars_of(name));
    let referer = crate::text::chars_of("referer");
    let agent = crate::text::chars_of("user-agent");
    crate::text::chars_equal(&l, &referer) || crate::text::chars_equal(&l, &agent)
}

/// The file name a server suggests for a download: from a successful
/// response's `Content-Disposition`, else from the last segment of the URL
/// the response came from.
pub fn detected_file_name(status: u16, content_disposition: Option<&str>, final_url: &str) -> (r:
    Option<String>)
    ensures
        !is_success(status) ==> r is None,
        is_success(status) ==> match content_disposition {
            Some(v) if spec_disposition_file_name(v@) is Some => (r matches Some(n) && Some(n@)
                == spec_disposition_file_name(v@)),
            _ => match r {
                Some(n) => spec_url_file_name(final_url@) == Some(n@),
                None => spec_url_file_name(final_url@) is None,
            },
        },
{
    if !(200 <= status && status < 300) {
        return None;
    }
    match content_disposition_file_name(content_disposition) {
        Some(n) => Some(n),
        None => file_name_from_response_url(final_url),
    }
}


/// A resumed single-stream response is written only when it continues the
/// partial exactly: `206`, a `Content-Range` that starts at the resume point
/// and ends at the last byte of the total it announces, that total equal to
/// the recorded size when one was recorded, and the recorded version when
/// both the record and the response name one.
pub proof fn law_resumed_response_continues_exactly(
    resume_at: u64,
    h: ResponseHeaders,
    recorded: TransferProgress,
)
    requires
        resume_at > 0,
        single_reply_error(resume_at, h, recorded) is None,
    ensures
        h.status == 206,
        opt_text(h.content_range) matches Some(v) && content_range_total_spec(v) matches Some(t)
            && spec_content_range_valid(
            opt_text(h.content_range),
            opt_text(h.content_length),
            resume_at,
            Some(last_offset(t)),
            Some(expected_total(recorded.size, t)),
        ),
        !(recorded.validator is Absent) && has_response_validator(
            opt_text(h.etag),
            opt_text(h.last_modified),
        ) ==> spec_response_validator(opt_text(h.etag), opt_text(h.last_modified), recorded.validator),
        recorded.size is Known ==> spec_response_size(
            opt_text(h.content_length),
            opt_text(h.content_range),
            resume_at,
        ) == recorded.size,
{
}

} // verus!
