use fluxor::engine::EngineError;
use fluxor::model::{
    CookieEntry, DownloadSource, HeaderEntry, ProxySelection, ResumeSupport, SegmentState,
    SourceValidator, TransferPhase, TransferProgress, TransferSize,
};
use fluxor::segments::{SegmentRuntime, SEGMENT_COMPLETED, SEGMENT_FAILED, SEGMENT_STOPPED};
use fluxor::transfer::{
    accept_segment_chunk, carried_validator, check_confirmation, check_confirmation_body,
    check_segment_response, check_single_response, detected_file_name, finish_segment,
    finish_segment_transfer, probe_from_range_reply, probe_from_response, redirect_limit,
    segments_phase,
    ResponseHeaders,
};

fn headers(status: u16) -> ResponseHeaders {
    ResponseHeaders {
        status,
        etag: None,
        last_modified: None,
        content_range: None,
        content_length: None,
        accept_ranges: None,
    }
}

fn recorded(downloaded: u64, size: TransferSize, validator: SourceValidator) -> TransferProgress {
    TransferProgress {
        downloaded_bytes: downloaded,
        size,
        validator,
        resume: ResumeSupport::Unknown,
    }
}

#[test]
fn fresh_single_stream_response_reports_the_source() {
    let mut h = headers(200);
    h.content_length = Some("1000".to_owned());
    h.etag = Some("\"v1\"".to_owned());
    let reply = check_single_response(0, &h, &recorded(0, TransferSize::Unknown, SourceValidator::Absent)).unwrap();
    assert_eq!(reply.size, TransferSize::Known { total_bytes: 1000 });
    assert_eq!(reply.validator, SourceValidator::Etag { value: "\"v1\"".to_owned() });
    assert!(matches!(reply.resume, ResumeSupport::Unsupported { .. }));
    assert!(matches!(
        check_single_response(0, &headers(500), &recorded(0, TransferSize::Unknown, SourceValidator::Absent)),
        Err(EngineError::HttpStatus(500))
    ));
}

#[test]
fn resumed_single_stream_response_must_continue_the_same_source() {
    let previous = recorded(
        100,
        TransferSize::Known { total_bytes: 1000 },
        SourceValidator::Etag { value: "\"v1\"".to_owned() },
    );
    assert!(matches!(check_single_response(100, &headers(200), &previous), Err(EngineError::ResumeRejected)));
    let mut h = headers(206);
    h.content_range = Some("bytes 100-999/1000".to_owned());
    let reply = check_single_response(100, &h, &previous).unwrap();
    assert_eq!(reply.validator, SourceValidator::Etag { value: "\"v1\"".to_owned() });
    assert!(matches!(reply.resume, ResumeSupport::Supported));
    h.etag = Some("\"v2\"".to_owned());
    assert!(matches!(check_single_response(100, &h, &previous), Err(EngineError::SourceChanged)));
    let mut moved = headers(206);
    moved.content_range = Some("bytes 50-999/1000".to_owned());
    assert!(matches!(check_single_response(100, &moved, &previous), Err(EngineError::InvalidContentRange)));
}

#[test]
fn probes_read_size_validator_and_ranges() {
    let mut h = headers(200);
    h.content_length = Some("4096".to_owned());
    h.accept_ranges = Some("Bytes".to_owned());
    h.last_modified = Some("Tue, 11 Aug 2026 00:00:00 GMT".to_owned());
    let probe = probe_from_response(&h).unwrap();
    assert_eq!(probe.size, TransferSize::Known { total_bytes: 4096 });
    assert!(probe.accepts_ranges);
    assert!(matches!(probe.validator, SourceValidator::LastModified { .. }));
    assert!(probe_from_response(&headers(404)).is_none());
}

#[test]
fn a_range_reply_stands_in_for_a_refused_head() {
    let mut h = headers(206);
    h.content_range = Some("bytes 0-0/5000".to_owned());
    h.etag = Some("\"v1\"".to_owned());
    let probe = probe_from_range_reply(&h).unwrap();
    assert_eq!(probe.size, TransferSize::Known { total_bytes: 5000 });
    assert!(probe.accepts_ranges);
    assert_eq!(probe.validator, SourceValidator::Etag { value: "\"v1\"".to_owned() });
    assert!(probe_from_range_reply(&headers(200)).is_none());
    h.content_range = Some("bytes 0-9/5000".to_owned());
    assert!(probe_from_range_reply(&h).is_none());
    h.content_range = Some("bytes 0-0/*".to_owned());
    assert!(probe_from_range_reply(&h).is_none());
}

#[test]
fn range_confirmation_checks_the_first_byte() {
    let mut h = headers(206);
    h.content_range = Some("bytes 0-0/5000".to_owned());
    h.etag = Some("\"v1\"".to_owned());
    let v = check_confirmation(&h, 5000, &SourceValidator::Absent).unwrap();
    assert_eq!(v, SourceValidator::Etag { value: "\"v1\"".to_owned() });
    assert!(matches!(check_confirmation(&headers(200), 5000, &SourceValidator::Absent), Err(EngineError::ResumeRejected)));
    assert!(matches!(
        check_confirmation(&h, 6000, &SourceValidator::Absent),
        Err(EngineError::InvalidContentRange)
    ));
    assert!(check_confirmation_body(Some(1), false).is_ok());
    assert!(matches!(check_confirmation_body(Some(2), false), Err(EngineError::InvalidContentRange)));
    assert!(matches!(check_confirmation_body(Some(1), true), Err(EngineError::InvalidContentRange)));
    assert!(matches!(check_confirmation_body(None, false), Err(EngineError::InvalidContentRange)));
}

#[test]
fn segments_accept_only_their_range() {
    let mut h = headers(206);
    h.content_range = Some("bytes 100-199/1000".to_owned());
    let v = SourceValidator::Etag { value: "\"v1\"".to_owned() };
    assert!(check_segment_response(&h, 100, 199, 1000, &v).is_ok());
    assert!(matches!(check_segment_response(&h, 100, 299, 1000, &v), Err(EngineError::InvalidContentRange)));
    h.etag = Some("\"v2\"".to_owned());
    assert!(matches!(check_segment_response(&h, 100, 199, 1000, &v), Err(EngineError::SourceChanged)));
    assert!(matches!(check_segment_response(&headers(200), 100, 199, 1000, &v), Err(EngineError::ResumeRejected)));
    assert_eq!(accept_segment_chunk(90, 10, 100).unwrap(), 100);
    assert!(matches!(accept_segment_chunk(90, 11, 100), Err(EngineError::InvalidContentRange)));
    assert!(finish_segment_transfer(100, 100).is_ok());
    assert!(matches!(finish_segment_transfer(99, 100), Err(EngineError::Request)));
}

#[test]
fn segment_outcomes_set_their_state() {
    let mut done = SegmentRuntime::new(0, 0, 9, 0);
    finish_segment(&mut done, &Ok(()));
    assert_eq!(done.state, SEGMENT_COMPLETED);
    let mut stopped = SegmentRuntime::new(0, 0, 9, 0);
    finish_segment(&mut stopped, &Err(EngineError::Cancelled));
    assert_eq!(stopped.state, SEGMENT_STOPPED);
    let mut failed = SegmentRuntime::new(0, 0, 9, 0);
    finish_segment(&mut failed, &Err(EngineError::Request));
    assert_eq!(failed.state, SEGMENT_FAILED);
    assert_eq!(failed.error.as_deref(), Some("No se pudo completar la comunicación con el servidor"));
    let segments = vec![failed.snapshot(0), done.snapshot(0)];
    assert_eq!(segments_phase(&segments), TransferPhase::Connecting);
    let mut running = SegmentRuntime::new(1, 10, 19, 0);
    running.set_state(fluxor::segments::SEGMENT_DOWNLOADING);
    let with_running = vec![done.snapshot(0), running.snapshot(5)];
    assert_eq!(with_running[1].state, SegmentState::Downloading);
    assert_eq!(segments_phase(&with_running), TransferPhase::Transferring);
}

#[test]
fn stored_validator_carries_over_to_a_silent_probe() {
    let stored = SourceValidator::Etag { value: "\"v1\"".to_owned() };
    assert_eq!(carried_validator(true, SourceValidator::Absent, &stored), stored);
    assert_eq!(carried_validator(false, SourceValidator::Absent, &stored), SourceValidator::Absent);
    let fresh = SourceValidator::Etag { value: "\"v2\"".to_owned() };
    assert_eq!(carried_validator(true, fresh.clone(), &stored), fresh);
}

#[test]
fn sessions_are_never_redirected() {
    let mut source = DownloadSource {
        url: "https://example.com/a".to_owned(),
        headers: Vec::new(),
        cookies: Vec::new(),
        proxy: ProxySelection::Direct,
        force_single_stream: false,
    };
    assert_eq!(redirect_limit(&source), 10);
    source.cookies.push(CookieEntry { name: "s".to_owned(), value: "1".to_owned() });
    assert_eq!(redirect_limit(&source), 0);
    source.cookies.clear();
    source.headers.push(HeaderEntry { name: "Referer".to_owned(), value: "x".to_owned() });
    source.headers.push(HeaderEntry { name: "user-AGENT".to_owned(), value: "y".to_owned() });
    assert_eq!(redirect_limit(&source), 10);
    source.headers.push(HeaderEntry { name: "X-Token".to_owned(), value: "z".to_owned() });
    assert_eq!(redirect_limit(&source), 0);
}

#[test]
fn detected_names_prefer_the_disposition_header() {
    assert_eq!(
        detected_file_name(200, Some("attachment; filename=\"a b.pdf\""), "https://x/y.bin").as_deref(),
        Some("a b.pdf")
    );
    assert_eq!(detected_file_name(200, None, "https://x/files/y%20z.bin").as_deref(), Some("y z.bin"));
    assert_eq!(detected_file_name(404, None, "https://x/files/y.bin"), None);
}
