use fluxor::engine::{
    ensure_segment_partials_compatible, segmented_failure_allows_single_stream,
    single_stream_reason, supports_segmented_transfer, EngineError, ProbeResult,
};
use fluxor::http::{
    confirmed_segment_validator, content_disposition_file_name, content_range_total,
    ensure_same_source, file_name_from_response_url, response_validator, resume_support,
    validate_content_range, validate_segment_response_validator,
};
use fluxor::model::{ResumeSupport, SegmentState, SourceValidator, TransferSize};
use fluxor::rate::transfer_duration;
use fluxor::segments::{
    segments_downloaded, split_ranges, SegmentRuntime, MIN_SEGMENT_SIZE, SEGMENT_COMPLETED,
    SEGMENT_DOWNLOADING,
};
use fluxor::storage::verify_complete;

#[test]
fn split_ranges_covers_the_file_without_gaps() {
    let total = MIN_SEGMENT_SIZE * 5 + 17;
    let ranges = split_ranges(total, 4);

    assert_eq!(ranges.first().map(|range| range.0), Some(0));
    assert_eq!(ranges.last().map(|range| range.1), Some(total - 1));
    for pair in ranges.windows(2) {
        assert_eq!(pair[0].1 + 1, pair[1].0);
    }
    assert!(ranges.len() <= 4);
}

#[test]
fn segment_runtime_reports_only_its_own_range_and_progress() {
    let mut runtime = SegmentRuntime::new(2, 200, 299, 20);
    runtime.set_state(SEGMENT_DOWNLOADING);
    runtime.mark_activity(30, 1234);

    let segment = runtime.snapshot(4_096);

    assert_eq!(segment.index, 2);
    assert_eq!((segment.start_byte, segment.end_byte), (200, Some(299)));
    assert_eq!(segment.downloaded_bytes, 50);
    assert_eq!(segment.speed_bytes, 4_096);
    assert!(matches!(segment.state, SegmentState::Downloading));
    assert_eq!(segment.last_activity_at, Some(1234));
    assert_eq!(segments_downloaded(&vec![segment]), 50);
}

#[test]
fn completed_segments_do_not_report_stale_speed() {
    let mut runtime = SegmentRuntime::new(0, 0, 99, 50);
    runtime.set_state(SEGMENT_COMPLETED);

    assert_eq!(runtime.snapshot(4_096).speed_bytes, 0);
}

#[test]
fn single_stream_reason_explains_why_segments_are_not_used() {
    assert!(single_stream_reason(None, 8).contains("confirmar"));
    let small = ProbeResult {
        size: TransferSize::Known {
            total_bytes: MIN_SEGMENT_SIZE - 1,
        },
        validator: SourceValidator::Etag {
            value: "\"safe\"".to_owned(),
        },
        accepts_ranges: true,
    };
    assert!(single_stream_reason(Some(&small), 8).contains("pequeño"));
}

#[test]
fn range_server_without_validator_can_use_segments() {
    let mediafire_like = ProbeResult {
        size: TransferSize::Known {
            total_bytes: 262_430_628,
        },
        validator: SourceValidator::Absent,
        accepts_ranges: true,
    };

    assert!(supports_segmented_transfer(&mediafire_like, 8));
    assert!(!supports_segmented_transfer(&mediafire_like, 1));
}

#[test]
fn validatorless_segments_require_the_same_total_size_to_resume() {
    let previous = TransferSize::Known { total_bytes: 100 };
    let same = TransferSize::Known { total_bytes: 100 };
    let changed = TransferSize::Known { total_bytes: 120 };

    assert!(ensure_segment_partials_compatible(
        &previous,
        &same,
        &SourceValidator::Absent,
        &SourceValidator::Absent,
    )
    .is_ok());
    assert!(matches!(
        ensure_segment_partials_compatible(
            &previous,
            &changed,
            &SourceValidator::Absent,
            &SourceValidator::Absent,
        ),
        Err(EngineError::SourceChanged)
    ));
    assert!(matches!(
        ensure_segment_partials_compatible(
            &previous,
            &same,
            &SourceValidator::Absent,
            &SourceValidator::Etag {
                value: "\"new\"".to_owned(),
            },
        ),
        Err(EngineError::SourceChanged)
    ));
}

#[test]
fn range_confirmation_establishes_and_workers_enforce_a_validator() {
    let first = SourceValidator::Etag {
        value: "\"v1\"".to_owned(),
    };
    let changed = SourceValidator::Etag {
        value: "\"v2\"".to_owned(),
    };

    let established = confirmed_segment_validator(&SourceValidator::Absent, first.clone())
        .expect("range confirmation should establish the validator");
    assert_eq!(established, first);
    assert!(matches!(
        confirmed_segment_validator(&established, changed),
        Err(EngineError::SourceChanged)
    ));
    assert!(validate_segment_response_validator(&SourceValidator::Absent, &established).is_err());
}

#[test]
fn segment_partials_without_metadata_are_rejected() {
    assert!(matches!(
        fluxor::segments::require_segment_metadata(true, None),
        Err(EngineError::SourceChanged)
    ));
    assert!(fluxor::segments::require_segment_metadata(false, None).is_ok());
}

#[test]
fn content_range_must_match_both_requested_bounds() {
    let header = Some("bytes 100-199/1000");

    assert!(validate_content_range(header, None, 100, Some(199), Some(1000)).is_ok());
    assert!(matches!(
        validate_content_range(header, None, 100, Some(299), Some(1000)),
        Err(EngineError::InvalidContentRange)
    ));
    assert!(matches!(
        validate_content_range(header, None, 100, Some(199), Some(2000)),
        Err(EngineError::InvalidContentRange)
    ));
    assert_eq!(content_range_total(header), Some(1000));
}

#[test]
fn malformed_content_range_is_rejected() {
    assert!(matches!(
        validate_content_range(Some("items 0-10/20"), None, 0, None, None),
        Err(EngineError::InvalidContentRange)
    ));
}

#[test]
fn partial_without_a_durable_validator_can_resume_by_exact_range() {
    assert!(ensure_same_source(100, &SourceValidator::Absent, &SourceValidator::Absent).is_ok());
}

#[test]
fn conflicting_durable_validators_are_rejected() {
    let previous = SourceValidator::Etag {
        value: "\"old\"".to_owned(),
    };
    let current = SourceValidator::Etag {
        value: "\"new\"".to_owned(),
    };

    assert!(matches!(
        ensure_same_source(100, &previous, &current),
        Err(EngineError::SourceChanged)
    ));
}

#[test]
fn content_disposition_prefers_utf8_file_name() {
    assert_eq!(
        content_disposition_file_name(Some(
            "attachment; filename=report.pdf; filename*=UTF-8''informe%20final.pdf"
        ))
        .as_deref(),
        Some("informe final.pdf")
    );
}

#[test]
fn content_disposition_handles_quoted_semicolons() {
    assert_eq!(
        content_disposition_file_name(Some("attachment; filename=\"report; final.pdf\""))
            .as_deref(),
        Some("report; final.pdf")
    );
}

#[test]
fn final_response_url_is_percent_decoded() {
    assert_eq!(
        file_name_from_response_url("https://cdn.example.com/files/video%20final.mp4").as_deref(),
        Some("video final.mp4")
    );
}

#[test]
fn remote_segment_failures_can_degrade_to_one_stream() {
    assert!(segmented_failure_allows_single_stream(
        &EngineError::ResumeRejected
    ));
    assert!(segmented_failure_allows_single_stream(&EngineError::Request));
    assert!(segmented_failure_allows_single_stream(
        &EngineError::SourceChanged
    ));
    assert!(!segmented_failure_allows_single_stream(
        &EngineError::DestinationExists
    ));
    assert!(!segmented_failure_allows_single_stream(
        &EngineError::SegmentTask
    ));
}

#[test]
fn rejected_resume_requires_restart() {
    assert!(!EngineError::ResumeRejected.recoverable());
    assert!(EngineError::Request.recoverable());
}

#[test]
fn resume_support_follows_range_capability() {
    assert!(matches!(resume_support(true), ResumeSupport::Supported));
    assert!(matches!(
        resume_support(false),
        ResumeSupport::Unsupported { .. }
    ));
}

#[test]
fn weak_etag_uses_last_modified_instead() {
    assert!(matches!(
        response_validator(Some("W/\"weak\""), Some("Tue, 11 Aug 2026 00:00:00 GMT")),
        SourceValidator::LastModified { .. }
    ));
}

#[test]
fn bandwidth_duration_uses_the_aggregate_byte_rate() {
    assert_eq!(
        std::time::Duration::from_nanos(transfer_duration(512 * 1024, 1024 * 1024)),
        std::time::Duration::from_millis(500)
    );
}

#[test]
fn finished_transfer_must_hold_the_announced_size() {
    assert!(verify_complete(10, &TransferSize::Known { total_bytes: 10 }).is_ok());
    assert!(matches!(
        verify_complete(9, &TransferSize::Known { total_bytes: 10 }),
        Err(EngineError::Request)
    ));
    assert!(verify_complete(9, &TransferSize::Unknown).is_ok());
}
