use fluxor::engine::{EngineOutput, EngineProgress};
use fluxor::error::AppError;
use fluxor::model::{
    AppSettings, AppSnapshot, CreateDownloadInput, DownloadCategory, DownloadItem, DownloadSource,
    DownloadState, ProxyHealth, ProxyProfile, ProxySelection, ResumeSupport, SegmentProgress,
    SegmentState, SourceValidator, TransferMode, TransferPhase, TransferProgress, TransferSize,
    TransferTelemetry,
};
use fluxor::queue::{
    apply_completion, apply_failure, apply_progress, apply_stored_lengths, begin_proxy_check,
    check_destination_free, check_reservation_owner, may_start, progress_persist_due, restartable,
    revealable, source_replaceable,
    complete_input, destination_dir, discard_download, download_from_input, fail_first_queued,
    find_download, finish_proxy_check, insert_download, mark_downloading, mark_failed,
    new_download, next_job, proxy_check_outcome, queue, recover_after_load, remove_download,
    remove_proxy, replace_settings, replace_source, restart_download, restore_download,
    restore_proxies, restore_speed_limit, save_proxy, set_paused, set_speed_limit,
    wants_remote_file_name, ProxyProbe,
};

fn source(proxy: ProxySelection) -> DownloadSource {
    DownloadSource {
        url: "https://example.com/file.zip".to_owned(),
        headers: Vec::new(),
        cookies: Vec::new(),
        proxy,
        force_single_stream: false,
    }
}

fn segment(index: u8, start: u64, end: u64, downloaded: u64, state: SegmentState) -> SegmentProgress {
    SegmentProgress {
        index,
        start_byte: start,
        end_byte: Some(end),
        downloaded_bytes: downloaded,
        speed_bytes: 77,
        state,
        last_activity_at: Some(5),
        error: Some("boom".to_owned()),
    }
}

fn item(id: &str, state: DownloadState) -> DownloadItem {
    DownloadItem {
        id: id.to_owned(),
        file_name: "file.zip".to_owned(),
        category: DownloadCategory::Archive,
        state,
        source: source(ProxySelection::Direct),
        destination: "Fluxor".to_owned(),
        transfer: TransferProgress {
            downloaded_bytes: 40,
            size: TransferSize::Known { total_bytes: 200 },
            validator: SourceValidator::Absent,
            resume: ResumeSupport::Supported,
        },
        telemetry: TransferTelemetry {
            phase: TransferPhase::Transferring,
            mode: TransferMode::Segmented,
            segments: vec![
                segment(0, 0, 99, 100, SegmentState::Completed),
                segment(1, 100, 199, 40, SegmentState::Downloading),
            ],
        },
        threads: 2,
        speed_limit_bytes: 0,
        created_at: 1,
        updated_at: 1,
    }
}

fn state(items: Vec<DownloadItem>) -> AppSnapshot {
    AppSnapshot {
        revision: 7,
        downloads: items,
        proxies: vec![ProxyProfile {
            id: "p1".to_owned(),
            name: "Office".to_owned(),
            url: "http://127.0.0.1:8080".to_owned(),
            enabled: true,
            health: ProxyHealth::Untested,
        }],
        settings: AppSettings::default(),
    }
}

#[test]
fn pause_keeps_completed_segments_and_stops_the_rest() {
    let mut s = state(vec![item("a", DownloadState::Downloading { speed_bytes: 9 })]);
    set_paused(&mut s, "a", 50).unwrap();
    let a = &s.downloads[0];
    assert!(matches!(a.state, DownloadState::Paused));
    assert_eq!(a.updated_at, 50);
    assert_eq!(s.revision, 8);
    assert_eq!(a.telemetry.phase, TransferPhase::Idle);
    assert_eq!(a.telemetry.segments[0].state, SegmentState::Completed);
    assert_eq!(a.telemetry.segments[1].state, SegmentState::Paused);
    assert!(a.telemetry.segments.iter().all(|segment| segment.speed_bytes == 0));
    assert!(matches!(set_paused(&mut s, "missing", 1), Err(AppError::DownloadNotFound)));
}

#[test]
fn completed_downloads_are_left_alone() {
    let mut s = state(vec![item("a", DownloadState::Completed { completed_at: 3 })]);
    set_paused(&mut s, "a", 50).unwrap();
    assert_eq!(s.revision, 7);
    assert_eq!(queue(&mut s, "a", 50).unwrap(), false);
    assert!(matches!(
        set_speed_limit(&mut s, "a", 10, 50),
        Err(AppError::Validation(message)) if message == "La descarga ya se completó; no puede ajustarse su límite"
    ));
    assert!(matches!(restart_download(&mut s, "a", 50), Err(AppError::Validation(_))));
    assert!(matches!(
        replace_source(&mut s, "a", source(ProxySelection::Direct), 50),
        Err(AppError::Validation(_))
    ));
    assert_eq!(s.revision, 7);
}

#[test]
fn pause_then_resume_waits_with_completed_work_kept() {
    let mut s = state(vec![item("a", DownloadState::Downloading { speed_bytes: 9 })]);
    set_paused(&mut s, "a", 50).unwrap();
    assert_eq!(queue(&mut s, "a", 60).unwrap(), true);
    let a = &s.downloads[0];
    assert!(matches!(a.state, DownloadState::Queued));
    assert_eq!(a.telemetry.segments[0].state, SegmentState::Completed);
    assert_eq!(a.telemetry.segments[1].state, SegmentState::Pending);
    assert!(a.telemetry.segments.iter().all(|segment| segment.error.is_none()));
    assert_eq!(s.revision, 9);
}

#[test]
fn restart_forgets_progress() {
    let mut s = state(vec![item("a", DownloadState::Failed { message: "x".to_owned(), recoverable: true })]);
    restart_download(&mut s, "a", 70).unwrap();
    let a = &s.downloads[0];
    assert!(matches!(a.state, DownloadState::Queued));
    assert_eq!(a.transfer.downloaded_bytes, 0);
    assert!(matches!(a.transfer.size, TransferSize::Unknown));
    assert!(a.telemetry.segments.is_empty());
}

#[test]
fn removal_can_be_put_back() {
    let mut s = state(vec![
        item("a", DownloadState::Paused),
        item("b", DownloadState::Queued),
    ]);
    let removed = remove_download(&mut s, "a").unwrap();
    assert_eq!(removed.id, "a");
    assert_eq!(s.downloads.len(), 1);
    restore_download(&mut s, removed);
    assert_eq!(s.downloads[1].id, "a");
    assert_eq!(s.revision, 9);
    assert!(find_download(&s, "a").is_ok());
}

#[test]
fn speed_limit_is_bounded_and_can_be_restored() {
    let mut s = state(vec![item("a", DownloadState::Paused)]);
    assert!(matches!(
        set_speed_limit(&mut s, "a", 10 * 1024 * 1024 * 1024 + 1, 5),
        Err(AppError::Validation(_))
    ));
    let previous = set_speed_limit(&mut s, "a", 4096, 5).unwrap();
    assert_eq!(previous, 0);
    assert_eq!(s.downloads[0].speed_limit_bytes, 4096);
    restore_speed_limit(&mut s, "a", previous, 6);
    assert_eq!(s.downloads[0].speed_limit_bytes, 0);
    assert_eq!(s.revision, 9);
}

#[test]
fn new_source_queues_the_download_again() {
    let mut s = state(vec![item("a", DownloadState::Paused)]);
    let mut new = source(ProxySelection::Direct);
    new.url = "https://mirror.example/file.zip".to_owned();
    replace_source(&mut s, "a", new, 8).unwrap();
    let a = &s.downloads[0];
    assert_eq!(a.source.url, "https://mirror.example/file.zip");
    assert!(matches!(a.transfer.resume, ResumeSupport::Unknown));
    assert_eq!(a.transfer.downloaded_bytes, 40);
    assert!(matches!(a.state, DownloadState::Queued));
}

#[test]
fn settings_swap_returns_the_previous_ones() {
    let mut s = state(Vec::new());
    let mut settings = AppSettings::default();
    settings.max_concurrent = 5;
    let previous = replace_settings(&mut s, settings);
    assert_eq!(previous.max_concurrent, 3);
    assert_eq!(s.settings.max_concurrent, 5);
    assert_eq!(s.revision, 8);
}

#[test]
fn proxies_cannot_be_disabled_or_removed_while_in_use() {
    let mut busy = item("a", DownloadState::Queued);
    busy.source.proxy = ProxySelection::Profile { profile_id: "p1".to_owned() };
    let mut s = state(vec![busy]);
    let disabled = ProxyProfile {
        id: "p1".to_owned(),
        name: "Office".to_owned(),
        url: "http://127.0.0.1:8080".to_owned(),
        enabled: false,
        health: ProxyHealth::Checking,
    };
    assert!(matches!(
        save_proxy(&mut s, disabled),
        Err(AppError::Validation(message)) if message == "El proxy está asignado a una descarga pendiente y no puede desactivarse"
    ));
    assert!(matches!(
        remove_proxy(&mut s, "p1"),
        Err(AppError::Validation(message)) if message == "El proxy está asignado a una descarga y no puede eliminarse"
    ));
    assert!(matches!(remove_proxy(&mut s, "nope"), Err(AppError::ProxyNotFound)));
}

#[test]
fn saved_proxies_replace_or_join_and_removal_deletes_them() {
    let mut s = state(Vec::new());
    let updated = ProxyProfile {
        id: "p1".to_owned(),
        name: "Home".to_owned(),
        url: "http://10.0.0.1:3128".to_owned(),
        enabled: true,
        health: ProxyHealth::Online { latency_ms: 3 },
    };
    let previous = save_proxy(&mut s, updated).unwrap();
    assert_eq!(previous[0].name, "Office");
    assert_eq!(s.proxies.len(), 1);
    assert_eq!(s.proxies[0].name, "Home");
    assert!(matches!(s.proxies[0].health, ProxyHealth::Untested));
    let other = ProxyProfile {
        id: "p2".to_owned(),
        name: "Lab".to_owned(),
        url: "socks5://10.0.0.2:1080".to_owned(),
        enabled: true,
        health: ProxyHealth::Untested,
    };
    save_proxy(&mut s, other).unwrap();
    assert_eq!(s.proxies.len(), 2);
    let before = remove_proxy(&mut s, "p1").unwrap();
    assert_eq!(before.len(), 2);
    assert_eq!(s.proxies.len(), 1);
    assert_eq!(s.proxies[0].id, "p2");
    assert!(matches!(remove_proxy(&mut s, "p1"), Err(AppError::ProxyNotFound)));
    restore_proxies(&mut s, before);
    assert_eq!(s.proxies.len(), 2);
    let invalid = ProxyProfile {
        id: " ".to_owned(),
        name: "x".to_owned(),
        url: "http://a".to_owned(),
        enabled: true,
        health: ProxyHealth::Untested,
    };
    assert!(matches!(save_proxy(&mut s, invalid), Err(AppError::Validation(m)) if m == "El proxy necesita nombre e identificador"));
}

#[test]
fn proxy_checks_report_health() {
    let mut s = state(Vec::new());
    let url = begin_proxy_check(&mut s, "p1").unwrap();
    assert_eq!(url.as_deref(), Some("http://127.0.0.1:8080"));
    assert!(matches!(s.proxies[0].health, ProxyHealth::Checking));
    finish_proxy_check(&mut s, "p1", proxy_check_outcome(ProxyProbe::Replied { status: 204, latency_ms: 12 })).unwrap();
    assert!(matches!(s.proxies[0].health, ProxyHealth::Online { latency_ms: 12 }));
    assert!(matches!(
        proxy_check_outcome(ProxyProbe::Replied { status: 407, latency_ms: 1 }),
        ProxyHealth::Offline { reason } if reason == "El proxy respondió HTTP 407"
    ));
    assert!(matches!(
        proxy_check_outcome(ProxyProbe::InvalidUrl),
        ProxyHealth::Offline { reason } if reason == "La URL del proxy no es válida"
    ));
    assert!(matches!(
        proxy_check_outcome(ProxyProbe::NoConnection),
        ProxyHealth::Offline { reason } if reason == "No se pudo establecer conexión"
    ));
    s.proxies[0].enabled = false;
    assert_eq!(begin_proxy_check(&mut s, "p1").unwrap(), None);
    assert!(matches!(&s.proxies[0].health, ProxyHealth::Offline { reason } if reason == "El perfil está desactivado"));
    assert!(matches!(begin_proxy_check(&mut s, "zz"), Err(AppError::ProxyNotFound)));
}

#[test]
fn scheduler_starts_the_first_runnable_download_within_capacity() {
    let mut s = state(vec![
        item("a", DownloadState::Paused),
        item("b", DownloadState::Queued),
        item("c", DownloadState::Queued),
    ]);
    assert_eq!(next_job(&s, &Vec::new(), 0), Some(1));
    assert_eq!(next_job(&s, &vec!["b".to_owned()], 1), Some(2));
    assert_eq!(next_job(&s, &Vec::new(), 3), None);
    assert!(mark_downloading(&mut s, "b", 9));
    assert!(matches!(s.downloads[1].state, DownloadState::Downloading { speed_bytes: 0 }));
    assert_eq!(s.downloads[1].telemetry.phase, TransferPhase::Preparing);
    assert!(!mark_downloading(&mut s, "b", 9));
    assert_eq!(fail_first_queued(&mut s, "sin proxy".to_owned(), 10), Some(9));
    assert!(matches!(&s.downloads[2].state, DownloadState::Failed { recoverable: true, .. }));
    assert_eq!(fail_first_queued(&mut s, "otra".to_owned(), 10), None);
    assert_eq!(mark_failed(&mut s, "a", "disco".to_owned(), false, 11), Some(10));
    assert_eq!(mark_failed(&mut s, "zz", "disco".to_owned(), false, 11), None);
}

#[test]
fn transfer_outcomes_are_recorded() {
    let mut s = state(vec![item("a", DownloadState::Downloading { speed_bytes: 1 })]);
    let report = EngineProgress {
        downloaded_bytes: 120,
        size: TransferSize::Known { total_bytes: 200 },
        validator: SourceValidator::Etag { value: "\"v\"".to_owned() },
        resume: ResumeSupport::Supported,
        speed_bytes: 33,
        telemetry: TransferTelemetry::idle(),
    };
    assert_eq!(apply_progress(&mut s, "a", report, 12), Some(true));
    assert!(matches!(s.downloads[0].state, DownloadState::Downloading { speed_bytes: 33 }));
    assert_eq!(s.downloads[0].transfer.downloaded_bytes, 120);
    assert!(apply_failure(&mut s, "a", "falló".to_owned(), true, 13));
    assert!(matches!(&s.downloads[0].state, DownloadState::Failed { message, recoverable: true } if message == "falló"));
    assert!(!apply_failure(&mut s, "a", "otra vez".to_owned(), true, 14));
    let late = EngineProgress {
        downloaded_bytes: 150,
        size: TransferSize::Known { total_bytes: 200 },
        validator: SourceValidator::Etag { value: "\"w\"".to_owned() },
        resume: ResumeSupport::Unknown,
        speed_bytes: 1,
        telemetry: TransferTelemetry::idle(),
    };
    assert_eq!(apply_progress(&mut s, "a", late, 15), None);
    let output = EngineOutput {
        downloaded_bytes: 200,
        size: TransferSize::Known { total_bytes: 200 },
        validator: SourceValidator::Absent,
        resume: ResumeSupport::Supported,
        telemetry: TransferTelemetry::idle(),
    };
    apply_completion(&mut s, "a", output, 16);
    assert!(matches!(s.downloads[0].state, DownloadState::Completed { completed_at: 16 }));
    assert_eq!(s.downloads[0].transfer.downloaded_bytes, 200);
}

#[test]
fn stored_lengths_reconcile_segments() {
    let mut s = state(vec![item("a", DownloadState::Failed { message: "x".to_owned(), recoverable: true })]);
    apply_stored_lengths(&mut s, "a", 0, &vec![100, 60], 20).unwrap();
    let a = &s.downloads[0];
    assert_eq!(a.transfer.downloaded_bytes, 160);
    assert_eq!(a.telemetry.segments[0].state, SegmentState::Completed);
    assert_eq!(a.telemetry.segments[1].downloaded_bytes, 60);
    assert_eq!(a.telemetry.segments[1].state, SegmentState::Stopped);
    assert_eq!(s.revision, 8);
    let mut t = state(vec![item("a", DownloadState::Paused)]);
    apply_stored_lengths(&mut t, "a", 500, &vec![0, 0], 20).unwrap();
    assert_eq!(t.downloads[0].transfer.downloaded_bytes, 500);
    assert_eq!(t.downloads[0].telemetry.segments[1].downloaded_bytes, 100);
    assert_eq!(t.downloads[0].telemetry.segments[1].state, SegmentState::Completed);
}

#[test]
fn loading_requeues_running_downloads() {
    let mut s = state(vec![
        item("a", DownloadState::Downloading { speed_bytes: 5 }),
        item("b", DownloadState::Paused),
    ]);
    recover_after_load(&mut s);
    assert!(matches!(s.downloads[0].state, DownloadState::Queued));
    assert_eq!(s.downloads[0].telemetry.segments[1].state, SegmentState::Pending);
    assert_eq!(s.downloads[1].telemetry.segments[1].state, SegmentState::Paused);
    assert_eq!(s.revision, 7);
}

#[test]
fn new_downloads_are_completed_from_settings() {
    let input = CreateDownloadInput {
        source: source(ProxySelection::Direct),
        file_name: "download".to_owned(),
        file_name_customized: false,
        category: DownloadCategory::Other,
        category_customized: false,
        destination: String::new(),
        destination_customized: false,
        threads: 4,
        speed_limit_bytes: 0,
        start_immediately: false,
    };
    assert!(wants_remote_file_name(&input));
    let done = complete_input(input, &AppSettings::default(), Some("../clip.mp4"));
    assert_eq!(done.file_name, "clip.mp4");
    assert_eq!(done.category, DownloadCategory::Video);
    assert_eq!(
        done.destination,
        std::path::Path::new("Fluxor").join("Videos").to_string_lossy()
    );
    let item = download_from_input(done.clone(), "id-1".to_owned(), 42);
    assert!(matches!(item.state, DownloadState::Paused));
    assert_eq!(item.created_at, 42);
    let fresh = new_download(done, 99);
    assert_eq!(fresh.id.len(), 36);
    assert_eq!((fresh.created_at, fresh.updated_at), (99, 99));
    let mut s = state(vec![item]);
    insert_download(&mut s, fresh.clone());
    assert_eq!(s.downloads[0].id, fresh.id);
    discard_download(&mut s, &fresh.id);
    assert_eq!(s.downloads.len(), 1);
    assert_eq!(s.downloads[0].id, "id-1");
}

#[test]
fn destinations_resolve_under_the_download_directory() {
    let downloads = "/home/user/Downloads";
    let resolved = destination_dir("Fluxor", downloads).unwrap();
    assert_eq!(resolved, std::path::Path::new(downloads).join("Fluxor").to_string_lossy());
    assert!(matches!(
        destination_dir("../escape", downloads),
        Err(AppError::Validation(m)) if m == "El directorio de destino no es seguro"
    ));
    if std::path::Path::new("/srv/files").is_absolute() {
        assert_eq!(destination_dir("/srv/files", downloads).unwrap(), "/srv/files");
    }
    assert_eq!(
        destination_dir("Media/Series", downloads).unwrap(),
        std::path::Path::new(downloads).join("Media/Series").to_string_lossy()
    );
    assert!(destination_dir("Media/../../escape", downloads).is_err());
}

#[test]
fn progress_is_saved_at_most_every_few_seconds() {
    assert!(progress_persist_due(false, None, 10));
    assert!(!progress_persist_due(false, Some(1_000), 3_999));
    assert!(progress_persist_due(false, Some(1_000), 4_000));
    assert!(progress_persist_due(true, Some(1_000), 1_001));
}

#[test]
fn destinations_are_reserved_for_one_download() {
    assert!(check_destination_free(false, false).is_ok());
    assert!(check_destination_free(true, true).is_ok());
    assert!(matches!(
        check_destination_free(false, true),
        Err(AppError::Validation(m)) if m == "El archivo de destino ya existe"
    ));
    assert!(check_reservation_owner("id-1", "id-1").is_ok());
    assert!(matches!(
        check_reservation_owner("id-2", "id-1"),
        Err(AppError::Validation(m)) if m == "Otro elemento ya reservó el mismo archivo de destino"
    ));
    let s = state(vec![
        item("a", DownloadState::Paused),
        item("b", DownloadState::Completed { completed_at: 4 }),
    ]);
    assert_eq!(revealable(&s, "b").unwrap(), 1);
    assert!(matches!(revealable(&s, "a"), Err(AppError::Validation(_))));
    assert!(matches!(revealable(&s, "c"), Err(AppError::DownloadNotFound)));
}

#[test]
fn finished_downloads_cannot_start_over_or_change_source() {
    let s = state(vec![
        item("a", DownloadState::Paused),
        item("b", DownloadState::Completed { completed_at: 4 }),
    ]);
    assert_eq!(restartable(&s, "a").unwrap(), 0);
    assert!(matches!(
        restartable(&s, "b"),
        Err(AppError::Validation(m)) if m == "La descarga terminó mientras se finalizaba el archivo"
    ));
    assert!(matches!(restartable(&s, "c"), Err(AppError::DownloadNotFound)));
    assert_eq!(source_replaceable(&s, "a").unwrap(), 0);
    assert!(matches!(
        source_replaceable(&s, "b"),
        Err(AppError::Validation(m))
            if m == "La descarga ya se completó; crea una nueva descarga para cambiar el origen"
    ));
    assert!(matches!(source_replaceable(&s, "c"), Err(AppError::DownloadNotFound)));
}

#[test]
fn a_claimed_job_starts_only_while_it_is_downloading_and_unattended() {
    let s = state(vec![
        item("a", DownloadState::Downloading { speed_bytes: 3 }),
        item("b", DownloadState::Paused),
    ]);
    assert!(may_start(&s, "a", true, false, false));
    assert!(!may_start(&s, "a", false, false, false));
    assert!(!may_start(&s, "a", true, true, false));
    assert!(!may_start(&s, "a", true, false, true));
    assert!(!may_start(&s, "b", true, false, false));
    assert!(!may_start(&s, "c", true, false, false));
}
