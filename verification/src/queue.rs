//! How the download queue changes state. Each operation of the queue is a
//! function from the stored state and an event (a user action, a report
//! from a transfer, the clock's reading) to the next state; the caller
//! persists and announces the result. Every change that is kept raises the
//! revision by one.
use vstd::prelude::*;
use crate::engine::{EngineOutput, EngineProgress};
use crate::error::AppError;
use crate::model::{
    AppSettings, AppSnapshot, CreateDownloadInput, DownloadCategory, DownloadItem, ProxyHealth, ProxyProfile, ProxySelection, DownloadSource, DownloadState, ResumeSupport,
    SegmentProgress, SegmentState, SourceValidator, TransferMode, TransferPhase, TransferProgress,
    TransferSize, TransferTelemetry,
};
use crate::names::{
    category_for_file, needs_remote_file_name, no_separators, sanitize_detected_file_name,
    spec_category, spec_extension, spec_generic_name, spec_sanitize,
};
use crate::outside::{
    new_uuid_text, path_components, path_is_absolute, path_join, placed_under, plain_relative,
    single_component, slash_pieces, slash_relative, PathPart,
};
use crate::validation::{
    destination_for_category, spec_category_directory,
    find_proxy, first_proxy, spec_proxy_error, validate_proxy, MAX_SPEED_LIMIT_BYTES,
};
use crate::text::{decimal_text, lower_seq, push_decimal, str_equal};

verus! {

/// The index of the first download with this identifier.
pub open spec fn first_download(downloads: Seq<DownloadItem>, id: Seq<char>) -> Option<int> {
    if exists|i: int| 0 <= i < downloads.len() && (#[trigger] downloads[i]).id@ == id {
        Some(
            choose|i: int|
                0 <= i < downloads.len() && (#[trigger] downloads[i]).id@ == id && forall|j: int|
                    0 <= j < i ==> (#[trigger] downloads[j]).id@ != id,
        )
    } else {
        None
    }
}

/// The first index that holds an identifier is what `first_download` names.
pub proof fn lemma_first_download(downloads: Seq<DownloadItem>, id: Seq<char>, i: int)
    requires
        0 <= i < downloads.len(),
        downloads[i].id@ == id,
        forall|j: int| 0 <= j < i ==> (#[trigger] downloads[j]).id@ != id,
    ensures
        first_download(downloads, id) == Some(i),
{
    let w = choose|w: int|
        0 <= w < downloads.len() && (#[trigger] downloads[w]).id@ == id && forall|j: int|
            0 <= j < w ==> (#[trigger] downloads[j]).id@ != id;
    assert(downloads[i].id@ == id);
    if w < i {
        assert(downloads[w].id@ != id);
    }
    if w > i {
        assert(downloads[i].id@ != id);
    }
}

/// Finds the download with this identifier.
pub fn find_download(state: &AppSnapshot, id: &str) -> (r: Result<usize, AppError>)
    ensures
        match r {
            Ok(i) => first_download(state.downloads@, id@) == Some(i as int) && i
                < state.downloads@.len() && state.downloads@[i as int].id@ == id@,
            Err(e) => first_download(state.downloads@, id@) is None && e is DownloadNotFound,
        },
{
    let downloads = &state.downloads;
    let mut i: usize = 0;
    while i < downloads.len()
        invariant
            downloads@ == state.downloads@,
            i <= downloads@.len(),
            forall|j: int| 0 <= j < i ==> (#[trigger] downloads@[j]).id@ != id@,
        decreases downloads@.len() - i,
    {
        if str_equal(downloads[i].id.as_str(), id) {
            proof {
                lemma_first_download(downloads@, id@, i as int);
            }
            return Ok(i);
        }
        i = i + 1;
    }
    Err(AppError::DownloadNotFound)
}

/// What a segment keeps when it is taken out of a transfer: its place in the
/// file, its progress, its last activity.
pub open spec fn same_segment_place(a: SegmentProgress, b: SegmentProgress) -> bool {
    &&& b.index == a.index
    &&& b.start_byte == a.start_byte
    &&& b.end_byte == a.end_byte
    &&& b.downloaded_bytes == a.downloaded_bytes
    &&& b.last_activity_at == a.last_activity_at
}

/// A paused segment: no speed, and paused unless it is complete.
pub open spec fn paused_segment(a: SegmentProgress, b: SegmentProgress) -> bool {
    &&& same_segment_place(a, b)
    &&& b.speed_bytes == 0
    &&& b.state == (if a.state == SegmentState::Completed {
        SegmentState::Completed
    } else {
        SegmentState::Paused
    })
    &&& b.error == a.error
}

/// The telemetry of a paused transfer: idle, and every segment paused.
pub open spec fn paused_telemetry(a: TransferTelemetry, b: TransferTelemetry) -> bool {
    &&& b.phase == TransferPhase::Idle
    &&& b.mode == a.mode
    &&& b.segments@.len() == a.segments@.len()
    &&& forall|i: int|
        0 <= i < a.segments@.len() ==> paused_segment(a.segments@[i], #[trigger] b.segments@[i])
}

/// The state a segment rests in between transfers: a segment keeps its
/// state when it is complete, or when it failed in a failed download; any
/// other goes back to `resting`. Its error stays only in a failed download.
pub open spec fn rested_segment(
    a: SegmentProgress,
    b: SegmentProgress,
    resting: SegmentState,
    keep_failure: bool,
) -> bool {
    &&& same_segment_place(a, b)
    &&& b.speed_bytes == 0
    &&& b.state == (if a.state == SegmentState::Completed || (keep_failure && a.state
        == SegmentState::Failed) {
        a.state
    } else {
        resting
    })
    &&& b.error == (if keep_failure {
        a.error
    } else {
        None
    })
}

/// The segment state a download at rest shows: paused for a paused
/// download, pending for any other.
pub open spec fn resting_state(s: DownloadState) -> SegmentState {
    if s is Paused {
        SegmentState::Paused
    } else {
        SegmentState::Pending
    }
}

/// The telemetry of a download whose transfer is not running.
pub open spec fn rested_telemetry(a: TransferTelemetry, b: TransferTelemetry, s: DownloadState) -> bool {
    &&& b.phase == TransferPhase::Idle
    &&& b.mode == a.mode
    &&& b.segments@.len() == a.segments@.len()
    &&& forall|i: int|
        0 <= i < a.segments@.len() ==> rested_segment(
            a.segments@[i],
            #[trigger] b.segments@[i],
            resting_state(s),
            s is Failed,
        )
}

/// Two downloads that differ at most in state, telemetry and time of change.
pub open spec fn same_download_apart_from_state(a: DownloadItem, b: DownloadItem) -> bool {
    &&& b.id == a.id
    &&& b.file_name == a.file_name
    &&& b.category == a.category
    &&& b.source == a.source
    &&& b.destination == a.destination
    &&& b.transfer == a.transfer
    &&& b.threads == a.threads
    &&& b.speed_limit_bytes == a.speed_limit_bytes
    &&& b.created_at == a.created_at
}

/// Stops the live parts of a download's telemetry for a pause: the phase
/// goes idle, speeds drop to zero and unfinished segments show as paused.
pub fn pause_telemetry(item: &mut DownloadItem)
    ensures
        paused_telemetry(old(item).telemetry, final(item).telemetry),
        same_download_apart_from_state(*old(item), *final(item)),
        final(item).state == old(item).state,
        final(item).updated_at == old(item).updated_at,
{
    item.telemetry.phase = TransferPhase::Idle;
    let ghost start = item.telemetry.segments@;
    let mut i: usize = 0;
    while i < item.telemetry.segments.len()
        invariant
            i <= start.len(),
            item.telemetry.segments@.len() == start.len(),
            forall|j: int|
                0 <= j < i ==> paused_segment(start[j], #[trigger] item.telemetry.segments@[j]),
            forall|j: int| i <= j < start.len() ==> #[trigger] item.telemetry.segments@[j] == start[j],
            start == old(item).telemetry.segments@,
            item.telemetry.phase == TransferPhase::Idle,
            item.telemetry.mode == old(item).telemetry.mode,
            same_download_apart_from_state(*old(item), *item),
            item.state == old(item).state,
            item.updated_at == old(item).updated_at,
        decreases start.len() - i,
    {
        item.telemetry.segments[i].speed_bytes = 0;
        if item.telemetry.segments[i].state != SegmentState::Completed {
            item.telemetry.segments[i].state = SegmentState::Paused;
        }
        i = i + 1;
    }
}

/// Puts the live parts of a download's telemetry to rest between
/// transfers: the phase goes idle, speeds drop to zero, and each segment
/// takes the resting state that the download's state calls for.
pub fn reset_live_telemetry(item: &mut DownloadItem)
    ensures
        rested_telemetry(old(item).telemetry, final(item).telemetry, old(item).state),
        same_download_apart_from_state(*old(item), *final(item)),
        final(item).state == old(item).state,
        final(item).updated_at == old(item).updated_at,
{
    item.telemetry.phase = TransferPhase::Idle;
    let resting = if matches!(item.state, DownloadState::Paused) {
        SegmentState::Paused
    } else {
        SegmentState::Pending
    };
    let keep_failure = matches!(item.state, DownloadState::Failed { .. });
    let ghost start = item.telemetry.segments@;
    let mut i: usize = 0;
    while i < item.telemetry.segments.len()
        invariant
            i <= start.len(),
            item.telemetry.segments@.len() == start.len(),
            resting == resting_state(item.state),
            keep_failure == item.state is Failed,
            forall|j: int|
                0 <= j < i ==> rested_segment(
                    start[j],
                    #[trigger] item.telemetry.segments@[j],
                    resting,
                    keep_failure,
                ),
            forall|j: int| i <= j < start.len() ==> #[trigger] item.telemetry.segments@[j] == start[j],
            start == old(item).telemetry.segments@,
            item.telemetry.phase == TransferPhase::Idle,
            item.telemetry.mode == old(item).telemetry.mode,
            same_download_apart_from_state(*old(item), *item),
            item.state == old(item).state,
            item.updated_at == old(item).updated_at,
        decreases start.len() - i,
    {
        item.telemetry.segments[i].speed_bytes = 0;
        let current = item.telemetry.segments[i].state;
        if !(current == SegmentState::Completed || (keep_failure && current
            == SegmentState::Failed)) {
            item.telemetry.segments[i].state = resting;
        }
        if !keep_failure {
            item.telemetry.segments[i].error = None;
        }
        i = i + 1;
    }
}

/// `b` is `a` with only the download at `i` changed, and one revision later.
pub open spec fn changed_download(a: AppSnapshot, b: AppSnapshot, i: int) -> bool {
    &&& b.revision == a.revision + 1
    &&& b.proxies == a.proxies
    &&& b.settings == a.settings
    &&& b.downloads@.len() == a.downloads@.len()
    &&& forall|j: int| 0 <= j < a.downloads@.len() && j != i ==> #[trigger] b.downloads@[j] == a.downloads@[j]
}

/// A download after a pause: paused, its telemetry at rest, changed at `now`.
pub open spec fn paused_download(a: DownloadItem, b: DownloadItem, now: i64) -> bool {
    &&& same_download_apart_from_state(a, b)
    &&& b.state is Paused
    &&& paused_telemetry(a.telemetry, b.telemetry)
    &&& b.updated_at == now
}

fn pause_download(item: &mut DownloadItem, now: i64)
    ensures
        paused_download(*old(item), *final(item), now),
{
    item.state = DownloadState::Paused;
    pause_telemetry(item);
    item.updated_at = now;
}

/// Pauses a download at `now`. A completed download stays as it is.
pub fn set_paused(state: &mut AppSnapshot, id: &str, now: i64) -> (r: Result<(), AppError>)
    requires
        old(state).revision < u64::MAX,
    ensures
        match first_download(old(state).downloads@, id@) {
            None => r matches Err(AppError::DownloadNotFound) && *final(state) == *old(state),
            Some(i) => r is Ok && if old(state).downloads@[i].state is Completed {
                *final(state) == *old(state)
            } else {
                changed_download(*old(state), *final(state), i) && paused_download(
                    old(state).downloads@[i],
                    final(state).downloads@[i],
                    now,
                )
            },
        },
{
    let i = find_download(state, id)?;
    if matches!(state.downloads[i].state, DownloadState::Completed { .. }) {
        return Ok(());
    }
    pause_download(&mut state.downloads[i], now);
    state.revision = state.revision + 1;
    Ok(())
}

/// A download put back in the queue: queued, its telemetry at rest, changed
/// at `now`.
pub open spec fn queued_download(a: DownloadItem, b: DownloadItem, now: i64) -> bool {
    &&& same_download_apart_from_state(a, b)
    &&& b.state is Queued
    &&& rested_telemetry(a.telemetry, b.telemetry, DownloadState::Queued)
    &&& b.updated_at == now
}

/// The states that queueing leaves alone: finished, running, or already
/// waiting.
pub open spec fn queue_ignores(s: DownloadState) -> bool {
    s is Completed || s is Downloading || s is Queued
}

fn requeue_download(item: &mut DownloadItem, now: i64)
    ensures
        queued_download(*old(item), *final(item), now),
{
    item.state = DownloadState::Queued;
    reset_live_telemetry(item);
    item.updated_at = now;
}

/// Puts a paused or failed download back in the queue at `now` (resume and
/// retry). Returns whether anything changed: a finished, running or queued
/// download stays as it is.
pub fn queue(state: &mut AppSnapshot, id: &str, now: i64) -> (r: Result<bool, AppError>)
    requires
        old(state).revision < u64::MAX,
    ensures
        match first_download(old(state).downloads@, id@) {
            None => r matches Err(AppError::DownloadNotFound) && *final(state) == *old(state),
            Some(i) => if queue_ignores(old(state).downloads@[i].state) {
                r matches Ok(false) && *final(state) == *old(state)
            } else {
                r matches Ok(true) && changed_download(*old(state), *final(state), i)
                    && queued_download(old(state).downloads@[i], final(state).downloads@[i], now)
            },
        },
{
    let i = find_download(state, id)?;
    if matches!(
        state.downloads[i].state,
        DownloadState::Completed { .. } | DownloadState::Downloading { .. } | DownloadState::Queued
    ) {
        return Ok(false);
    }
    requeue_download(&mut state.downloads[i], now);
    state.revision = state.revision + 1;
    Ok(true)
}

/// A transfer record with nothing transferred and nothing known of the source.
pub open spec fn fresh_transfer(t: TransferProgress) -> bool {
    &&& t.downloaded_bytes == 0
    &&& t.size is Unknown
    &&& t.validator is Absent
    &&& t.resume is Unknown
}

/// Telemetry of a transfer that has not started.
pub open spec fn idle_telemetry(t: TransferTelemetry) -> bool {
    &&& t.phase == TransferPhase::Idle
    &&& t.mode == (TransferMode::Single { reason: None })
    &&& t.segments@.len() == 0
}

/// Two downloads that differ at most in their transfer, state, telemetry and
/// time of change.
pub open spec fn same_request(a: DownloadItem, b: DownloadItem) -> bool {
    &&& b.id == a.id
    &&& b.file_name == a.file_name
    &&& b.category == a.category
    &&& b.destination == a.destination
    &&& b.threads == a.threads
    &&& b.speed_limit_bytes == a.speed_limit_bytes
    &&& b.created_at == a.created_at
}

/// A download started over: same request, nothing transferred, queued.
pub open spec fn restarted_download(a: DownloadItem, b: DownloadItem, now: i64) -> bool {
    &&& same_request(a, b)
    &&& b.source == a.source
    &&& fresh_transfer(b.transfer)
    &&& idle_telemetry(b.telemetry)
    &&& b.state is Queued
    &&& b.updated_at == now
}

fn start_over(item: &mut DownloadItem, now: i64)
    ensures
        restarted_download(*old(item), *final(item), now),
{
    item.transfer = TransferProgress {
        downloaded_bytes: 0,
        size: TransferSize::Unknown,
        validator: SourceValidator::Absent,
        resume: ResumeSupport::Unknown,
    };
    item.telemetry = TransferTelemetry::idle();
    item.state = DownloadState::Queued;
    item.updated_at = now;
}

/// Starts a download over at `now`, once its partial files are gone: its
/// progress is forgotten and it waits in the queue again. A download that
/// finished meanwhile is refused.
pub fn restart_download(state: &mut AppSnapshot, id: &str, now: i64) -> (r: Result<(), AppError>)
    requires
        old(state).revision < u64::MAX,
    ensures
        match first_download(old(state).downloads@, id@) {
            None => r matches Err(AppError::DownloadNotFound) && *final(state) == *old(state),
            Some(i) => if old(state).downloads@[i].state is Completed {
                r matches Err(AppError::Validation(m))
                    && m@ == "La descarga terminó mientras se finalizaba el archivo"@
                    && *final(state) == *old(state)
            } else {
                r is Ok && changed_download(*old(state), *final(state), i) && restarted_download(
                    old(state).downloads@[i],
                    final(state).downloads@[i],
                    now,
                )
            },
        },
{
    let i = restartable(state, id)?;
    start_over(&mut state.downloads[i], now);
    state.revision = state.revision + 1;
    Ok(())
}

/// Takes a download out of the list and hands it back.
pub fn remove_download(state: &mut AppSnapshot, id: &str) -> (r: Result<DownloadItem, AppError>)
    requires
        old(state).revision < u64::MAX,
    ensures
        match first_download(old(state).downloads@, id@) {
            None => r matches Err(AppError::DownloadNotFound) && *final(state) == *old(state),
            Some(i) => r matches Ok(item) && item == old(state).downloads@[i]
                && final(state).downloads@ == old(state).downloads@.remove(i)
                && final(state).revision == old(state).revision + 1
                && final(state).proxies == old(state).proxies
                && final(state).settings == old(state).settings,
        },
{
    let i = find_download(state, id)?;
    let item = state.downloads.remove(i);
    state.revision = state.revision + 1;
    Ok(item)
}

/// Puts back at the end of the list a download whose removal could not be
/// stored.
pub fn restore_download(state: &mut AppSnapshot, item: DownloadItem)
    requires
        old(state).revision < u64::MAX,
    ensures
        final(state).downloads@ == old(state).downloads@.push(item),
        final(state).revision == old(state).revision + 1,
        final(state).proxies == old(state).proxies,
        final(state).settings == old(state).settings,
{
    state.downloads.push(item);
    state.revision = state.revision + 1;
}

/// A download whose speed limit was set to `limit` at `now`.
pub open spec fn limited_download(a: DownloadItem, b: DownloadItem, limit: u64, now: i64) -> bool {
    &&& b.id == a.id
    &&& b.file_name == a.file_name
    &&& b.category == a.category
    &&& b.source == a.source
    &&& b.destination == a.destination
    &&& b.transfer == a.transfer
    &&& b.threads == a.threads
    &&& b.created_at == a.created_at
    &&& b.state == a.state
    &&& b.telemetry == a.telemetry
    &&& b.speed_limit_bytes == limit
    &&& b.updated_at == now
}

fn limit_download(item: &mut DownloadItem, limit: u64, now: i64)
    ensures
        limited_download(*old(item), *final(item), limit, now),
{
    item.speed_limit_bytes = limit;
    item.updated_at = now;
}

/// Sets the speed limit of an unfinished download at `now`, and returns the
/// limit it had before.
pub fn set_speed_limit(state: &mut AppSnapshot, id: &str, bytes_per_second: u64, now: i64) -> (r:
    Result<u64, AppError>)
    requires
        old(state).revision < u64::MAX,
    ensures
        if bytes_per_second > MAX_SPEED_LIMIT_BYTES {
            r matches Err(AppError::Validation(m))
                && m@ == "El límite de velocidad supera el máximo permitido"@
                && *final(state) == *old(state)
        } else {
            match first_download(old(state).downloads@, id@) {
                None => r matches Err(AppError::DownloadNotFound) && *final(state) == *old(state),
                Some(i) => if old(state).downloads@[i].state is Completed {
                    r matches Err(AppError::Validation(m))
                        && m@ == "La descarga ya se completó; no puede ajustarse su límite"@
                        && *final(state) == *old(state)
                } else {
                    r matches Ok(previous) && previous == old(state).downloads@[i].speed_limit_bytes
                        && changed_download(*old(state), *final(state), i) && limited_download(
                        old(state).downloads@[i],
                        final(state).downloads@[i],
                        bytes_per_second,
                        now,
                    )
                },
            }
        },
{
    if bytes_per_second > MAX_SPEED_LIMIT_BYTES {
        return Err(
            AppError::Validation("El límite de velocidad supera el máximo permitido".to_owned()),
        );
    }
    let i = find_download(state, id)?;
    if matches!(state.downloads[i].state, DownloadState::Completed { .. }) {
        return Err(
            AppError::Validation(
                "La descarga ya se completó; no puede ajustarse su límite".to_owned(),
            ),
        );
    }
    let previous = state.downloads[i].speed_limit_bytes;
    limit_download(&mut state.downloads[i], bytes_per_second, now);
    state.revision = state.revision + 1;
    Ok(previous)
}

/// Gives a download back the speed limit it had, when a new one could not be
/// stored.
pub fn restore_speed_limit(state: &mut AppSnapshot, id: &str, previous: u64, now: i64)
    requires
        old(state).revision < u64::MAX,
    ensures
        match first_download(old(state).downloads@, id@) {
            None => *final(state) == *old(state),
            Some(i) => changed_download(*old(state), *final(state), i) && limited_download(
                old(state).downloads@[i],
                final(state).downloads@[i],
                previous,
                now,
            ),
        },
{
    if let Ok(i) = find_download(state, id) {
        limit_download(&mut state.downloads[i], previous, now);
        state.revision = state.revision + 1;
    }
}

/// A download that was pointed at a new source at `now`: its progress stays
/// for the resume check, whether the source resumes is open again, and it
/// waits in the queue.
pub open spec fn resourced_download(
    a: DownloadItem,
    b: DownloadItem,
    source: DownloadSource,
    now: i64,
) -> bool {
    &&& same_request(a, b)
    &&& b.source == source
    &&& b.transfer.downloaded_bytes == a.transfer.downloaded_bytes
    &&& b.transfer.size == a.transfer.size
    &&& b.transfer.validator == a.transfer.validator
    &&& b.transfer.resume is Unknown
    &&& idle_telemetry(b.telemetry)
    &&& b.state is Queued
    &&& b.updated_at == now
}

fn point_at_source(item: &mut DownloadItem, source: DownloadSource, now: i64)
    ensures
        resourced_download(*old(item), *final(item), source, now),
{
    item.source = source;
    item.transfer.resume = ResumeSupport::Unknown;
    item.telemetry = TransferTelemetry::idle();
    item.state = DownloadState::Queued;
    item.updated_at = now;
}

/// Points an unfinished download at a new source at `now` and queues it.
pub fn replace_source(state: &mut AppSnapshot, id: &str, source: DownloadSource, now: i64) -> (r:
    Result<(), AppError>)
    requires
        old(state).revision < u64::MAX,
    ensures
        match first_download(old(state).downloads@, id@) {
            None => r matches Err(AppError::DownloadNotFound) && *final(state) == *old(state),
            Some(i) => if old(state).downloads@[i].state is Completed {
                r matches Err(AppError::Validation(m))
                    && m@ == "La descarga ya se completó; crea una nueva descarga para cambiar el origen"@
                    && *final(state) == *old(state)
            } else {
                r is Ok && changed_download(*old(state), *final(state), i) && resourced_download(
                    old(state).downloads@[i],
                    final(state).downloads@[i],
                    source,
                    now,
                )
            },
        },
{
    let i = source_replaceable(state, id)?;
    point_at_source(&mut state.downloads[i], source, now);
    state.revision = state.revision + 1;
    Ok(())
}

/// Puts new settings in place and hands back the ones they replace.
pub fn replace_settings(state: &mut AppSnapshot, settings: AppSettings) -> (previous: AppSettings)
    requires
        old(state).revision < u64::MAX,
    ensures
        previous == old(state).settings,
        final(state).settings == settings,
        final(state).downloads == old(state).downloads,
        final(state).proxies == old(state).proxies,
        final(state).revision == old(state).revision + 1,
{
    let mut previous = settings;
    std::mem::swap(&mut state.settings, &mut previous);
    state.revision = state.revision + 1;
    previous
}

/// A download as it is found when the application starts: a transfer that
/// was running waits in the queue again, and the telemetry is at rest.
pub open spec fn recovered_download(a: DownloadItem, b: DownloadItem) -> bool {
    let s = if a.state is Downloading {
        DownloadState::Queued
    } else {
        a.state
    };
    &&& same_download_apart_from_state(a, b)
    &&& b.state == s
    &&& rested_telemetry(a.telemetry, b.telemetry, s)
    &&& b.updated_at == a.updated_at
}

fn recover_download(item: &mut DownloadItem)
    ensures
        recovered_download(*old(item), *final(item)),
{
    if matches!(item.state, DownloadState::Downloading { .. }) {
        item.state = DownloadState::Queued;
    }
    reset_live_telemetry(item);
}

/// Brings a stored state back to rest when the application starts: no
/// transfer runs yet, so downloads that were running are queued again.
pub fn recover_after_load(state: &mut AppSnapshot)
    ensures
        final(state).revision == old(state).revision,
        final(state).proxies == old(state).proxies,
        final(state).settings == old(state).settings,
        final(state).downloads@.len() == old(state).downloads@.len(),
        forall|i: int|
            0 <= i < old(state).downloads@.len() ==> recovered_download(
                old(state).downloads@[i],
                #[trigger] final(state).downloads@[i],
            ),
{
    let ghost start = state.downloads@;
    let mut i: usize = 0;
    while i < state.downloads.len()
        invariant
            i <= start.len(),
            start == old(state).downloads@,
            state.downloads@.len() == start.len(),
            state.revision == old(state).revision,
            state.proxies == old(state).proxies,
            state.settings == old(state).settings,
            forall|j: int| 0 <= j < i ==> recovered_download(start[j], #[trigger] state.downloads@[j]),
            forall|j: int| i <= j < start.len() ==> #[trigger] state.downloads@[j] == start[j],
        decreases start.len() - i,
    {
        recover_download(&mut state.downloads[i]);
        i = i + 1;
    }
}

/// Whether a download is set to go through the proxy profile `proxy_id`.
pub open spec fn assigned_to(item: DownloadItem, proxy_id: Seq<char>) -> bool {
    item.source.proxy matches ProxySelection::Profile { profile_id } && profile_id@ == proxy_id
}

/// Whether an unfinished download goes through the proxy profile `proxy_id`.
pub open spec fn pending_assignment(downloads: Seq<DownloadItem>, proxy_id: Seq<char>) -> bool {
    exists|i: int|
        0 <= i < downloads.len() && !(downloads[i].state is Completed) && assigned_to(
            #[trigger] downloads[i],
            proxy_id,
        )
}

/// Whether any download, finished or not, goes through the proxy profile.
pub open spec fn any_assignment(downloads: Seq<DownloadItem>, proxy_id: Seq<char>) -> bool {
    exists|i: int| 0 <= i < downloads.len() && assigned_to(#[trigger] downloads[i], proxy_id)
}

fn is_assigned_to(item: &DownloadItem, proxy_id: &str) -> (r: bool)
    ensures
        r == assigned_to(*item, proxy_id@),
{
    match &item.source.proxy {
        ProxySelection::Profile { profile_id } => str_equal(profile_id.as_str(), proxy_id),
        ProxySelection::Direct => false,
    }
}

/// Finds whether some download goes through the proxy profile; with
/// `pending_only`, only unfinished downloads count.
fn proxy_in_use(downloads: &Vec<DownloadItem>, proxy_id: &str, pending_only: bool) -> (r: bool)
    ensures
        pending_only ==> r == pending_assignment(downloads@, proxy_id@),
        !pending_only ==> r == any_assignment(downloads@, proxy_id@),
{
    let mut i: usize = 0;
    while i < downloads.len()
        invariant
            i <= downloads@.len(),
            forall|j: int|
                0 <= j < i ==> !((!pending_only || !(downloads@[j].state is Completed))
                    && assigned_to(#[trigger] downloads@[j], proxy_id@)),
        decreases downloads@.len() - i,
    {
        let counts = !pending_only || !matches!(downloads[i].state, DownloadState::Completed { .. });
        if counts && is_assigned_to(&downloads[i], proxy_id) {
            return true;
        }
        i = i + 1;
    }
    false
}

/// Two health reports that say the same.
pub open spec fn same_health(a: ProxyHealth, b: ProxyHealth) -> bool {
    match (a, b) {
        (ProxyHealth::Untested, ProxyHealth::Untested) => true,
        (ProxyHealth::Checking, ProxyHealth::Checking) => true,
        (ProxyHealth::Online { latency_ms: x }, ProxyHealth::Online { latency_ms: y }) => x == y,
        (ProxyHealth::Offline { reason: x }, ProxyHealth::Offline { reason: y }) => x@ == y@,
        _ => false,
    }
}

/// Two proxy profiles that say the same.
pub open spec fn same_proxy(a: ProxyProfile, b: ProxyProfile) -> bool {
    &&& a.id@ == b.id@
    &&& a.name@ == b.name@
    &&& a.url@ == b.url@
    &&& a.enabled == b.enabled
    &&& same_health(a.health, b.health)
}

/// Two lists of proxy profiles that say the same, in the same order.
pub open spec fn same_proxies(a: Seq<ProxyProfile>, b: Seq<ProxyProfile>) -> bool {
    &&& a.len() == b.len()
    &&& forall|i: int| 0 <= i < a.len() ==> same_proxy(a[i], #[trigger] b[i])
}

fn copy_health(h: &ProxyHealth) -> (r: ProxyHealth)
    ensures
        same_health(*h, r),
{
    match h {
        ProxyHealth::Untested => ProxyHealth::Untested,
        ProxyHealth::Checking => ProxyHealth::Checking,
        ProxyHealth::Online { latency_ms } => ProxyHealth::Online { latency_ms: *latency_ms },
        ProxyHealth::Offline { reason } => ProxyHealth::Offline { reason: reason.clone() },
    }
}

fn copy_proxy(p: &ProxyProfile) -> (r: ProxyProfile)
    ensures
        same_proxy(*p, r),
{
    ProxyProfile {
        id: p.id.clone(),
        name: p.name.clone(),
        url: p.url.clone(),
        enabled: p.enabled,
        health: copy_health(&p.health),
    }
}

/// A copy of a list of proxy profiles.
pub fn copy_proxies(v: &Vec<ProxyProfile>) -> (r: Vec<ProxyProfile>)
    ensures
        same_proxies(v@, r@),
{
    let mut r: Vec<ProxyProfile> = Vec::new();
    let mut i: usize = 0;
    while i < v.len()
        invariant
            i <= v@.len(),
            r@.len() == i,
            forall|j: int| 0 <= j < i ==> same_proxy(v@[j], #[trigger] r@[j]),
        decreases v@.len() - i,
    {
        r.push(copy_proxy(&v[i]));
        i = i + 1;
    }
    r
}

/// A profile as it is stored when saved: its health is not known yet.
pub open spec fn untested(p: ProxyProfile) -> ProxyProfile {
    ProxyProfile { id: p.id, name: p.name, url: p.url, enabled: p.enabled, health: ProxyHealth::Untested }
}

/// Saves a proxy profile: it replaces the first profile with the same
/// identifier, or joins the end of the list. A profile cannot be disabled
/// while an unfinished download goes through it. Returns the profiles as
/// they were before.
pub fn save_proxy(state: &mut AppSnapshot, proxy: ProxyProfile) -> (r: Result<
    Vec<ProxyProfile>,
    AppError,
>)
    requires
        old(state).revision < u64::MAX,
    ensures
        match spec_proxy_error(proxy) {
            Some(m) => r matches Err(AppError::Validation(e)) && e@ == m && *final(state) == *old(
                state,
            ),
            None => if !proxy.enabled && pending_assignment(old(state).downloads@, proxy.id@) {
                r matches Err(AppError::Validation(e))
                    && e@ == "El proxy está asignado a una descarga pendiente y no puede desactivarse"@
                    && *final(state) == *old(state)
            } else {
                &&& r matches Ok(previous) && same_proxies(old(state).proxies@, previous@)
                &&& final(state).downloads == old(state).downloads
                &&& final(state).settings == old(state).settings
                &&& final(state).revision == old(state).revision + 1
                &&& match first_proxy(old(state).proxies@, proxy.id@) {
                    Some(k) => final(state).proxies@ == old(state).proxies@.update(k, untested(proxy)),
                    None => final(state).proxies@ == old(state).proxies@.push(untested(proxy)),
                }
            },
        },
{
    match validate_proxy(&proxy) {
        Ok(()) => {},
        Err(e) => return Err(e),
    }
    let mut proxy = proxy;
    proxy.health = ProxyHealth::Untested;
    if !proxy.enabled && proxy_in_use(&state.downloads, proxy.id.as_str(), true) {
        return Err(
            AppError::Validation(
                "El proxy está asignado a una descarga pendiente y no puede desactivarse".to_owned(),
            ),
        );
    }
    let previous = copy_proxies(&state.proxies);
    match find_proxy(&state.proxies, proxy.id.as_str()) {
        Some(k) => {
            state.proxies.set(k, proxy);
        },
        None => {
            state.proxies.push(proxy);
        },
    }
    state.revision = state.revision + 1;
    Ok(previous)
}

/// Puts back the proxy profiles that a change could not store.
pub fn restore_proxies(state: &mut AppSnapshot, previous: Vec<ProxyProfile>)
    requires
        old(state).revision < u64::MAX,
    ensures
        final(state).proxies == previous,
        final(state).downloads == old(state).downloads,
        final(state).settings == old(state).settings,
        final(state).revision == old(state).revision + 1,
{
    state.proxies = previous;
    state.revision = state.revision + 1;
}

/// The profiles of a list whose identifier is not `id`, in their order.
pub open spec fn without_proxy(s: Seq<ProxyProfile>, id: Seq<char>) -> Seq<ProxyProfile>
    decreases s.len(),
{
    if s.len() == 0 {
        s
    } else {
        let rest = without_proxy(s.subrange(1, s.len() as int), id);
        if s[0].id@ == id {
            rest
        } else {
            seq![s[0]] + rest
        }
    }
}

/// Deletes every proxy profile with this identifier, unless a download goes
/// through it. Returns the profiles as they were before.
pub fn remove_proxy(state: &mut AppSnapshot, id: &str) -> (r: Result<Vec<ProxyProfile>, AppError>)
    requires
        old(state).revision < u64::MAX,
    ensures
        if any_assignment(old(state).downloads@, id@) {
            r matches Err(AppError::Validation(e))
                && e@ == "El proxy está asignado a una descarga y no puede eliminarse"@
                && *final(state) == *old(state)
        } else if first_proxy(old(state).proxies@, id@) is None {
            r matches Err(AppError::ProxyNotFound) && *final(state) == *old(state)
        } else {
            &&& r matches Ok(previous) && same_proxies(old(state).proxies@, previous@)
            &&& final(state).proxies@ == without_proxy(old(state).proxies@, id@)
            &&& final(state).downloads == old(state).downloads
            &&& final(state).settings == old(state).settings
            &&& final(state).revision == old(state).revision + 1
        },
{
    if proxy_in_use(&state.downloads, id, false) {
        return Err(
            AppError::Validation(
                "El proxy está asignado a una descarga y no puede eliminarse".to_owned(),
            ),
        );
    }
    if find_proxy(&state.proxies, id).is_none() {
        return Err(AppError::ProxyNotFound);
    }
    let previous = copy_proxies(&state.proxies);
    let ghost start = state.proxies@;
    let ghost n = start.len() as int;
    let mut j: usize = state.proxies.len();
    while j > 0
        invariant
            j <= n,
            n == start.len(),
            start == old(state).proxies@,
            state.proxies@ == start.subrange(0, j as int) + without_proxy(start.subrange(j as int, n), id@),
            state.downloads == old(state).downloads,
            state.settings == old(state).settings,
            state.revision == old(state).revision,
        decreases j,
    {
        let ghost tail = start.subrange(j as int, n);
        let ghost w = without_proxy(tail, id@);
        let ghost s = start.subrange(j - 1, n);
        proof {
            assert(s.subrange(1, s.len() as int) =~= tail);
            assert(s[0] == start[j - 1]);
        }
        if str_equal(state.proxies[j - 1].id.as_str(), id) {
            proof {
                assert(state.proxies@[j - 1] == start[j - 1]);
            }
            state.proxies.remove(j - 1);
            proof {
                assert(state.proxies@ =~= start.subrange(0, j - 1) + w);
            }
        } else {
            proof {
                assert(state.proxies@[j - 1] == start[j - 1]);
                assert(start.subrange(0, j as int) + w =~= start.subrange(0, j - 1) + (seq![
                    start[j - 1],
                ] + w));
            }
        }
        j = j - 1;
    }
    proof {
        assert(start.subrange(0, n) =~= start);
        assert(state.proxies@ =~= without_proxy(start, id@));
    }
    state.revision = state.revision + 1;
    Ok(previous)
}

/// `b` is `a` with only the proxy profile at `k` changed, and one revision later.
pub open spec fn changed_proxy(a: AppSnapshot, b: AppSnapshot, k: int) -> bool {
    &&& b.revision == a.revision + 1
    &&& b.downloads == a.downloads
    &&& b.settings == a.settings
    &&& b.proxies@.len() == a.proxies@.len()
    &&& forall|j: int| 0 <= j < a.proxies@.len() && j != k ==> #[trigger] b.proxies@[j] == a.proxies@[j]
    &&& b.proxies@[k].id == a.proxies@[k].id
    &&& b.proxies@[k].name == a.proxies@[k].name
    &&& b.proxies@[k].url == a.proxies@[k].url
    &&& b.proxies@[k].enabled == a.proxies@[k].enabled
}

/// Starts a health check of a proxy profile: a disabled profile is marked
/// offline at once and there is nothing to probe (`None`); an enabled one
/// is marked as being checked, and its URL is returned for the probe.
pub fn begin_proxy_check(state: &mut AppSnapshot, id: &str) -> (r: Result<Option<String>, AppError>)
    requires
        old(state).revision < u64::MAX,
    ensures
        match first_proxy(old(state).proxies@, id@) {
            None => r matches Err(AppError::ProxyNotFound) && *final(state) == *old(state),
            Some(k) => {
                &&& changed_proxy(*old(state), *final(state), k)
                &&& if old(state).proxies@[k].enabled {
                    &&& final(state).proxies@[k].health is Checking
                    &&& r matches Ok(Some(u)) && u@ == old(state).proxies@[k].url@
                } else {
                    &&& final(state).proxies@[k].health matches ProxyHealth::Offline { reason }
                        && reason@ == "El perfil está desactivado"@
                    &&& r matches Ok(None)
                }
            },
        },
{
    let k = match find_proxy(&state.proxies, id) {
        Some(k) => k,
        None => return Err(AppError::ProxyNotFound),
    };
    if !state.proxies[k].enabled {
        state.proxies[k].health = ProxyHealth::Offline { reason: "El perfil está desactivado".to_owned() };
        state.revision = state.revision + 1;
        return Ok(None);
    }
    state.proxies[k].health = ProxyHealth::Checking;
    let url = state.proxies[k].url.clone();
    state.revision = state.revision + 1;
    Ok(Some(url))
}

/// Records the health that a check of a proxy profile found.
pub fn finish_proxy_check(state: &mut AppSnapshot, id: &str, health: ProxyHealth) -> (r: Result<
    (),
    AppError,
>)
    requires
        old(state).revision < u64::MAX,
    ensures
        match first_proxy(old(state).proxies@, id@) {
            None => r matches Err(AppError::ProxyNotFound) && *final(state) == *old(state),
            Some(k) => r is Ok && changed_proxy(*old(state), *final(state), k)
                && final(state).proxies@[k].health == health,
        },
{
    let k = match find_proxy(&state.proxies, id) {
        Some(k) => k,
        None => return Err(AppError::ProxyNotFound),
    };
    state.proxies[k].health = health;
    state.revision = state.revision + 1;
    Ok(())
}

/// What probing a proxy found: its URL was refused, no connection could be
/// made through it, or a reply came with an HTTP status after some time.
#[derive(Clone, Copy, Debug)]
pub enum ProxyProbe {
    InvalidUrl,
    NoConnection,
    Replied { status: u16, latency_ms: u64 },
}

/// The health that a probe shows: online with its latency when the reply
/// was a success (a 2xx status), offline with the reason otherwise.
pub fn proxy_check_outcome(probe: ProxyProbe) -> (r: ProxyHealth)
    ensures
        match probe {
            ProxyProbe::InvalidUrl => r matches ProxyHealth::Offline { reason } && reason@
                == "La URL del proxy no es válida"@,
            ProxyProbe::NoConnection => r matches ProxyHealth::Offline { reason } && reason@
                == "No se pudo establecer conexión"@,
            ProxyProbe::Replied { status, latency_ms } => if 200 <= status < 300 {
                r == (ProxyHealth::Online { latency_ms })
            } else {
                r matches ProxyHealth::Offline { reason } && reason@ == "El proxy respondió HTTP "@
                    + decimal_text(status as nat)
            },
        },
{
    match probe {
        ProxyProbe::InvalidUrl => ProxyHealth::Offline { reason: "La URL del proxy no es válida".to_owned() },
        ProxyProbe::NoConnection => ProxyHealth::Offline { reason: "No se pudo establecer conexión".to_owned() },
        ProxyProbe::Replied { status, latency_ms } => {
            if 200 <= status && status < 300 {
                ProxyHealth::Online { latency_ms }
            } else {
                let mut reason = "El proxy respondió HTTP ".to_owned();
                push_decimal(&mut reason, status as u64);
                ProxyHealth::Offline { reason }
            }
        },
    }
}

/// Whether an identifier is among those of transfers that are starting,
/// running or stopping.
pub open spec fn is_blocked(blocked: Seq<String>, id: Seq<char>) -> bool {
    exists|k: int| 0 <= k < blocked.len() && (#[trigger] blocked[k])@ == id
}

/// A download that may start now: it waits in the queue and no transfer of
/// it is starting, running or stopping.
pub open spec fn runnable(item: DownloadItem, blocked: Seq<String>) -> bool {
    item.state is Queued && !is_blocked(blocked, item.id@)
}

fn blocked_contains(blocked: &Vec<String>, id: &str) -> (r: bool)
    ensures
        r == is_blocked(blocked@, id@),
{
    let mut k: usize = 0;
    while k < blocked.len()
        invariant
            k <= blocked@.len(),
            forall|j: int| 0 <= j < k ==> (#[trigger] blocked@[j])@ != id@,
        decreases blocked@.len() - k,
    {
        if str_equal(blocked[k].as_str(), id) {
            return true;
        }
        k = k + 1;
    }
    false
}

/// The download the scheduler starts next, given the identifiers of the
/// transfers that are starting, running or stopping and how many there are:
/// none while that number has reached the limit of simultaneous downloads,
/// else the first download that may start.
pub fn next_job(state: &AppSnapshot, blocked: &Vec<String>, active: usize) -> (r: Option<usize>)
    ensures
        r is None <==> (active >= state.settings.max_concurrent || forall|j: int|
            0 <= j < state.downloads@.len() ==> !runnable(#[trigger] state.downloads@[j], blocked@)),
        r matches Some(i) ==> {
            &&& i < state.downloads@.len()
            &&& runnable(state.downloads@[i as int], blocked@)
            &&& forall|j: int| 0 <= j < i ==> !runnable(#[trigger] state.downloads@[j], blocked@)
        },
{
    if active >= state.settings.max_concurrent as usize {
        return None;
    }
    let mut i: usize = 0;
    while i < state.downloads.len()
        invariant
            i <= state.downloads@.len(),
            active < state.settings.max_concurrent,
            forall|j: int| 0 <= j < i ==> !runnable(#[trigger] state.downloads@[j], blocked@),
        decreases state.downloads@.len() - i,
    {
        if matches!(state.downloads[i].state, DownloadState::Queued) && !blocked_contains(
            blocked,
            state.downloads[i].id.as_str(),
        ) {
            return Some(i);
        }
        i = i + 1;
    }
    None
}

/// A download whose transfer is starting at `now`.
pub open spec fn started_download(a: DownloadItem, b: DownloadItem, now: i64) -> bool {
    &&& same_download_apart_from_state(a, b)
    &&& b.state == (DownloadState::Downloading { speed_bytes: 0 })
    &&& b.telemetry.phase == TransferPhase::Preparing
    &&& b.telemetry.mode == a.telemetry.mode
    &&& b.telemetry.segments == a.telemetry.segments
    &&& b.updated_at == now
}

fn start_download(item: &mut DownloadItem, now: i64)
    ensures
        started_download(*old(item), *final(item), now),
{
    item.state = DownloadState::Downloading { speed_bytes: 0 };
    item.telemetry.phase = TransferPhase::Preparing;
    item.updated_at = now;
}

/// Marks a queued download as downloading at `now`, when its transfer is
/// about to start. Returns whether it was still queued.
pub fn mark_downloading(state: &mut AppSnapshot, id: &str, now: i64) -> (r: bool)
    requires
        old(state).revision < u64::MAX,
    ensures
        match first_download(old(state).downloads@, id@) {
            Some(i) => if old(state).downloads@[i].state is Queued {
                r && changed_download(*old(state), *final(state), i) && started_download(
                    old(state).downloads@[i],
                    final(state).downloads@[i],
                    now,
                )
            } else {
                !r && *final(state) == *old(state)
            },
            None => !r && *final(state) == *old(state),
        },
{
    let i = match find_download(state, id) {
        Ok(i) => i,
        Err(_) => return false,
    };
    if !matches!(state.downloads[i].state, DownloadState::Queued) {
        return false;
    }
    start_download(&mut state.downloads[i], now);
    state.revision = state.revision + 1;
    true
}

/// A download that failed at `now` with this message, its telemetry as it was.
pub open spec fn failed_download(
    a: DownloadItem,
    b: DownloadItem,
    message: String,
    recoverable: bool,
    now: i64,
) -> bool {
    &&& same_download_apart_from_state(a, b)
    &&& b.telemetry == a.telemetry
    &&& b.state == (DownloadState::Failed { message, recoverable })
    &&& b.updated_at == now
}

fn fail_download(item: &mut DownloadItem, message: String, recoverable: bool, now: i64)
    ensures
        failed_download(*old(item), *final(item), message, recoverable, now),
{
    item.state = DownloadState::Failed { message, recoverable };
    item.updated_at = now;
}

/// Marks a download as failed at `now`, when its state could not be stored
/// or its destination could not be reserved. Returns the new revision.
pub fn mark_failed(
    state: &mut AppSnapshot,
    id: &str,
    message: String,
    recoverable: bool,
    now: i64,
) -> (r: Option<u64>)
    requires
        old(state).revision < u64::MAX,
    ensures
        match first_download(old(state).downloads@, id@) {
            None => r is None && *final(state) == *old(state),
            Some(i) => r == Some(final(state).revision) && changed_download(
                *old(state),
                *final(state),
                i,
            ) && failed_download(
                old(state).downloads@[i],
                final(state).downloads@[i],
                message,
                recoverable,
                now,
            ),
        },
{
    let i = match find_download(state, id) {
        Ok(i) => i,
        Err(_) => return None,
    };
    fail_download(&mut state.downloads[i], message, recoverable, now);
    state.revision = state.revision + 1;
    Some(state.revision)
}

/// The index of the first queued download.
pub open spec fn first_queued(downloads: Seq<DownloadItem>) -> Option<int> {
    if exists|i: int| 0 <= i < downloads.len() && (#[trigger] downloads[i]).state is Queued {
        Some(
            choose|i: int|
                0 <= i < downloads.len() && (#[trigger] downloads[i]).state is Queued && forall|
                    j: int,
                | 0 <= j < i ==> !((#[trigger] downloads[j]).state is Queued),
        )
    } else {
        None
    }
}

proof fn lemma_first_queued(downloads: Seq<DownloadItem>, i: int)
    requires
        0 <= i < downloads.len(),
        downloads[i].state is Queued,
        forall|j: int| 0 <= j < i ==> !((#[trigger] downloads[j]).state is Queued),
    ensures
        first_queued(downloads) == Some(i),
{
    let w = choose|w: int|
        0 <= w < downloads.len() && (#[trigger] downloads[w]).state is Queued && forall|j: int|
            0 <= j < w ==> !((#[trigger] downloads[j]).state is Queued);
    assert(downloads[i].state is Queued);
    if w < i {
        assert(!(downloads[w].state is Queued));
    }
    if w > i {
        assert(!(downloads[i].state is Queued));
    }
}

/// Fails the first queued download at `now` with a message that a retry may
/// get past, when the scheduler cannot start it. Returns the new revision,
/// or `None` when nothing is queued.
pub fn fail_first_queued(state: &mut AppSnapshot, message: String, now: i64) -> (r: Option<u64>)
    requires
        old(state).revision < u64::MAX,
    ensures
        match first_queued(old(state).downloads@) {
            None => r is None && *final(state) == *old(state),
            Some(i) => r == Some(final(state).revision) && changed_download(
                *old(state),
                *final(state),
                i,
            ) && failed_download(
                old(state).downloads@[i],
                final(state).downloads@[i],
                message,
                true,
                now,
            ),
        },
{
    let mut i: usize = 0;
    while i < state.downloads.len()
        invariant
            i <= state.downloads@.len(),
            *state == *old(state),
            state.revision < u64::MAX,
            forall|j: int| 0 <= j < i ==> !((#[trigger] state.downloads@[j]).state is Queued),
        decreases state.downloads@.len() - i,
    {
        if matches!(state.downloads[i].state, DownloadState::Queued) {
            proof {
                lemma_first_queued(state.downloads@, i as int);
            }
            fail_download(&mut state.downloads[i], message, true, now);
            state.revision = state.revision + 1;
            return Some(state.revision);
        }
        i = i + 1;
    }
    None
}

/// A download whose transfer finished at `now` with this report.
pub open spec fn completed_download(
    a: DownloadItem,
    b: DownloadItem,
    output: EngineOutput,
    now: i64,
) -> bool {
    &&& same_request(a, b)
    &&& b.source == a.source
    &&& b.transfer == (TransferProgress {
        downloaded_bytes: output.downloaded_bytes,
        size: output.size,
        validator: output.validator,
        resume: output.resume,
    })
    &&& b.telemetry == output.telemetry
    &&& b.state == (DownloadState::Completed { completed_at: now })
    &&& b.updated_at == now
}

fn complete_download(item: &mut DownloadItem, output: EngineOutput, now: i64)
    ensures
        completed_download(*old(item), *final(item), output, now),
{
    let EngineOutput { downloaded_bytes, size, validator, resume, telemetry } = output;
    item.transfer = TransferProgress { downloaded_bytes, size, validator, resume };
    item.telemetry = telemetry;
    item.state = DownloadState::Completed { completed_at: now };
    item.updated_at = now;
}

/// Records a finished transfer at `now`.
pub fn apply_completion(state: &mut AppSnapshot, id: &str, output: EngineOutput, now: i64)
    requires
        old(state).revision < u64::MAX,
    ensures
        match first_download(old(state).downloads@, id@) {
            None => *final(state) == *old(state),
            Some(i) => changed_download(*old(state), *final(state), i) && completed_download(
                old(state).downloads@[i],
                final(state).downloads@[i],
                output,
                now,
            ),
        },
{
    if let Ok(i) = find_download(state, id) {
        complete_download(&mut state.downloads[i], output, now);
        state.revision = state.revision + 1;
    }
}

/// A segment of a transfer that stopped on an error: its speed drops to zero
/// and, unless it had finished or failed on its own, it shows as stopped.
pub open spec fn stopped_segment(a: SegmentProgress, b: SegmentProgress) -> bool {
    &&& same_segment_place(a, b)
    &&& b.speed_bytes == 0
    &&& b.state == (if a.state == SegmentState::Pending || a.state == SegmentState::Connecting
        || a.state == SegmentState::Downloading {
        SegmentState::Stopped
    } else {
        a.state
    })
    &&& b.error == a.error
}

/// A download whose transfer failed at `now`: failed with the message, its
/// telemetry idle and its live segments stopped.
pub open spec fn failed_transfer(
    a: DownloadItem,
    b: DownloadItem,
    message: String,
    recoverable: bool,
    now: i64,
) -> bool {
    &&& same_download_apart_from_state(a, b)
    &&& b.state == (DownloadState::Failed { message, recoverable })
    &&& b.telemetry.phase == TransferPhase::Idle
    &&& b.telemetry.mode == a.telemetry.mode
    &&& b.telemetry.segments@.len() == a.telemetry.segments@.len()
    &&& forall|k: int|
        0 <= k < a.telemetry.segments@.len() ==> stopped_segment(
            a.telemetry.segments@[k],
            #[trigger] b.telemetry.segments@[k],
        )
    &&& b.updated_at == now
}

fn stop_failed_transfer(item: &mut DownloadItem, message: String, recoverable: bool, now: i64)
    ensures
        failed_transfer(*old(item), *final(item), message, recoverable, now),
{
    item.state = DownloadState::Failed { message, recoverable };
    item.telemetry.phase = TransferPhase::Idle;
    let ghost start = item.telemetry.segments@;
    let mut k: usize = 0;
    while k < item.telemetry.segments.len()
        invariant
            k <= start.len(),
            start == old(item).telemetry.segments@,
            item.telemetry.segments@.len() == start.len(),
            forall|j: int| 0 <= j < k ==> stopped_segment(start[j], #[trigger] item.telemetry.segments@[j]),
            forall|j: int| k <= j < start.len() ==> #[trigger] item.telemetry.segments@[j] == start[j],
            item.telemetry.phase == TransferPhase::Idle,
            item.telemetry.mode == old(item).telemetry.mode,
            same_download_apart_from_state(*old(item), *item),
            item.state == (DownloadState::Failed { message, recoverable }),
            item.updated_at == old(item).updated_at,
        decreases start.len() - k,
    {
        item.telemetry.segments[k].speed_bytes = 0;
        let current = item.telemetry.segments[k].state;
        if current == SegmentState::Pending || current == SegmentState::Connecting || current
            == SegmentState::Downloading {
            item.telemetry.segments[k].state = SegmentState::Stopped;
        }
        k = k + 1;
    }
    item.updated_at = now;
}

/// Records at `now` that the transfer of a running download failed.
/// Returns whether the download was still running; one that was paused or
/// removed meanwhile stays as it is.
pub fn apply_failure(
    state: &mut AppSnapshot,
    id: &str,
    message: String,
    recoverable: bool,
    now: i64,
) -> (r: bool)
    requires
        old(state).revision < u64::MAX,
    ensures
        match first_download(old(state).downloads@, id@) {
            Some(i) => if old(state).downloads@[i].state is Downloading {
                r && changed_download(*old(state), *final(state), i) && failed_transfer(
                    old(state).downloads@[i],
                    final(state).downloads@[i],
                    message,
                    recoverable,
                    now,
                )
            } else {
                !r && *final(state) == *old(state)
            },
            None => !r && *final(state) == *old(state),
        },
{
    let i = match find_download(state, id) {
        Ok(i) => i,
        Err(_) => return false,
    };
    if !matches!(state.downloads[i].state, DownloadState::Downloading { .. }) {
        return false;
    }
    stop_failed_transfer(&mut state.downloads[i], message, recoverable, now);
    state.revision = state.revision + 1;
    true
}

/// Whether a report tells something new about the source's identity: a
/// validator where none was known, or a size where it was unknown.
pub open spec fn identity_changed(t: TransferProgress, p: EngineProgress) -> bool {
    (t.validator is Absent && !(p.validator is Absent)) || (t.size is Unknown && p.size is Known)
}

/// A running download after a progress report at `now`.
pub open spec fn progressed_download(
    a: DownloadItem,
    b: DownloadItem,
    p: EngineProgress,
    now: i64,
) -> bool {
    &&& same_request(a, b)
    &&& b.source == a.source
    &&& b.transfer == (TransferProgress {
        downloaded_bytes: p.downloaded_bytes,
        size: p.size,
        validator: p.validator,
        resume: p.resume,
    })
    &&& b.telemetry == p.telemetry
    &&& b.state == (DownloadState::Downloading { speed_bytes: p.speed_bytes })
    &&& b.updated_at == now
}

/// A download that is no longer running, after a late report at `now`: it
/// learns the size and validator it did not know, and whether the source
/// resumes.
pub open spec fn identified_download(
    a: DownloadItem,
    b: DownloadItem,
    p: EngineProgress,
    now: i64,
) -> bool {
    &&& same_request(a, b)
    &&& b.source == a.source
    &&& b.state == a.state
    &&& b.telemetry == a.telemetry
    &&& b.transfer.downloaded_bytes == a.transfer.downloaded_bytes
    &&& b.transfer.size == (if a.transfer.size is Unknown {
        p.size
    } else {
        a.transfer.size
    })
    &&& b.transfer.validator == (if a.transfer.validator is Absent {
        p.validator
    } else {
        a.transfer.validator
    })
    &&& b.transfer.resume == p.resume
    &&& b.updated_at == now
}

fn record_progress(item: &mut DownloadItem, progress: EngineProgress, now: i64)
    requires
        old(item).state is Downloading,
    ensures
        progressed_download(*old(item), *final(item), progress, now),
{
    let EngineProgress { downloaded_bytes, size, validator, resume, speed_bytes, telemetry } =
        progress;
    item.transfer = TransferProgress { downloaded_bytes, size, validator, resume };
    item.telemetry = telemetry;
    item.state = DownloadState::Downloading { speed_bytes };
    item.updated_at = now;
}

fn record_identity(item: &mut DownloadItem, progress: EngineProgress, now: i64)
    ensures
        identified_download(*old(item), *final(item), progress, now),
{
    let EngineProgress { size, validator, resume, .. } = progress;
    if matches!(item.transfer.size, TransferSize::Unknown) {
        item.transfer.size = size;
    }
    if matches!(item.transfer.validator, SourceValidator::Absent) {
        item.transfer.validator = validator;
    }
    item.transfer.resume = resume;
    item.updated_at = now;
}

/// Records at `now` a progress report of a transfer. A running download
/// takes the whole report; one that stopped meanwhile keeps only what the
/// report tells of the source's identity. Returns whether the report told
/// something new of that identity, or `None` when nothing changed.
pub fn apply_progress(state: &mut AppSnapshot, id: &str, progress: EngineProgress, now: i64) -> (r:
    Option<bool>)
    requires
        old(state).revision < u64::MAX,
    ensures
        match first_download(old(state).downloads@, id@) {
            None => r is None && *final(state) == *old(state),
            Some(i) => {
                let a = old(state).downloads@[i];
                let fresh = identity_changed(a.transfer, progress);
                if a.state is Downloading {
                    r == Some(fresh) && changed_download(*old(state), *final(state), i)
                        && progressed_download(a, final(state).downloads@[i], progress, now)
                } else if fresh {
                    r == Some(true) && changed_download(*old(state), *final(state), i)
                        && identified_download(a, final(state).downloads@[i], progress, now)
                } else {
                    r is None && *final(state) == *old(state)
                }
            },
        },
{
    let i = match find_download(state, id) {
        Ok(i) => i,
        Err(_) => return None,
    };
    let fresh = (matches!(state.downloads[i].transfer.validator, SourceValidator::Absent)
        && !matches!(progress.validator, SourceValidator::Absent)) || (matches!(
        state.downloads[i].transfer.size,
        TransferSize::Unknown,
    ) && matches!(progress.size, TransferSize::Known { .. }));
    if matches!(state.downloads[i].state, DownloadState::Downloading { .. }) {
        record_progress(&mut state.downloads[i], progress, now);
    } else if fresh {
        record_identity(&mut state.downloads[i], progress, now);
    } else {
        return None;
    }
    state.revision = state.revision + 1;
    Some(fresh)
}

/// The sum of the lengths of a download's segment files.
pub open spec fn sum_lengths(s: Seq<u64>) -> nat
    decreases s.len(),
{
    if s.len() == 0 {
        0
    } else {
        sum_lengths(s.drop_last()) + s.last() as nat
    }
}

/// The bytes that the segment files hold together, counted up to the
/// largest `u64`.
pub open spec fn segmented_total(lengths: Seq<u64>) -> int {
    if sum_lengths(lengths) < u64::MAX {
        sum_lengths(lengths) as int
    } else {
        u64::MAX as int
    }
}

/// The bytes the partial files hold: the single-stream partial or the
/// segment files, whichever holds more.
pub open spec fn stored_total(single: u64, lengths: Seq<u64>) -> int {
    if single >= segmented_total(lengths) {
        single as int
    } else {
        segmented_total(lengths)
    }
}

fn segmented_bytes(lengths: &Vec<u64>) -> (r: u64)
    ensures
        r == segmented_total(lengths@),
{
    let mut acc: u64 = 0;
    let mut i: usize = 0;
    while i < lengths.len()
        invariant
            i <= lengths@.len(),
            acc == segmented_total(lengths@.subrange(0, i as int)),
        decreases lengths@.len() - i,
    {
        proof {
            assert(lengths@.subrange(0, i + 1).drop_last() =~= lengths@.subrange(0, i as int));
        }
        acc = acc.saturating_add(lengths[i]);
        i = i + 1;
    }
    proof {
        assert(lengths@.subrange(0, lengths@.len() as int) =~= lengths@);
    }
    acc
}

/// The length that the stored files show for a segment: the single-stream
/// partial when it holds bytes, else the segment's own file when there is
/// one, else what the segment recorded.
pub open spec fn stored_length(seg: SegmentProgress, single: u64, lengths: Seq<u64>) -> u64 {
    if single > 0 {
        single
    } else if (seg.index as int) < lengths.len() {
        lengths[seg.index as int]
    } else {
        seg.downloaded_bytes
    }
}

/// The number of bytes a segment covers, when its end is known.
pub open spec fn expected_length(seg: SegmentProgress) -> Option<int> {
    match seg.end_byte {
        Some(end) => Some(
            (if end >= seg.start_byte {
                end - seg.start_byte
            } else {
                0
            }) + 1,
        ),
        None => None,
    }
}

/// A segment whose length can be counted in a `u64`: it does not span every
/// byte offset.
pub open spec fn segment_fits(seg: SegmentProgress) -> bool {
    !(seg.start_byte == 0 && seg.end_byte == Some(u64::MAX))
}

/// The progress a segment shows after its files were measured: what is
/// stored, but no more than the segment covers.
pub open spec fn reconciled_bytes(seg: SegmentProgress, single: u64, lengths: Seq<u64>) -> int {
    let stored = stored_length(seg, single, lengths);
    match expected_length(seg) {
        Some(t) => if stored < t {
            stored as int
        } else {
            t
        },
        None => stored as int,
    }
}

/// A segment after its files were measured: complete when it holds every
/// byte it covers; otherwise failed if it failed in a failed download,
/// stopped in a failed download, and paused in any other.
pub open spec fn reconciled_segment(
    a: SegmentProgress,
    b: SegmentProgress,
    single: u64,
    lengths: Seq<u64>,
    failed: bool,
) -> bool {
    &&& b.index == a.index
    &&& b.start_byte == a.start_byte
    &&& b.end_byte == a.end_byte
    &&& b.last_activity_at == a.last_activity_at
    &&& b.error == a.error
    &&& b.downloaded_bytes == reconciled_bytes(a, single, lengths)
    &&& b.speed_bytes == 0
    &&& b.state == (if expected_length(a) == Some(b.downloaded_bytes as int) {
        SegmentState::Completed
    } else if failed && a.state == SegmentState::Failed {
        SegmentState::Failed
    } else if failed {
        SegmentState::Stopped
    } else {
        SegmentState::Paused
    })
}

/// Whether measuring the files changes what a download records: the stored
/// total differs from the recorded progress, or some partial file holds bytes.
pub open spec fn measurement_changes(a: DownloadItem, single: u64, lengths: Seq<u64>) -> bool {
    stored_total(single, lengths) != a.transfer.downloaded_bytes || single > 0 || segmented_total(
        lengths,
    ) > 0
}

/// A download after its partial files were measured at `now`.
pub open spec fn reconciled_download(
    a: DownloadItem,
    b: DownloadItem,
    single: u64,
    lengths: Seq<u64>,
    now: i64,
) -> bool {
    &&& same_request(a, b)
    &&& b.source == a.source
    &&& b.state == a.state
    &&& b.transfer.downloaded_bytes == stored_total(single, lengths)
    &&& b.transfer.size == a.transfer.size
    &&& b.transfer.validator == a.transfer.validator
    &&& b.transfer.resume == a.transfer.resume
    &&& b.telemetry.phase == TransferPhase::Idle
    &&& b.telemetry.mode == a.telemetry.mode
    &&& b.telemetry.segments@.len() == a.telemetry.segments@.len()
    &&& forall|k: int|
        0 <= k < a.telemetry.segments@.len() ==> reconciled_segment(
            a.telemetry.segments@[k],
            #[trigger] b.telemetry.segments@[k],
            single,
            lengths,
            a.state is Failed,
        )
    &&& b.updated_at == now
}

fn reconcile_segment(seg: &mut SegmentProgress, single: u64, lengths: &Vec<u64>, failed: bool)
    requires
        segment_fits(*old(seg)),
    ensures
        reconciled_segment(*old(seg), *final(seg), single, lengths@, failed),
{
    let index = seg.index as usize;
    let stored = if single > 0 {
        single
    } else if index < lengths.len() {
        lengths[index]
    } else {
        seg.downloaded_bytes
    };
    let expected: Option<u64> = match seg.end_byte {
        Some(end) => Some(end.saturating_sub(seg.start_byte) + 1),
        None => None,
    };
    let bytes = match expected {
        Some(total) => if stored < total {
            stored
        } else {
            total
        },
        None => stored,
    };
    seg.downloaded_bytes = bytes;
    seg.speed_bytes = 0;
    let whole = match expected {
        Some(total) => total == bytes,
        None => false,
    };
    seg.state = if whole {
        SegmentState::Completed
    } else if failed && seg.state == SegmentState::Failed {
        SegmentState::Failed
    } else if failed {
        SegmentState::Stopped
    } else {
        SegmentState::Paused
    };
}

fn reconcile_download(item: &mut DownloadItem, single: u64, lengths: &Vec<u64>, total: u64, now: i64)
    requires
        total == stored_total(single, lengths@),
        forall|k: int|
            0 <= k < old(item).telemetry.segments@.len() ==> segment_fits(
                #[trigger] old(item).telemetry.segments@[k],
            ),
    ensures
        reconciled_download(*old(item), *final(item), single, lengths@, now),
{
    let failed = matches!(item.state, DownloadState::Failed { .. });
    item.transfer.downloaded_bytes = total;
    item.telemetry.phase = TransferPhase::Idle;
    let ghost start = item.telemetry.segments@;
    let mut k: usize = 0;
    while k < item.telemetry.segments.len()
        invariant
            k <= start.len(),
            start == old(item).telemetry.segments@,
            item.telemetry.segments@.len() == start.len(),
            failed == old(item).state is Failed,
            forall|j: int| 0 <= j < start.len() ==> segment_fits(#[trigger] start[j]),
            forall|j: int|
                0 <= j < k ==> reconciled_segment(
                    start[j],
                    #[trigger] item.telemetry.segments@[j],
                    single,
                    lengths@,
                    failed,
                ),
            forall|j: int| k <= j < start.len() ==> #[trigger] item.telemetry.segments@[j] == start[j],
            same_request(*old(item), *item),
            item.source == old(item).source,
            item.state == old(item).state,
            item.transfer.downloaded_bytes == total,
            item.transfer.size == old(item).transfer.size,
            item.transfer.validator == old(item).transfer.validator,
            item.transfer.resume == old(item).transfer.resume,
            item.telemetry.phase == TransferPhase::Idle,
            item.telemetry.mode == old(item).telemetry.mode,
        decreases start.len() - k,
    {
        reconcile_segment(&mut item.telemetry.segments[k], single, lengths, failed);
        k = k + 1;
    }
    item.updated_at = now;
}

/// Brings a stopped download's progress in line with its partial files at
/// `now`, given the length of the single-stream partial and of each segment
/// file (zero where there is none). A finished download, and one whose
/// files tell nothing new, stay as they are.
pub fn apply_stored_lengths(
    state: &mut AppSnapshot,
    id: &str,
    single: u64,
    segment_lengths: &Vec<u64>,
    now: i64,
) -> (r: Result<(), AppError>)
    requires
        old(state).revision < u64::MAX,
        first_download(old(state).downloads@, id@) matches Some(i) ==> forall|k: int|
            0 <= k < old(state).downloads@[i].telemetry.segments@.len() ==> segment_fits(
                #[trigger] old(state).downloads@[i].telemetry.segments@[k],
            ),
    ensures
        match first_download(old(state).downloads@, id@) {
            None => r matches Err(AppError::DownloadNotFound) && *final(state) == *old(state),
            Some(i) => r is Ok && if old(state).downloads@[i].state is Completed
                || !measurement_changes(old(state).downloads@[i], single, segment_lengths@) {
                *final(state) == *old(state)
            } else {
                changed_download(*old(state), *final(state), i) && reconciled_download(
                    old(state).downloads@[i],
                    final(state).downloads@[i],
                    single,
                    segment_lengths@,
                    now,
                )
            },
        },
{
    let i = find_download(state, id)?;
    if matches!(state.downloads[i].state, DownloadState::Completed { .. }) {
        return Ok(());
    }
    let segmented = segmented_bytes(segment_lengths);
    let total = if single >= segmented {
        single
    } else {
        segmented
    };
    if total == state.downloads[i].transfer.downloaded_bytes && single == 0 && segmented == 0 {
        return Ok(());
    }
    reconcile_download(&mut state.downloads[i], single, segment_lengths, total, now);
    state.revision = state.revision + 1;
    Ok(())
}

/// The category a file name calls for, read from its extension.
pub open spec fn file_category(file_name: Seq<char>) -> DownloadCategory {
    spec_category(
        match spec_extension(file_name) {
            Some(e) => lower_seq(e),
            None => Seq::empty(),
        },
    )
}

/// `dest` is the directory where downloads of `category` go by default.
pub open spec fn category_destination(
    settings: AppSettings,
    category: DownloadCategory,
    dest: Seq<char>,
) -> bool {
    if !settings.organize_by_category {
        dest == settings.download_directory@
    } else {
        single_component(spec_category_directory(settings, category)) || plain_relative(
            spec_category_directory(settings, category),
        ) ==> placed_under(
            settings.download_directory@,
            spec_category_directory(settings, category),
            dest,
        )
    }
}

/// Whether a new download should ask the server for its file name: its
/// name was not chosen by hand, it may use several connections, and the
/// name it has is a generic one.
pub fn wants_remote_file_name(input: &CreateDownloadInput) -> (r: bool)
    ensures
        r ==> !input.source.force_single_stream && !input.file_name_customized,
        no_separators(input.file_name@) ==> r == (!input.source.force_single_stream
            && !input.file_name_customized && spec_generic_name(Some(input.file_name@))),
{
    !input.source.force_single_stream && !input.file_name_customized && needs_remote_file_name(
        input.file_name.as_str(),
    )
}

/// Fills in what a new download did not choose by hand: the file name the
/// server suggested (`detected`, when it was asked), once made safe; the
/// category its file name calls for; and the directory of that category.
pub fn complete_input(input: CreateDownloadInput, settings: &AppSettings, detected: Option<&str>) -> (r:
    CreateDownloadInput)
    ensures
        r.source == input.source,
        r.file_name_customized == input.file_name_customized,
        r.category_customized == input.category_customized,
        r.destination_customized == input.destination_customized,
        r.threads == input.threads,
        r.speed_limit_bytes == input.speed_limit_bytes,
        r.start_immediately == input.start_immediately,
        match detected {
            Some(d) => match spec_sanitize(d@) {
                Some(f) => r.file_name@ == f,
                None => r.file_name == input.file_name,
            },
            None => r.file_name == input.file_name,
        },
        input.category_customized ==> r.category == input.category,
        !input.category_customized && single_component(r.file_name@) ==> r.category
            == file_category(r.file_name@),
        input.destination_customized ==> r.destination == input.destination,
        !input.destination_customized ==> category_destination(
            *settings,
            r.category,
            r.destination@,
        ),
{
    let mut input = input;
    if let Some(d) = detected {
        if let Some(f) = sanitize_detected_file_name(d) {
            input.file_name = f;
        }
    }
    if !input.category_customized {
        input.category = category_for_file(input.file_name.as_str());
    }
    if !input.destination_customized {
        input.destination = destination_for_category(settings, &input.category);
    }
    input
}

/// The download that an input makes, with this identifier, created at `now`.
pub open spec fn made_from_input(
    item: DownloadItem,
    input: CreateDownloadInput,
    now: i64,
) -> bool {
    &&& item.file_name == input.file_name
    &&& item.category == input.category
    &&& item.state == (if input.start_immediately {
        DownloadState::Queued
    } else {
        DownloadState::Paused
    })
    &&& item.source == input.source
    &&& item.destination == input.destination
    &&& fresh_transfer(item.transfer)
    &&& idle_telemetry(item.telemetry)
    &&& item.threads == input.threads
    &&& item.speed_limit_bytes == input.speed_limit_bytes
    &&& item.created_at == now
    &&& item.updated_at == now
}

/// The download that an input makes, with the identifier `id`, created at
/// `now`: queued when it starts at once, paused otherwise.
pub fn download_from_input(input: CreateDownloadInput, id: String, now: i64) -> (item: DownloadItem)
    ensures
        item.id == id,
        made_from_input(item, input, now),
{
    let state = if input.start_immediately {
        DownloadState::Queued
    } else {
        DownloadState::Paused
    };
    DownloadItem {
        id,
        file_name: input.file_name,
        category: input.category,
        state,
        source: input.source,
        destination: input.destination,
        transfer: TransferProgress {
            downloaded_bytes: 0,
            size: TransferSize::Unknown,
            validator: SourceValidator::Absent,
            resume: ResumeSupport::Unknown,
        },
        telemetry: TransferTelemetry::idle(),
        threads: input.threads,
        speed_limit_bytes: input.speed_limit_bytes,
        created_at: now,
        updated_at: now,
    }
}

/// A new download from an input, with a fresh random identifier, created at
/// `now`.
pub fn new_download(input: CreateDownloadInput, now: i64) -> (item: DownloadItem)
    ensures
        item.id@.len() == 36,
        made_from_input(item, input, now),
{
    let id = new_uuid_text();
    download_from_input(input, id, now)
}

/// Puts a new download at the top of the list.
pub fn insert_download(state: &mut AppSnapshot, item: DownloadItem)
    requires
        old(state).revision < u64::MAX,
    ensures
        final(state).downloads@ == seq![item] + old(state).downloads@,
        final(state).revision == old(state).revision + 1,
        final(state).proxies == old(state).proxies,
        final(state).settings == old(state).settings,
{
    state.downloads.insert(0, item);
    state.revision = state.revision + 1;
    proof {
        assert(state.downloads@ =~= seq![item] + old(state).downloads@);
    }
}

/// The downloads of a list whose identifier is not `id`, in their order.
pub open spec fn without_download(s: Seq<DownloadItem>, id: Seq<char>) -> Seq<DownloadItem>
    decreases s.len(),
{
    if s.len() == 0 {
        s
    } else {
        let rest = without_download(s.subrange(1, s.len() as int), id);
        if s[0].id@ == id {
            rest
        } else {
            seq![s[0]] + rest
        }
    }
}

/// Takes out every download with this identifier, when a new download
/// could not be stored.
pub fn discard_download(state: &mut AppSnapshot, id: &str)
    requires
        old(state).revision < u64::MAX,
    ensures
        final(state).downloads@ == without_download(old(state).downloads@, id@),
        final(state).revision == old(state).revision + 1,
        final(state).proxies == old(state).proxies,
        final(state).settings == old(state).settings,
{
    let ghost start = state.downloads@;
    let ghost n = start.len() as int;
    let mut j: usize = state.downloads.len();
    while j > 0
        invariant
            j <= n,
            n == start.len(),
            start == old(state).downloads@,
            state.downloads@ == start.subrange(0, j as int) + without_download(
                start.subrange(j as int, n),
                id@,
            ),
            state.proxies == old(state).proxies,
            state.settings == old(state).settings,
            state.revision == old(state).revision,
        decreases j,
    {
        let ghost tail = start.subrange(j as int, n);
        let ghost w = without_download(tail, id@);
        let ghost s = start.subrange(j - 1, n);
        proof {
            assert(s.subrange(1, s.len() as int) =~= tail);
            assert(s[0] == start[j - 1]);
        }
        if str_equal(state.downloads[j - 1].id.as_str(), id) {
            proof {
                assert(state.downloads@[j - 1] == start[j - 1]);
            }
            state.downloads.remove(j - 1);
            proof {
                assert(state.downloads@ =~= start.subrange(0, j - 1) + w);
            }
        } else {
            proof {
                assert(state.downloads@[j - 1] == start[j - 1]);
                assert(start.subrange(0, j as int) + w =~= start.subrange(0, j - 1) + (seq![
                    start[j - 1],
                ] + w));
            }
        }
        j = j - 1;
    }
    proof {
        assert(start.subrange(0, n) =~= start);
        assert(state.downloads@ =~= without_download(start, id@));
    }
    state.revision = state.revision + 1;
}

/// How a configured destination is read: unsafe when it climbs out with
/// `..` or, being relative, names a root or a drive; otherwise absolute or
/// relative to the system's download directory.
#[derive(Clone, Copy, Debug, PartialEq, Eq, Structural)]
pub enum DestinationKind {
    Unsafe,
    Absolute,
    Relative,
}

pub open spec fn spec_destination_kind(parts: Seq<PathPart>, absolute: bool) -> DestinationKind {
    if exists|i: int| 0 <= i < parts.len() && (#[trigger] parts[i]) is ParentDir {
        DestinationKind::Unsafe
    } else if absolute {
        DestinationKind::Absolute
    } else if exists|i: int|
        0 <= i < parts.len() && ((#[trigger] parts[i]) is RootDir || parts[i] is Prefix) {
        DestinationKind::Unsafe
    } else {
        DestinationKind::Relative
    }
}

/// Reads a destination from its path components and whether it is absolute.
pub fn destination_kind(parts: &Vec<PathPart>, absolute: bool) -> (r: DestinationKind)
    ensures
        r == spec_destination_kind(parts@, absolute),
{
    let mut i: usize = 0;
    while i < parts.len()
        invariant
            i <= parts@.len(),
            forall|j: int| 0 <= j < i ==> !((#[trigger] parts@[j]) is ParentDir),
        decreases parts@.len() - i,
    {
        if matches!(parts[i], PathPart::ParentDir) {
            return DestinationKind::Unsafe;
        }
        i = i + 1;
    }
    if absolute {
        return DestinationKind::Absolute;
    }
    let mut k: usize = 0;
    while k < parts.len()
        invariant
            k <= parts@.len(),
            !absolute,
            forall|j: int| 0 <= j < parts@.len() ==> !((#[trigger] parts@[j]) is ParentDir),
            forall|j: int|
                0 <= j < k ==> !((#[trigger] parts@[j]) is RootDir || parts@[j] is Prefix),
        decreases parts@.len() - k,
    {
        if matches!(parts[k], PathPart::RootDir | PathPart::Prefix) {
            return DestinationKind::Unsafe;
        }
        k = k + 1;
    }
    DestinationKind::Relative
}

/// The directory a download is written to: its configured destination when
/// that is absolute, else that destination under the system's download
/// directory `downloads_dir`. A destination that could lead outside is refused.
pub fn destination_dir(destination: &str, downloads_dir: &str) -> (r: Result<String, AppError>)
    ensures
        r is Err ==> (r matches Err(AppError::Validation(m)) && m@
            == "El directorio de destino no es seguro"@),
        slash_relative(destination@) && slash_pieces(destination@).contains(".."@) ==> r is Err,
        single_component(destination@) || plain_relative(destination@) ==> (r matches Ok(p)
            && placed_under(downloads_dir@, destination@, p@)),
{
    let parts = path_components(destination);
    let absolute = path_is_absolute(destination);
    match destination_kind(&parts, absolute) {
        DestinationKind::Unsafe => Err(
            AppError::Validation("El directorio de destino no es seguro".to_owned()),
        ),
        DestinationKind::Absolute => Ok(destination.to_owned()),
        DestinationKind::Relative => Ok(path_join(downloads_dir, destination)),
    }
}

/// Pausing a download and then queueing it again keeps the work of its
/// finished segments: they stay complete, and every other segment waits as
/// pending, in its place, with no speed and no error.
pub proof fn law_pause_then_resume_keeps_completed_segments(
    a: DownloadItem,
    b: DownloadItem,
    c: DownloadItem,
    paused_at: i64,
    resumed_at: i64,
)
    requires
        paused_download(a, b, paused_at),
        queued_download(b, c, resumed_at),
    ensures
        c.state is Queued,
        c.telemetry.phase == TransferPhase::Idle,
        c.telemetry.segments@.len() == a.telemetry.segments@.len(),
        forall|k: int|
            0 <= k < a.telemetry.segments@.len() ==> {
                let x = a.telemetry.segments@[k];
                let y = #[trigger] c.telemetry.segments@[k];
                &&& same_segment_place(x, y)
                &&& y.speed_bytes == 0
                &&& y.error is None
                &&& y.state == (if x.state == SegmentState::Completed {
                    SegmentState::Completed
                } else {
                    SegmentState::Pending
                })
            },
{
    assert forall|k: int| 0 <= k < a.telemetry.segments@.len() implies {
        let x = a.telemetry.segments@[k];
        let y = #[trigger] c.telemetry.segments@[k];
        &&& same_segment_place(x, y)
        &&& y.speed_bytes == 0
        &&& y.error is None
        &&& y.state == (if x.state == SegmentState::Completed {
            SegmentState::Completed
        } else {
            SegmentState::Pending
        })
    } by {
        assert(paused_segment(a.telemetry.segments@[k], b.telemetry.segments@[k]));
        assert(rested_segment(
            b.telemetry.segments@[k],
            c.telemetry.segments@[k],
            SegmentState::Pending,
            false,
        ));
    }
}

/// A removal that is put back (when it could not be stored) leaves the
/// same downloads in the list: only the removed one moves to the end.
pub proof fn law_restored_removal_keeps_every_download(
    before: Seq<DownloadItem>,
    i: int,
    removed: DownloadItem,
    after: Seq<DownloadItem>,
)
    requires
        0 <= i < before.len(),
        removed == before[i],
        after == before.remove(i).push(removed),
    ensures
        after.to_multiset() == before.to_multiset(),
        after.last() == before[i],
{
    broadcast use vstd::multiset::group_multiset_axioms;
    broadcast use vstd::seq_lib::group_to_multiset_ensures;

    vstd::seq_lib::to_multiset_remove(before, i);
    vstd::seq_lib::to_multiset_build(before.remove(i), removed);
    assert(before.to_multiset().count(removed) > 0);
    assert(after.to_multiset() =~= before.to_multiset());
}

/// When a new speed limit cannot be stored and the previous one is put
/// back, the download is as it was, but for its time of change.
pub proof fn law_restored_speed_limit_undoes_the_change(
    a: DownloadItem,
    b: DownloadItem,
    c: DownloadItem,
    limit: u64,
    changed_at: i64,
    restored_at: i64,
)
    requires
        limited_download(a, b, limit, changed_at),
        limited_download(b, c, a.speed_limit_bytes, restored_at),
    ensures
        limited_download(a, c, a.speed_limit_bytes, restored_at),
        c.speed_limit_bytes == a.speed_limit_bytes,
        c.state == a.state,
        c.transfer == a.transfer,
        c.telemetry == a.telemetry,
{
}

/// Without a download of that identifier, taking out every download with
/// it changes nothing.
pub proof fn lemma_without_absent_download(s: Seq<DownloadItem>, id: Seq<char>)
    requires
        forall|j: int| 0 <= j < s.len() ==> (#[trigger] s[j]).id@ != id,
    ensures
        without_download(s, id) == s,
    decreases s.len(),
{
    if s.len() > 0 {
        let rest = s.subrange(1, s.len() as int);
        assert forall|j: int| 0 <= j < rest.len() implies (#[trigger] rest[j]).id@ != id by {
            assert(rest[j] == s[j + 1]);
        }
        lemma_without_absent_download(rest, id);
        assert(seq![s[0]] + rest =~= s);
    }
}

/// A new download that is taken out again, because it could not be stored,
/// leaves the list as it was, when no other download had its identifier.
pub proof fn law_discarded_download_restores_the_list(item: DownloadItem, s: Seq<DownloadItem>)
    requires
        forall|j: int| 0 <= j < s.len() ==> (#[trigger] s[j]).id@ != item.id@,
    ensures
        without_download(seq![item] + s, item.id@) == s,
{
    let t = seq![item] + s;
    assert(t[0] == item);
    assert(t.subrange(1, t.len() as int) =~= s);
    lemma_without_absent_download(s, item.id@);
}

/// After a proxy profile is deleted no profile has its identifier, every
/// other profile stays, and a list without it is left as it is.
pub proof fn law_removed_proxy_is_gone(s: Seq<ProxyProfile>, id: Seq<char>)
    ensures
        forall|k: int|
            0 <= k < without_proxy(s, id).len() ==> (#[trigger] without_proxy(s, id)[k]).id@ != id,
        without_proxy(s, id).len() <= s.len(),
        (forall|j: int| 0 <= j < s.len() ==> (#[trigger] s[j]).id@ != id) ==> without_proxy(s, id)
            == s,
    decreases s.len(),
{
    if s.len() > 0 {
        let rest = s.subrange(1, s.len() as int);
        law_removed_proxy_is_gone(rest, id);
        let w = without_proxy(rest, id);
        if s[0].id@ != id {
            assert forall|k: int| 0 <= k < (seq![s[0]] + w).len() implies (#[trigger] (seq![s[0]]
                + w)[k]).id@ != id by {
                if k > 0 {
                    assert((seq![s[0]] + w)[k] == w[k - 1]);
                }
            }
        }
        if forall|j: int| 0 <= j < s.len() ==> (#[trigger] s[j]).id@ != id {
            assert forall|j: int| 0 <= j < rest.len() implies (#[trigger] rest[j]).id@ != id by {
                assert(rest[j] == s[j + 1]);
            }
            assert(s[0].id@ != id);
            assert(seq![s[0]] + rest =~= s);
        }
    }
}

/// A download found at start-up is never shown as running: no transfer
/// runs yet, so its telemetry is idle and no segment has a speed.
pub proof fn law_recovered_download_is_at_rest(a: DownloadItem, b: DownloadItem)
    requires
        recovered_download(a, b),
    ensures
        !(b.state is Downloading),
        b.telemetry.phase == TransferPhase::Idle,
        forall|k: int|
            0 <= k < b.telemetry.segments@.len() ==> (#[trigger] b.telemetry.segments@[k]).speed_bytes
                == 0,
{
    assert forall|k: int| 0 <= k < b.telemetry.segments@.len() implies (#[trigger]
        b.telemetry.segments@[k]).speed_bytes == 0 by {
        let s = if a.state is Downloading {
            DownloadState::Queued
        } else {
            a.state
        };
        assert(rested_segment(
            a.telemetry.segments@[k],
            b.telemetry.segments@[k],
            resting_state(s),
            s is Failed,
        ));
    }
}

/// Measuring a segment's files never credits it with more bytes than it
/// covers, and it is complete exactly when it holds all of them.
pub proof fn law_reconciled_segment_within_its_range(
    a: SegmentProgress,
    b: SegmentProgress,
    single: u64,
    lengths: Seq<u64>,
    failed: bool,
)
    requires
        reconciled_segment(a, b, single, lengths, failed),
    ensures
        expected_length(a) matches Some(t) ==> b.downloaded_bytes <= t && (b.state
            == SegmentState::Completed <==> b.downloaded_bytes == t),
        expected_length(a) is None ==> b.state != SegmentState::Completed,
{
}

/// How long a running download's progress may go unsaved, in milliseconds.
pub const PROGRESS_PERSIST_INTERVAL_MS: i64 = 3000;

/// Whether a progress report is saved now: always when it told something
/// new of the source, or when nothing was saved yet for the download, or
/// once `PROGRESS_PERSIST_INTERVAL_MS` passed since the last save.
pub fn progress_persist_due(force: bool, last_saved_ms: Option<i64>, now_ms: i64) -> (r: bool)
    ensures
        r == (force || match last_saved_ms {
            None => true,
            Some(last) => now_ms - last >= PROGRESS_PERSIST_INTERVAL_MS,
        }),
{
    if force {
        return true;
    }
    match last_saved_ms {
        None => true,
        Some(last) => (now_ms as i128) - (last as i128) >= PROGRESS_PERSIST_INTERVAL_MS as i128,
    }
}

/// A destination file that already exists may not be written, unless the
/// download already finished into it.
pub fn check_destination_free(completed: bool, exists: bool) -> (r: Result<(), AppError>)
    ensures
        !completed && exists ==> (r matches Err(AppError::Validation(m)) && m@
            == "El archivo de destino ya existe"@),
        !(!completed && exists) ==> r is Ok,
{
    if !completed && exists {
        return Err(AppError::Validation("El archivo de destino ya existe".to_owned()));
    }
    Ok(())
}

/// A destination name already reserved is accepted only by the download
/// that holds the reservation.
pub fn check_reservation_owner(owner: &str, id: &str) -> (r: Result<(), AppError>)
    ensures
        owner@ == id@ ==> r is Ok,
        owner@ != id@ ==> (r matches Err(AppError::Validation(m)) && m@
            == "Otro elemento ya reservó el mismo archivo de destino"@),
{
    if str_equal(owner, id) {
        Ok(())
    } else {
        Err(AppError::Validation("Otro elemento ya reservó el mismo archivo de destino".to_owned()))
    }
}

/// The download whose location may be shown: only a finished one.
pub fn revealable(state: &AppSnapshot, id: &str) -> (r: Result<usize, AppError>)
    ensures
        match first_download(state.downloads@, id@) {
            None => r matches Err(AppError::DownloadNotFound),
            Some(i) => if state.downloads@[i].state is Completed {
                r == Ok::<usize, AppError>(i as usize)
            } else {
                r matches Err(AppError::Validation(m)) && m@
                    == "Solo puedes abrir la ubicación de una descarga completada"@
            },
        },
{
    let i = find_download(state, id)?;
    if !matches!(state.downloads[i].state, DownloadState::Completed { .. }) {
        return Err(
            AppError::Validation(
                "Solo puedes abrir la ubicación de una descarga completada".to_owned(),
            ),
        );
    }
    Ok(i)
}

/// The download that may start over: any but a finished one. A download
/// that finished while it was being stopped is refused.
pub fn restartable(state: &AppSnapshot, id: &str) -> (r: Result<usize, AppError>)
    ensures
        match first_download(state.downloads@, id@) {
            None => r matches Err(AppError::DownloadNotFound),
            Some(i) => if state.downloads@[i].state is Completed {
                r matches Err(AppError::Validation(m)) && m@
                    == "La descarga terminó mientras se finalizaba el archivo"@
            } else {
                r matches Ok(k) && k as int == i
            },
        },
        r matches Ok(k) ==> k < state.downloads@.len(),
{
    let i = find_download(state, id)?;
    if matches!(state.downloads[i].state, DownloadState::Completed { .. }) {
        return Err(
            AppError::Validation("La descarga terminó mientras se finalizaba el archivo".to_owned()),
        );
    }
    Ok(i)
}

/// The download whose source may be replaced: any but a finished one.
pub fn source_replaceable(state: &AppSnapshot, id: &str) -> (r: Result<usize, AppError>)
    ensures
        match first_download(state.downloads@, id@) {
            None => r matches Err(AppError::DownloadNotFound),
            Some(i) => if state.downloads@[i].state is Completed {
                r matches Err(AppError::Validation(m)) && m@
                    == "La descarga ya se completó; crea una nueva descarga para cambiar el origen"@
            } else {
                r matches Ok(k) && k as int == i
            },
        },
        r matches Ok(k) ==> k < state.downloads@.len(),
{
    let i = find_download(state, id)?;
    if matches!(state.downloads[i].state, DownloadState::Completed { .. }) {
        return Err(
            AppError::Validation(
                "La descarga ya se completó; crea una nueva descarga para cambiar el origen".to_owned(),
            ),
        );
    }
    Ok(i)
}

/// Whether a claimed job may begin: the scheduler still claims it, no task
/// runs or stops for it, and a download with its identifier is marked as
/// downloading.
pub fn may_start(state: &AppSnapshot, id: &str, claimed: bool, running: bool, stopping: bool) -> (r:
    bool)
    ensures
        r == (claimed && !running && !stopping && exists|i: int|
            0 <= i < state.downloads@.len() && (#[trigger] state.downloads@[i]).id@ == id@
                && state.downloads@[i].state is Downloading),
{
    if !claimed || running || stopping {
        return false;
    }
    let downloads = &state.downloads;
    let mut i: usize = 0;
    while i < downloads.len()
        invariant
            downloads@ == state.downloads@,
            claimed && !running && !stopping,
            i <= downloads@.len(),
            forall|j: int|
                0 <= j < i ==> !((#[trigger] downloads@[j]).id@ == id@
                    && downloads@[j].state is Downloading),
        decreases downloads@.len() - i,
    {
        if str_equal(downloads[i].id.as_str(), id) && matches!(
            downloads[i].state,
            DownloadState::Downloading { .. }
        ) {
            assert(state.downloads@[i as int].id@ == id@);
            return true;
        }
        i = i + 1;
    }
    false
}

} // verus!
