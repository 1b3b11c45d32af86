use vstd::prelude::*;

use crate::engine::{copy_validator, EngineError};
use crate::model::{
    SegmentProgress, SegmentState, SourceValidator, TransferMode, TransferPhase, TransferSize,
    TransferTelemetry,
};

verus! {

/// Smallest number of bytes that justifies a segment of its own.
pub const MIN_SEGMENT_SIZE: u64 = 2097152;

/// Ceiling of `a / b` over the integers.
pub open spec fn ceil_div(a: int, b: int) -> int {
    (a + b - 1) / b
}

/// Number of segments that `split_ranges` uses for a file of `total` bytes
/// when `requested` connections are configured.
pub open spec fn segment_count(total: nat, requested: nat) -> nat {
    let useful = if ceil_div(total as int, MIN_SEGMENT_SIZE as int) >= 1 {
        ceil_div(total as int, MIN_SEGMENT_SIZE as int)
    } else {
        1
    };
    let limited = if requested < useful { requested as int } else { useful };
    if limited >= 1 { limited as nat } else { 1 }
}

/// The ranges of `split_ranges`: `count` ranges of `size` bytes, the last one
/// cut at the end of the file.
pub open spec fn spec_ranges(total: nat, requested: nat) -> Seq<(u64, u64)> {
    let count = segment_count(total, requested);
    let size = ceil_div(total as int, count as int);
    Seq::new(count, |i: int| {
        let end = if (i + 1) * size < total { (i + 1) * size } else { total as int };
        ((i * size) as u64, (end - 1) as u64)
    })
}

/// Splits a file of `total` bytes into at most `requested_threads` inclusive
/// byte ranges of almost equal length.
pub fn split_ranges(total: u64, requested_threads: u8) -> (ranges: Vec<(u64, u64)>)
    requires
        0 < total <= 0xFFFF_FFFF_FFFF_FE00,
    ensures
        ranges@ == spec_ranges(total as nat, requested_threads as nat),
{
    let max_useful_raw = total / MIN_SEGMENT_SIZE + if total % MIN_SEGMENT_SIZE == 0 { 0 } else { 1 };
    let max_useful = if max_useful_raw >= 1 { max_useful_raw } else { 1 };
    let requested = requested_threads as u64;
    let limited = if requested < max_useful { requested } else { max_useful };
    let count = if limited >= 1 { limited } else { 1 };
    assert(max_useful_raw == ceil_div(total as int, MIN_SEGMENT_SIZE as int)) by (nonlinear_arith)
        requires max_useful_raw == total / MIN_SEGMENT_SIZE + if total % MIN_SEGMENT_SIZE == 0 { 0int } else { 1int };
    let segment_size = total / count + if total % count == 0 { 0 } else { 1 };
    proof {
        assert(segment_size == ceil_div(total as int, count as int)) by (nonlinear_arith)
            requires
                count >= 1,
                segment_size == total / count + if total % count == 0 { 0int } else { 1int };
        assert(1 <= segment_size <= total) by (nonlinear_arith)
            requires
                count >= 1,
                total >= 1,
                segment_size == total / count + if total % count == 0 { 0int } else { 1int };
    }
    let mut ranges: Vec<(u64, u64)> = Vec::new();
    let mut index: u64 = 0;
    while index < count
        invariant
            1 <= count <= 255,
            count == segment_count(total as nat, requested_threads as nat),
            segment_size == ceil_div(total as int, count as int),
            1 <= segment_size <= total,
            0 < total <= 0xFFFF_FFFF_FFFF_FE00,
            index <= count,
            ranges@.len() == index,
            forall|j: int| 0 <= j < index ==> ranges@[j] == spec_ranges(total as nat, requested_threads as nat)[j],
        decreases count - index,
    {
        proof {
            assert(segment_size * count < total + count) by (nonlinear_arith)
                requires
                    count >= 1,
                    segment_size == ceil_div(total as int, count as int);
            assert((index + 1) * segment_size <= count * segment_size) by (nonlinear_arith)
                requires index < count, segment_size >= 1;
            assert(index * segment_size <= (index + 1) * segment_size) by (nonlinear_arith)
                requires segment_size >= 1;
            assert((index + 1) * segment_size >= 1) by (nonlinear_arith)
                requires segment_size >= 1;
        }
        let start = index * segment_size;
        let next = (index + 1) * segment_size;
        let end_exclusive = if next < total { next } else { total };
        ranges.push((start, end_exclusive - 1));
        index = index + 1;
    }
    ranges
}

} // verus!

verus! {

proof fn lemma_count_bounds(total: nat, requested: nat)
    requires
        total > 0,
    ensures
        1 <= segment_count(total, requested),
        requested >= 1 ==> segment_count(total, requested) <= requested,
        (segment_count(total, requested) - 1) * (MIN_SEGMENT_SIZE as int) < total,
{
    let m = MIN_SEGMENT_SIZE as int;
    let c = ceil_div(total as int, m);
    assert(c * m <= total + m - 1) by (nonlinear_arith)
        requires c == (total + m - 1) / m, m > 0;
    assert(c >= 1) by (nonlinear_arith)
        requires c == (total + m - 1) / m, m > 0, total >= 1;
    let count = segment_count(total, requested);
    assert(count <= c);
    assert((count - 1) * m <= (c - 1) * m) by (nonlinear_arith)
        requires count <= c, m > 0;
}

proof fn lemma_size_fills(total: nat, count: nat, size: int)
    requires
        total > 0,
        1 <= count <= 255,
        (count - 1) * (MIN_SEGMENT_SIZE as int) < total,
        size == ceil_div(total as int, count as int),
    ensures
        size >= 1,
        (count - 1) * size < total,
        count * size >= total,
{
    let m = MIN_SEGMENT_SIZE as int;
    assert(size * count >= total && size * count < total + count) by (nonlinear_arith)
        requires size == (total + count - 1) / (count as int), count >= 1;
    assert(size >= 1) by (nonlinear_arith)
        requires size * count >= total, total >= 1, count >= 1;
    if count >= 2 {
        assert(size >= count) by (nonlinear_arith)
            requires
                size * count >= total,
                (count - 1) * m < total,
                m == 2097152,
                2 <= count <= 255;
        assert((count - 1) * size < total) by (nonlinear_arith)
            requires size * count < total + count, size >= count;
    } else {
        assert(count == 1);
        assert((count - 1) * size == 0) by (nonlinear_arith)
            requires count == 1;
    }
}

/// The ranges of `split_ranges` cover the file from its first to its last byte,
/// each range holds at least one byte, each range starts right after the one
/// before it, and there are never more ranges than requested connections.
pub proof fn lemma_split_ranges_cover_without_gaps(total: nat, requested: nat)
    requires
        0 < total <= 0xFFFF_FFFF_FFFF_FE00,
        requested <= 255,
    ensures
        ({
            let r = spec_ranges(total, requested);
            &&& 1 <= r.len()
            &&& requested >= 1 ==> r.len() <= requested
            &&& r[0].0 == 0
            &&& r[r.len() - 1].1 == total - 1
            &&& forall|i: int| 0 <= i < r.len() ==> #[trigger] r[i].0 <= r[i].1
            &&& forall|i: int| 0 <= i < r.len() - 1 ==> #[trigger] r[i].1 + 1 == r[i + 1].0
        }),
{
    lemma_count_bounds(total, requested);
    let count = segment_count(total, requested);
    let size = ceil_div(total as int, count as int);
    assert(count <= 255) by {
        if requested == 0 {
        } else {
        }
    }
    lemma_size_fills(total, count, size);
    let r = spec_ranges(total, requested);
    assert forall|i: int| 0 <= i < r.len() implies #[trigger] r[i].0 <= r[i].1 by {
        assert(i * size < total) by (nonlinear_arith)
            requires 0 <= i < count, (count - 1) * size < total, size >= 1;
        assert(i * size < (i + 1) * size) by (nonlinear_arith)
            requires size >= 1;
        assert((i + 1) * size <= count * size) by (nonlinear_arith)
            requires 0 <= i < count, size >= 1;
    }
    assert forall|i: int| 0 <= i < r.len() - 1 implies #[trigger] r[i].1 + 1 == r[i + 1].0 by {
        assert((i + 1) * size < total) by (nonlinear_arith)
            requires 0 <= i < count - 1, (count - 1) * size < total, size >= 1;
        assert((i + 1) * size >= 1) by (nonlinear_arith)
            requires 0 <= i, size >= 1;
        let e = (i + 1) * size;
        assert(r[i].1 == (e - 1) as u64);
        assert(r[i + 1].0 == ((i + 1) * size) as u64);
        assert(r[i].1 == e - 1);
        assert(r[i + 1].0 == e);
    }
    assert((count - 1) * size < total);
    assert(count * size >= total);
    assert((count - 1) * size >= 0) by (nonlinear_arith)
        requires count >= 1, size >= 1;
}

} // verus!

verus! {

pub const SEGMENT_PENDING: u8 = 0;
pub const SEGMENT_CONNECTING: u8 = 1;
pub const SEGMENT_DOWNLOADING: u8 = 2;
pub const SEGMENT_COMPLETED: u8 = 3;
pub const SEGMENT_FAILED: u8 = 4;
pub const SEGMENT_STOPPED: u8 = 5;

/// The segment state that a stored state code stands for; unknown codes read
/// as pending.
pub open spec fn spec_state_of(code: u8) -> SegmentState {
    if code == SEGMENT_CONNECTING {
        SegmentState::Connecting
    } else if code == SEGMENT_DOWNLOADING {
        SegmentState::Downloading
    } else if code == SEGMENT_COMPLETED {
        SegmentState::Completed
    } else if code == SEGMENT_FAILED {
        SegmentState::Failed
    } else if code == SEGMENT_STOPPED {
        SegmentState::Stopped
    } else {
        SegmentState::Pending
    }
}

pub fn state_of(code: u8) -> (s: SegmentState)
    ensures
        s == spec_state_of(code),
{
    if code == SEGMENT_CONNECTING {
        SegmentState::Connecting
    } else if code == SEGMENT_DOWNLOADING {
        SegmentState::Downloading
    } else if code == SEGMENT_COMPLETED {
        SegmentState::Completed
    } else if code == SEGMENT_FAILED {
        SegmentState::Failed
    } else if code == SEGMENT_STOPPED {
        SegmentState::Stopped
    } else {
        SegmentState::Pending
    }
}

/// The geometry and identity of a segmented transfer, stored next to its
/// partial files before any of them is written.
#[derive(Clone, Debug)]
pub struct SegmentMetadata {
    pub total_bytes: u64,
    pub validator: SourceValidator,
    pub threads: u8,
    pub ranges: Vec<(u64, u64)>,
}

/// Segment partials on disk are only reusable with their metadata.
pub fn require_segment_metadata(has_segment_partials: bool, metadata: Option<&SegmentMetadata>) -> (r:
    Result<(), EngineError>)
    ensures
        r is Err <==> (has_segment_partials && metadata is None),
        r matches Err(e) ==> e is SourceChanged,
{
    if has_segment_partials && metadata.is_none() {
        return Err(EngineError::SourceChanged);
    }
    Ok(())
}

fn same_ranges(a: &Vec<(u64, u64)>, b: &Vec<(u64, u64)>) -> (r: bool)
    ensures
        r == (a@ == b@),
{
    if a.len() != b.len() {
        return false;
    }
    let mut i: usize = 0;
    while i < a.len()
        invariant
            a@.len() == b@.len(),
            i <= a@.len(),
            forall|j: int| 0 <= j < i ==> a@[j] == b@[j],
        decreases a@.len() - i,
    {
        if a[i].0 != b[i].0 || a[i].1 != b[i].1 {
            return false;
        }
        i = i + 1;
    }
    assert(a@ =~= b@);
    true
}

/// Stored metadata is accepted when partials exist only with metadata and
/// the metadata was written for the same connection count and ranges.
pub fn check_stored_segments(
    has_segment_partials: bool,
    stored: Option<&SegmentMetadata>,
    threads: u8,
    ranges: &Vec<(u64, u64)>,
) -> (r: Result<(), EngineError>)
    ensures
        r is Ok <==> !(has_segment_partials && stored is None) && (stored matches Some(m) ==> (
        m.threads == threads && m.ranges@ == ranges@)),
        r matches Err(e) ==> e is SourceChanged,
{
    require_segment_metadata(has_segment_partials, stored)?;
    if let Some(m) = stored {
        if m.threads != threads || !same_ranges(&m.ranges, ranges) {
            return Err(EngineError::SourceChanged);
        }
    }
    Ok(())
}

/// The size and validator a resumed segmented transfer is compared with:
/// those of the stored metadata when there is some, else those of the item.
/// A probe without a validator takes over the stored one when partials exist.
pub fn previous_identity(
    stored: Option<&SegmentMetadata>,
    item_size: TransferSize,
    item_validator: &SourceValidator,
) -> (r: (TransferSize, SourceValidator))
    ensures
        match stored {
            Some(m) => r.0 == (TransferSize::Known { total_bytes: m.total_bytes }) && r.1
                == m.validator,
            None => r.0 == item_size && r.1 == *item_validator,
        },
{
    match stored {
        Some(m) => (TransferSize::Known { total_bytes: m.total_bytes }, copy_validator(&m.validator)),
        None => (item_size, copy_validator(item_validator)),
    }
}

/// A file is split into as many ranges as the configured connections allow,
/// but never into more than one range per `MIN_SEGMENT_SIZE` started bytes:
/// the count is the smaller of the two, and every range but the last holds
/// exactly the file size divided by that count, rounded up.
pub proof fn law_split_ranges_uses_every_useful_connection(total: nat, requested: nat)
    requires
        0 < total <= 0xFFFF_FFFF_FFFF_FE00,
        1 <= requested <= 255,
    ensures
        ({
            let r = spec_ranges(total, requested);
            let useful = (total + 2097151) / 2097152;
            &&& r.len() <= requested
            &&& r.len() <= useful
            &&& (r.len() == requested || r.len() == useful)
            &&& forall|i: int|
                0 <= i < r.len() - 1 ==> #[trigger] r[i].1 - r[i].0 + 1 == (total + r.len() - 1)
                    / (r.len() as int)
        }),
{
    lemma_count_bounds(total, requested);
    let count = segment_count(total, requested);
    let size = ceil_div(total as int, count as int);
    let m = MIN_SEGMENT_SIZE as int;
    assert(ceil_div(total as int, m) >= 1) by (nonlinear_arith)
        requires m == 2097152, total >= 1;
    lemma_size_fills(total, count, size);
    let r = spec_ranges(total, requested);
    assert forall|i: int| 0 <= i < r.len() - 1 implies #[trigger] r[i].1 - r[i].0 + 1 == (total
        + r.len() - 1) / (r.len() as int) by {
        assert((i + 1) * size < total) by (nonlinear_arith)
            requires 0 <= i < count - 1, (count - 1) * size < total, size >= 1;
        assert(i * size + size == (i + 1) * size) by (nonlinear_arith);
        assert(i * size >= 0) by (nonlinear_arith)
            requires i >= 0, size >= 1;
    }
}

/// A segment file is kept when it holds no more than its range: all its bytes
/// count as downloaded and the worker resumes after them. A longer file is
/// discarded and its range starts over. A worker is needed exactly while
/// the kept bytes fall short of the range.
pub proof fn law_segment_resume_keeps_stored_bytes(existing: u64, start: u64, end: u64)
    requires
        start <= end < u64::MAX,
    ensures
        ({
            let (discard, resumed, needs_worker) = spec_segment_resume(existing, start, end);
            &&& existing <= end - start + 1 ==> !discard && resumed == existing
            &&& existing > end - start + 1 ==> discard && resumed == 0
            &&& needs_worker <==> resumed < end - start + 1
        }),
{
}

/// How an existing segment file is reused: a file longer than its range is
/// discarded; the bytes already there count as downloaded; a worker is needed
/// while the range is not complete.
pub open spec fn spec_segment_resume(existing: u64, start: u64, end: u64) -> (bool, u64, bool) {
    let expected = end - start + 1;
    let discard = existing > expected;
    let kept = if discard { 0 } else { existing as int };
    let resumed = if kept < expected { kept } else { expected };
    (discard, resumed as u64, resumed != expected)
}

pub fn segment_resume(existing: u64, start: u64, end: u64) -> (r: (bool, u64, bool))
    requires
        start <= end < u64::MAX,
    ensures
        r == spec_segment_resume(existing, start, end),
{
    let expected = end - start + 1;
    let discard = existing > expected;
    let kept = if discard { 0 } else { existing };
    let resumed = if kept < expected { kept } else { expected };
    (discard, resumed, resumed != expected)
}

/// The progress record of one segment of a running transfer.
#[derive(Debug)]
pub struct SegmentRuntime {
    pub index: u8,
    pub start_byte: u64,
    pub end_byte: u64,
    pub downloaded_bytes: u64,
    pub state: u8,
    pub last_activity_ms: i64,
    pub error: Option<String>,
}

impl SegmentRuntime {
    /// A segment record; it starts completed when its range is already fully
    /// on disk, else pending.
    pub fn new(index: usize, start_byte: u64, end_byte: u64, downloaded_bytes: u64) -> (r:
        SegmentRuntime)
        requires
            index < 256,
            start_byte <= end_byte < u64::MAX,
        ensures
            r.index == index,
            r.start_byte == start_byte,
            r.end_byte == end_byte,
            r.downloaded_bytes == downloaded_bytes,
            r.state == if downloaded_bytes == end_byte - start_byte + 1 {
                SEGMENT_COMPLETED
            } else {
                SEGMENT_PENDING
            },
            r.last_activity_ms == 0,
            r.error is None,
    {
        SegmentRuntime {
            index: index as u8,
            start_byte,
            end_byte,
            downloaded_bytes,
            state: if downloaded_bytes == end_byte - start_byte + 1 {
                SEGMENT_COMPLETED
            } else {
                SEGMENT_PENDING
            },
            last_activity_ms: 0,
            error: None,
        }
    }

    pub fn set_state(&mut self, state: u8)
        ensures
            final(self).state == state,
            final(self).index == old(self).index,
            final(self).start_byte == old(self).start_byte,
            final(self).end_byte == old(self).end_byte,
            final(self).downloaded_bytes == old(self).downloaded_bytes,
            final(self).last_activity_ms == old(self).last_activity_ms,
            final(self).error == old(self).error,
    {
        self.state = state;
    }

    /// Counts received bytes (wrapping as an atomic counter does) and records
    /// `now` as the time of the activity.
    pub fn mark_activity(&mut self, bytes: u64, now: i64)
        ensures
            final(self).downloaded_bytes == (old(self).downloaded_bytes + bytes) % 0x1_0000_0000_0000_0000,
            final(self).last_activity_ms == now,
            final(self).index == old(self).index,
            final(self).start_byte == old(self).start_byte,
            final(self).end_byte == old(self).end_byte,
            final(self).state == old(self).state,
            final(self).error == old(self).error,
    {
        self.downloaded_bytes = self.downloaded_bytes.wrapping_add(bytes);
        self.last_activity_ms = now;
    }

    /// Marks the segment failed with the error's text.
    pub fn mark_failed(&mut self, message: String)
        ensures
            final(self).state == SEGMENT_FAILED,
            final(self).error == Some(message),
            final(self).index == old(self).index,
            final(self).start_byte == old(self).start_byte,
            final(self).end_byte == old(self).end_byte,
            final(self).downloaded_bytes == old(self).downloaded_bytes,
            final(self).last_activity_ms == old(self).last_activity_ms,
    {
        self.state = SEGMENT_FAILED;
        self.error = Some(message);
    }

    /// The progress of this segment; the speed shows only while it downloads.
    pub fn snapshot(&self, speed_bytes: u64) -> (p: SegmentProgress)
        ensures
            p.index == self.index,
            p.start_byte == self.start_byte,
            p.end_byte == Some(self.end_byte),
            p.downloaded_bytes == self.downloaded_bytes,
            p.state == spec_state_of(self.state),
            p.speed_bytes == if p.state == SegmentState::Downloading { speed_bytes } else { 0 },
            p.last_activity_at == Some(self.last_activity_ms),
            p.error == self.error,
    {
        self.snapshot_at(self.downloaded_bytes, speed_bytes)
    }

    /// The progress of this segment with the given byte count.
    pub fn snapshot_at(&self, downloaded_bytes: u64, speed_bytes: u64) -> (p: SegmentProgress)
        ensures
            p.index == self.index,
            p.start_byte == self.start_byte,
            p.end_byte == Some(self.end_byte),
            p.downloaded_bytes == downloaded_bytes,
            p.state == spec_state_of(self.state),
            p.speed_bytes == if p.state == SegmentState::Downloading { speed_bytes } else { 0 },
            p.last_activity_at == Some(self.last_activity_ms),
            p.error == self.error,
    {
        let state = state_of(self.state);
        let error = match &self.error {
            Some(e) => Some(e.clone()),
            None => None,
        };
        SegmentProgress {
            index: self.index,
            start_byte: self.start_byte,
            end_byte: Some(self.end_byte),
            downloaded_bytes,
            speed_bytes: if matches!(state, SegmentState::Downloading) {
                speed_bytes
            } else {
                0
            },
            state,
            last_activity_at: Some(self.last_activity_ms),
            error,
        }
    }
}

/// A segment that has not finished is stopped.
pub open spec fn stopped_code(code: u8) -> u8 {
    if code == SEGMENT_PENDING || code == SEGMENT_CONNECTING || code == SEGMENT_DOWNLOADING {
        SEGMENT_STOPPED
    } else {
        code
    }
}

/// Marks every pending, connecting or downloading segment as stopped.
pub fn stop_active_segments(runtimes: &mut Vec<SegmentRuntime>)
    ensures
        final(runtimes)@.len() == old(runtimes)@.len(),
        forall|i: int|
            0 <= i < final(runtimes)@.len() ==> (#[trigger] final(runtimes)@[i]).state == stopped_code(
                old(runtimes)@[i].state,
            ) && final(runtimes)@[i].downloaded_bytes == old(runtimes)@[i].downloaded_bytes
                && final(runtimes)@[i].start_byte == old(runtimes)@[i].start_byte
                && final(runtimes)@[i].end_byte == old(runtimes)@[i].end_byte
                && final(runtimes)@[i].index == old(runtimes)@[i].index
                && final(runtimes)@[i].last_activity_ms == old(runtimes)@[i].last_activity_ms
                && final(runtimes)@[i].error == old(runtimes)@[i].error,
{
    let ghost start = runtimes@;
    let mut i: usize = 0;
    while i < runtimes.len()
        invariant
            runtimes@.len() == start.len(),
            i <= start.len(),
            forall|j: int|
                0 <= j < i ==> (#[trigger] runtimes@[j]).state == stopped_code(start[j].state)
                    && runtimes@[j].downloaded_bytes == start[j].downloaded_bytes
                    && runtimes@[j].start_byte == start[j].start_byte && runtimes@[j].end_byte
                    == start[j].end_byte && runtimes@[j].index == start[j].index
                    && runtimes@[j].last_activity_ms == start[j].last_activity_ms
                    && runtimes@[j].error == start[j].error,
            forall|j: int| i <= j < start.len() ==> #[trigger] runtimes@[j] == start[j],
        decreases start.len() - i,
    {
        let code = runtimes[i].state;
        if code == SEGMENT_PENDING || code == SEGMENT_CONNECTING || code == SEGMENT_DOWNLOADING {
            runtimes[i].state = SEGMENT_STOPPED;
        }
        i = i + 1;
    }
}

/// The progress of every segment, each with its speed, or zero when no
/// speed is given for it.
pub fn snapshot_segments(runtimes: &Vec<SegmentRuntime>, speeds: &Vec<u64>) -> (r: Vec<
    SegmentProgress,
>)
    ensures
        r@.len() == runtimes@.len(),
        forall|i: int|
            0 <= i < r@.len() ==> {
                let p = #[trigger] r@[i];
                let rt = runtimes@[i];
                let speed = if i < speeds@.len() { speeds@[i] } else { 0 };
                &&& p.index == rt.index
                &&& p.start_byte == rt.start_byte
                &&& p.end_byte == Some(rt.end_byte)
                &&& p.downloaded_bytes == rt.downloaded_bytes
                &&& p.state == spec_state_of(rt.state)
                &&& p.speed_bytes == if p.state == SegmentState::Downloading { speed } else { 0 }
                &&& p.last_activity_at == Some(rt.last_activity_ms)
                &&& p.error == rt.error
            },
{
    let mut r: Vec<SegmentProgress> = Vec::new();
    let mut i: usize = 0;
    while i < runtimes.len()
        invariant
            i <= runtimes@.len(),
            r@.len() == i,
            forall|j: int|
                0 <= j < i ==> {
                    let p = #[trigger] r@[j];
                    let rt = runtimes@[j];
                    let speed = if j < speeds@.len() { speeds@[j] } else { 0 };
                    &&& p.index == rt.index
                    &&& p.start_byte == rt.start_byte
                    &&& p.end_byte == Some(rt.end_byte)
                    &&& p.downloaded_bytes == rt.downloaded_bytes
                    &&& p.state == spec_state_of(rt.state)
                    &&& p.speed_bytes == if p.state == SegmentState::Downloading { speed } else { 0 }
                    &&& p.last_activity_at == Some(rt.last_activity_ms)
                    &&& p.error == rt.error
                },
        decreases runtimes@.len() - i,
    {
        let speed = if i < speeds.len() { speeds[i] } else { 0 };
        r.push(runtimes[i].snapshot(speed));
        i = i + 1;
    }
    r
}

/// Sum of the bytes that the segments hold.
pub open spec fn sum_downloaded(s: Seq<SegmentProgress>) -> nat
    decreases s.len(),
{
    if s.len() == 0 {
        0
    } else {
        sum_downloaded(s.drop_last()) + (s.last().downloaded_bytes as nat)
    }
}

pub fn segments_downloaded(segments: &Vec<SegmentProgress>) -> (r: u64)
    requires
        sum_downloaded(segments@) <= u64::MAX,
    ensures
        r == sum_downloaded(segments@),
{
    let mut total: u64 = 0;
    let mut i: usize = 0;
    while i < segments.len()
        invariant
            i <= segments@.len(),
            sum_downloaded(segments@) <= u64::MAX,
            total == sum_downloaded(segments@.subrange(0, i as int)),
        decreases segments@.len() - i,
    {
        assert(segments@.subrange(0, i + 1).drop_last() =~= segments@.subrange(0, i as int));
        proof {
            lemma_sum_prefix(segments@, i + 1);
        }
        total = total + segments[i].downloaded_bytes;
        i = i + 1;
    }
    assert(segments@.subrange(0, segments@.len() as int) =~= segments@);
    total
}

proof fn lemma_sum_prefix(s: Seq<SegmentProgress>, i: int)
    requires
        0 <= i <= s.len(),
    ensures
        sum_downloaded(s.subrange(0, i)) <= sum_downloaded(s),
    decreases s.len() - i,
{
    if i < s.len() {
        lemma_sum_prefix(s, i + 1);
        assert(s.subrange(0, i + 1).drop_last() =~= s.subrange(0, i));
    } else {
        assert(s.subrange(0, i) =~= s);
    }
}

pub fn segmented_telemetry(phase: TransferPhase, mode: TransferMode, segments: Vec<SegmentProgress>) -> (r:
    TransferTelemetry)
    ensures
        r.phase == phase,
        r.mode == mode,
        r.segments == segments,
{
    TransferTelemetry { phase, mode, segments }
}

/// The telemetry of a one-stream transfer: one segment from byte zero to the
/// last byte of a known, non-empty size.
pub fn single_telemetry(
    phase: TransferPhase,
    reason: Option<String>,
    size: &TransferSize,
    downloaded_bytes: u64,
    speed_bytes: u64,
    state: SegmentState,
    last_activity_at: Option<i64>,
) -> (r: TransferTelemetry)
    ensures
        r.phase == phase,
        r.mode == (TransferMode::Single { reason }),
        r.segments@.len() == 1,
        r.segments@[0].index == 0,
        r.segments@[0].start_byte == 0,
        r.segments@[0].end_byte == match *size {
            TransferSize::Known { total_bytes } => if total_bytes > 0 {
                Some((total_bytes - 1) as u64)
            } else {
                None
            },
            TransferSize::Unknown => None,
        },
        r.segments@[0].downloaded_bytes == downloaded_bytes,
        r.segments@[0].speed_bytes == speed_bytes,
        r.segments@[0].state == state,
        r.segments@[0].last_activity_at == last_activity_at,
        r.segments@[0].error is None,
{
    let end_byte = match size {
        TransferSize::Known { total_bytes } => if *total_bytes > 0 {
            Some(*total_bytes - 1)
        } else {
            None
        },
        TransferSize::Unknown => None,
    };
    let mut segments: Vec<SegmentProgress> = Vec::new();
    segments.push(
        SegmentProgress {
            index: 0,
            start_byte: 0,
            end_byte,
            downloaded_bytes,
            speed_bytes,
            state,
            last_activity_at,
            error: None,
        },
    );
    TransferTelemetry { phase, mode: TransferMode::Single { reason }, segments }
}

} // verus!
