//! The transfer engine's decisions: which errors a retry can fix, when a
//! download is split into segments, when partial segments may be reused, and
//! which path a transfer takes after the server has been probed.
use vstd::prelude::*;

use crate::model::{ResumeSupport, SourceValidator, TransferSize, TransferTelemetry};
use crate::segments::MIN_SEGMENT_SIZE;
use crate::text::{push_decimal, str_equal};

verus! {

/// Where the engine connects: directly, or through a proxy URL.
#[derive(Clone, Debug)]
pub enum ResolvedProxy {
    Direct,
    Url(String),
}

/// A progress report of a running transfer.
#[derive(Clone, Debug)]
pub struct EngineProgress {
    pub downloaded_bytes: u64,
    pub size: TransferSize,
    pub validator: SourceValidator,
    pub resume: ResumeSupport,
    pub speed_bytes: u64,
    pub telemetry: TransferTelemetry,
}

/// What a finished transfer reports.
#[derive(Clone, Debug)]
pub struct EngineOutput {
    pub downloaded_bytes: u64,
    pub size: TransferSize,
    pub validator: SourceValidator,
    pub resume: ResumeSupport,
    pub telemetry: TransferTelemetry,
}

/// Why a transfer stopped.
#[derive(Clone, Debug)]
pub enum EngineError {
    Cancelled,
    Request,
    HttpStatus(u16),
    SegmentHttpStatus(u16),
    ResumeRejected,
    SourceChanged,
    InvalidContentRange,
    InvalidHeader(String),
    DestinationExists,
    File,
    SegmentTask,
    SegmentInterrupted,
}

/// The errors that a later retry may get past.
pub open spec fn spec_recoverable(e: EngineError) -> bool {
    match e {
        EngineError::Request | EngineError::HttpStatus(_) | EngineError::SegmentHttpStatus(_)
        | EngineError::SegmentTask | EngineError::SegmentInterrupted => true,
        _ => false,
    }
}

/// The text shown to the user for an error.
pub open spec fn spec_engine_message(e: EngineError) -> Seq<char> {
    match e {
        EngineError::Cancelled => "Transferencia cancelada"@,
        EngineError::Request => "No se pudo completar la comunicación con el servidor"@,
        EngineError::HttpStatus(code) => "El servidor devolvió un estado HTTP inesperado: "@
            + crate::text::decimal_text(code as nat),
        EngineError::SegmentHttpStatus(code) => "El servidor rechazó temporalmente un segmento: HTTP "@
            + crate::text::decimal_text(code as nat),
        EngineError::ResumeRejected =>
            "El servidor no respetó el rango solicitado; reinicia la descarga para evitar corrupción"@,
        EngineError::SourceChanged =>
            "El contenido del enlace cambió; actualiza el enlace o reinicia la descarga"@,
        EngineError::InvalidContentRange => "El servidor devolvió un Content-Range inválido"@,
        EngineError::InvalidHeader(name) => "Header inválido: "@ + name@,
        EngineError::DestinationExists => "El archivo de destino ya existe"@,
        EngineError::File => "No se pudo escribir el archivo parcial"@,
        EngineError::SegmentTask => "Uno de los segmentos de descarga falló"@,
        EngineError::SegmentInterrupted =>
            "La transferencia segmentada se interrumpió; reintenta para continuar"@,
    }
}

impl EngineError {
    /// A retry may succeed after a network failure, an unexpected status or
    /// an interrupted segment; cancellation, a rejected resume, a changed
    /// source or a file error need the user to act.
    pub fn recoverable(&self) -> (r: bool)
        ensures
            r == spec_recoverable(*self),
    {
        match self {
            EngineError::Request | EngineError::HttpStatus(_) | EngineError::SegmentHttpStatus(_)
            | EngineError::SegmentTask | EngineError::SegmentInterrupted => true,
            _ => false,
        }
    }

    /// The text shown to the user for this error.
    pub fn message(&self) -> (m: String)
        ensures
            m@ == spec_engine_message(*self),
    {
        match self {
            EngineError::Cancelled => "Transferencia cancelada".to_owned(),
            EngineError::Request => "No se pudo completar la comunicación con el servidor".to_owned(),
            EngineError::HttpStatus(code) => {
                let mut m = "El servidor devolvió un estado HTTP inesperado: ".to_owned();
                push_decimal(&mut m, *code as u64);
                m
            },
            EngineError::SegmentHttpStatus(code) => {
                let mut m = "El servidor rechazó temporalmente un segmento: HTTP ".to_owned();
                push_decimal(&mut m, *code as u64);
                m
            },
            EngineError::ResumeRejected =>
                "El servidor no respetó el rango solicitado; reinicia la descarga para evitar corrupción".to_owned(),
            EngineError::SourceChanged =>
                "El contenido del enlace cambió; actualiza el enlace o reinicia la descarga".to_owned(),
            EngineError::InvalidContentRange =>
                "El servidor devolvió un Content-Range inválido".to_owned(),
            EngineError::InvalidHeader(name) => {
                let mut m = "Header inválido: ".to_owned();
                m.append(name.as_str());
                m
            },
            EngineError::DestinationExists => "El archivo de destino ya existe".to_owned(),
            EngineError::File => "No se pudo escribir el archivo parcial".to_owned(),
            EngineError::SegmentTask => "Uno de los segmentos de descarga falló".to_owned(),
            EngineError::SegmentInterrupted =>
                "La transferencia segmentada se interrumpió; reintenta para continuar".to_owned(),
        }
    }
}

/// What a `HEAD` request to the source told about it.
#[derive(Clone, Debug)]
pub struct ProbeResult {
    pub size: TransferSize,
    pub validator: SourceValidator,
    pub accepts_ranges: bool,
}

/// The engine runs a transfer through its own steps; this type carries no state.
pub struct DownloadEngine;

/// Two validators name the same version of the source.
pub open spec fn same_validator(a: SourceValidator, b: SourceValidator) -> bool {
    match (a, b) {
        (SourceValidator::Absent, SourceValidator::Absent) => true,
        (SourceValidator::Etag { value: x }, SourceValidator::Etag { value: y }) => x@ == y@,
        (SourceValidator::LastModified { value: x }, SourceValidator::LastModified { value: y }) =>
            x@ == y@,
        _ => false,
    }
}

/// `a == b` on two validators.
pub fn validators_equal(a: &SourceValidator, b: &SourceValidator) -> (r: bool)
    ensures
        r == same_validator(*a, *b),
{
    match (a, b) {
        (SourceValidator::Absent, SourceValidator::Absent) => true,
        (SourceValidator::Etag { value: x }, SourceValidator::Etag { value: y }) => str_equal(
            x.as_str(),
            y.as_str(),
        ),
        (SourceValidator::LastModified { value: x }, SourceValidator::LastModified { value: y }) =>
            str_equal(x.as_str(), y.as_str()),
        _ => false,
    }
}

/// A copy of a validator with the same text.
pub fn copy_validator(v: &SourceValidator) -> (r: SourceValidator)
    ensures
        same_validator(r, *v),
        r == *v,
{
    match v {
        SourceValidator::Absent => SourceValidator::Absent,
        SourceValidator::Etag { value } => SourceValidator::Etag { value: value.clone() },
        SourceValidator::LastModified { value } => SourceValidator::LastModified {
            value: value.clone(),
        },
    }
}

/// The probe reports a known size of at least one segment, the server takes
/// byte ranges, and more than one connection is configured.
pub open spec fn spec_supports_segmented(probe: ProbeResult, requested_threads: u8) -> bool {
    &&& probe.accepts_ranges
    &&& requested_threads > 1
    &&& match probe.size {
        TransferSize::Known { total_bytes } => total_bytes >= MIN_SEGMENT_SIZE,
        TransferSize::Unknown => false,
    }
}

pub fn supports_segmented_transfer(probe: &ProbeResult, requested_threads: u8) -> (r: bool)
    ensures
        r == spec_supports_segmented(*probe, requested_threads),
{
    probe.accepts_ranges && requested_threads > 1 && match probe.size {
        TransferSize::Known { total_bytes } => total_bytes >= MIN_SEGMENT_SIZE,
        TransferSize::Unknown => false,
    }
}

/// Why a transfer runs as one stream.
pub open spec fn spec_single_stream_reason(probe: Option<ProbeResult>, requested_threads: u8) -> Seq<char> {
    if requested_threads <= 1 {
        "Configurado para un único flujo"@
    } else {
        match probe {
            None => "No se pudo confirmar de forma segura el soporte de segmentos"@,
            Some(p) => if !p.accepts_ranges {
                "El servidor no admite solicitudes por rango"@
            } else {
                match p.size {
                    TransferSize::Unknown => "El servidor no informó el tamaño del archivo"@,
                    TransferSize::Known { total_bytes } => if total_bytes < MIN_SEGMENT_SIZE {
                        "El archivo es demasiado pequeño para dividirlo"@
                    } else {
                        "Se seleccionó un único flujo"@
                    },
                }
            },
        }
    }
}

pub fn single_stream_reason(probe: Option<&ProbeResult>, requested_threads: u8) -> (r: String)
    ensures
        r@ == spec_single_stream_reason(
            match probe {
                Some(p) => Some(*p),
                None => None,
            },
            requested_threads,
        ),
{
    if requested_threads <= 1 {
        return "Configurado para un único flujo".to_owned();
    }
    match probe {
        None => "No se pudo confirmar de forma segura el soporte de segmentos".to_owned(),
        Some(p) => {
            if !p.accepts_ranges {
                return "El servidor no admite solicitudes por rango".to_owned();
            }
            match p.size {
                TransferSize::Unknown => "El servidor no informó el tamaño del archivo".to_owned(),
                TransferSize::Known { total_bytes } => if total_bytes < MIN_SEGMENT_SIZE {
                    "El archivo es demasiado pequeño para dividirlo".to_owned()
                } else {
                    "Se seleccionó un único flujo".to_owned()
                },
            }
        },
    }
}

/// Stored segments can be reused when the validator is the same as before
/// and the server reports the same known size.
pub open spec fn spec_partials_compatible(
    previous_size: TransferSize,
    current_size: TransferSize,
    previous_validator: SourceValidator,
    current_validator: SourceValidator,
) -> bool {
    &&& same_validator(previous_validator, current_validator)
    &&& match (previous_size, current_size) {
        (TransferSize::Known { total_bytes: p }, TransferSize::Known { total_bytes: c }) => p == c,
        _ => false,
    }
}

pub fn ensure_segment_partials_compatible(
    previous_size: &TransferSize,
    current_size: &TransferSize,
    previous_validator: &SourceValidator,
    current_validator: &SourceValidator,
) -> (r: Result<(), EngineError>)
    ensures
        r is Ok <==> spec_partials_compatible(
            *previous_size,
            *current_size,
            *previous_validator,
            *current_validator,
        ),
        r matches Err(e) ==> e is SourceChanged,
{
    if !validators_equal(previous_validator, current_validator) {
        return Err(EngineError::SourceChanged);
    }
    match (previous_size, current_size) {
        (TransferSize::Known { total_bytes: previous }, TransferSize::Known { total_bytes: current })
            if *previous == *current => Ok(()),
        _ => Err(EngineError::SourceChanged),
    }
}

/// The segment errors that come from the server's side of the protocol.
pub open spec fn spec_failure_allows_single_stream(e: EngineError) -> bool {
    match e {
        EngineError::Request | EngineError::HttpStatus(_) | EngineError::SegmentHttpStatus(_)
        | EngineError::ResumeRejected | EngineError::SourceChanged
        | EngineError::InvalidContentRange => true,
        _ => false,
    }
}

/// A failure of the segmented protocol on the server's side lets the
/// transfer continue as one stream; cancellation, disk errors and a taken
/// destination do not.
pub fn segmented_failure_allows_single_stream(error: &EngineError) -> (r: bool)
    ensures
        r == spec_failure_allows_single_stream(*error),
{
    match error {
        EngineError::Request | EngineError::HttpStatus(_) | EngineError::SegmentHttpStatus(_)
        | EngineError::ResumeRejected | EngineError::SourceChanged
        | EngineError::InvalidContentRange => true,
        _ => false,
    }
}

/// The path a transfer takes once the source has been probed.
#[derive(Clone, Debug)]
pub enum TransferPlan {
    /// Split the file into byte ranges.
    Segmented,
    /// Transfer one stream, for the reason given.
    Single { reason: String },
    /// Stop with this error.
    Refuse(EngineError),
}

/// The plan for a transfer after probing: segments when the probe allows
/// them; otherwise stored segment partials make the transfer stop (the server
/// now refuses ranges, or it could not be probed); otherwise one stream.
pub open spec fn spec_plan(probe: Option<ProbeResult>, threads: u8, has_segment_partials: bool) -> TransferPlan {
    if probe matches Some(p) && spec_supports_segmented(p, threads) {
        TransferPlan::Segmented
    } else if has_segment_partials {
        if probe is Some {
            TransferPlan::Refuse(EngineError::ResumeRejected)
        } else {
            TransferPlan::Refuse(EngineError::SegmentInterrupted)
        }
    } else {
        TransferPlan::Single { reason: arbitrary() }
    }
}

pub fn plan_after_probe(probe: Option<&ProbeResult>, threads: u8, has_segment_partials: bool) -> (r:
    TransferPlan)
    ensures
        ({
            let p = match probe {
                Some(p) => Some(*p),
                None => None,
            };
            match r {
                TransferPlan::Segmented => spec_plan(p, threads, has_segment_partials) is Segmented,
                TransferPlan::Refuse(e) => spec_plan(p, threads, has_segment_partials) == TransferPlan::Refuse(e),
                TransferPlan::Single { reason } => spec_plan(p, threads, has_segment_partials) is Single
                    && reason@ == spec_single_stream_reason(p, threads),
            }
        }),
{
    if let Some(p) = probe {
        if supports_segmented_transfer(p, threads) {
            return TransferPlan::Segmented;
        }
    }
    if has_segment_partials {
        return if probe.is_some() {
            TransferPlan::Refuse(EngineError::ResumeRejected)
        } else {
            TransferPlan::Refuse(EngineError::SegmentInterrupted)
        };
    }
    TransferPlan::Single { reason: single_stream_reason(probe, threads) }
}

/// A transfer is split into segments exactly when the probe shows a server
/// that takes byte ranges and a known size of at least 2 MiB, and more than
/// one connection is configured. A server that refuses byte ranges never
/// gets segments: without stored segment partials it gets one stream, and
/// with more than one connection configured the reason says that the server
/// refuses ranges.
pub proof fn law_segments_need_a_server_that_takes_ranges(
    probe: ProbeResult,
    threads: u8,
    has_segment_partials: bool,
)
    ensures
        spec_plan(Some(probe), threads, has_segment_partials) is Segmented <==> (probe.accepts_ranges
            && threads > 1 && (probe.size matches TransferSize::Known { total_bytes }
            && total_bytes >= 2097152)),
        !probe.accepts_ranges && !has_segment_partials ==> spec_plan(
            Some(probe),
            threads,
            has_segment_partials,
        ) is Single,
        !probe.accepts_ranges && threads > 1 ==> spec_single_stream_reason(Some(probe), threads)
            == "El servidor no admite solicitudes por rango"@,
{
}

} // verus!
