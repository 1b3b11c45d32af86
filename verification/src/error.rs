//! Errors that the queue reports to the user.
use vstd::prelude::*;

verus! {

/// Why a queue operation was refused.
#[derive(Clone, Debug)]
pub enum AppError {
    /// The input breaks a rule; the text says which.
    Validation(String),
    DownloadNotFound,
    ProxyNotFound,
    /// The local store could not be read or written.
    Storage,
    /// The stored state is not valid JSON of the expected shape.
    InvalidStore,
    AppDirectory,
    /// The file manager could not be opened; the text is the system's.
    ExternalOpen(String),
}

/// The text shown to the user for an error.
pub open spec fn spec_app_message(e: AppError) -> Seq<char> {
    match e {
        AppError::Validation(m) => m@,
        AppError::DownloadNotFound => "Descarga no encontrada"@,
        AppError::ProxyNotFound => "Perfil de proxy no encontrado"@,
        AppError::Storage => "No se pudo acceder al almacenamiento local"@,
        AppError::InvalidStore => "El estado guardado no tiene un formato válido"@,
        AppError::AppDirectory => "No se pudo resolver el directorio de la aplicación"@,
        AppError::ExternalOpen(m) => "No se pudo abrir la ubicación del archivo: "@ + m@,
    }
}

impl AppError {
    pub fn message(&self) -> (m: String)
        ensures
            m@ == spec_app_message(*self),
    {
        match self {
            AppError::Validation(m) => m.clone(),
            AppError::DownloadNotFound => "Descarga no encontrada".to_owned(),
            AppError::ProxyNotFound => "Perfil de proxy no encontrado".to_owned(),
            AppError::Storage => "No se pudo acceder al almacenamiento local".to_owned(),
            AppError::InvalidStore => "El estado guardado no tiene un formato válido".to_owned(),
            AppError::AppDirectory => "No se pudo resolver el directorio de la aplicación".to_owned(),
            AppError::ExternalOpen(m) => {
                let mut r = "No se pudo abrir la ubicación del archivo: ".to_owned();
                r.append(m.as_str());
                r
            },
        }
    }
}

} // verus!
