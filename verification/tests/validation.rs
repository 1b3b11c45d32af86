use fluxor::engine::EngineError;
use fluxor::error::AppError;
use fluxor::http::request_headers;
use fluxor::model::{
    CookieEntry, CreateDownloadInput, DownloadCategory, DownloadSource, HeaderEntry,
    ProxyHealth, ProxyProfile, ProxySelection,
};
use fluxor::rate::reserve_bandwidth;
use fluxor::validation::{validate_create_input, validate_proxy, validate_source};

fn source(url: &str) -> DownloadSource {
    DownloadSource {
        url: url.to_owned(),
        headers: Vec::new(),
        cookies: Vec::new(),
        proxy: ProxySelection::Direct,
        force_single_stream: false,
    }
}

fn message(result: Result<(), AppError>) -> String {
    match result {
        Err(AppError::Validation(message)) => message,
        other => panic!("expected a validation error, got {other:?}"),
    }
}

#[test]
fn sources_must_be_http_without_line_breaks() {
    assert!(validate_source(&source("https://example.com/a.zip")).is_ok());
    assert_eq!(message(validate_source(&source("ftp://example.com/a.zip"))), "Solo se permiten enlaces HTTP o HTTPS");
    assert_eq!(message(validate_source(&source("not a url"))), "El enlace no es válido");
    let mut broken = source("https://example.com/a.zip");
    broken.headers.push(HeaderEntry { name: "X-Test".to_owned(), value: "a\r\nb".to_owned() });
    assert_eq!(message(validate_source(&broken)), "Uno de los headers no es válido");
    let mut owned = source("https://example.com/a.zip");
    owned.headers.push(HeaderEntry { name: "Range".to_owned(), value: "bytes=0-".to_owned() });
    assert_eq!(message(validate_source(&owned)), "El header Range está controlado por Fluxor");
    let mut cookie = source("https://example.com/a.zip");
    cookie.cookies.push(CookieEntry { name: "a;b".to_owned(), value: "1".to_owned() });
    assert_eq!(message(validate_source(&cookie)), "Una de las cookies no es válida");
}

fn input(file_name: &str, threads: u8) -> CreateDownloadInput {
    CreateDownloadInput {
        source: source("https://example.com/a.zip"),
        file_name: file_name.to_owned(),
        file_name_customized: true,
        category: DownloadCategory::Archive,
        category_customized: true,
        destination: "Fluxor".to_owned(),
        destination_customized: true,
        threads,
        speed_limit_bytes: 0,
        start_immediately: true,
    }
}

#[test]
fn new_downloads_need_safe_names_and_connection_counts() {
    assert!(validate_create_input(&input("a.zip", 8)).is_ok());
    assert_eq!(message(validate_create_input(&input("a.zip", 0))), "Los hilos deben estar entre 1 y 32");
    assert_eq!(message(validate_create_input(&input("a.zip", 33))), "Los hilos deben estar entre 1 y 32");
    assert_eq!(message(validate_create_input(&input("dir/a.zip", 8))), "El nombre del archivo no es válido");
    assert_eq!(message(validate_create_input(&input("a..zip", 8))), "El nombre del archivo no es válido");
    assert_eq!(message(validate_create_input(&input("aux.txt", 8))), "El nombre del archivo no es válido");
    assert_eq!(
        message(validate_create_input(&input(&"x".repeat(201), 8))),
        "El nombre del archivo no puede superar 200 caracteres"
    );
    let mut limited = input("a.zip", 8);
    limited.speed_limit_bytes = 10 * 1024 * 1024 * 1024 + 1;
    assert_eq!(message(validate_create_input(&limited)), "El límite de velocidad supera el máximo permitido");
    let mut nowhere = input("a.zip", 8);
    nowhere.destination = "  ".to_owned();
    assert_eq!(message(validate_create_input(&nowhere)), "El directorio de destino es obligatorio");
}

#[test]
fn request_headers_are_canonical_and_checked() {
    let mut s = source("https://example.com/a.zip");
    s.headers.push(HeaderEntry { name: "User-Agent".to_owned(), value: "Browser".to_owned() });
    s.cookies.push(CookieEntry { name: "a".to_owned(), value: "1".to_owned() });
    s.cookies.push(CookieEntry { name: "b".to_owned(), value: "2".to_owned() });
    let headers = request_headers(&s).unwrap();
    assert_eq!(headers.len(), 2);
    assert_eq!(headers[0].name, "user-agent");
    assert_eq!(headers[0].value, "Browser");
    assert_eq!(headers[1].name, "cookie");
    assert_eq!(headers[1].value, "a=1; b=2");
    let mut bad = source("https://example.com/a.zip");
    bad.headers.push(HeaderEntry { name: "X-Bad".to_owned(), value: "a\u{7f}b".to_owned() });
    assert!(matches!(request_headers(&bad), Err(EngineError::InvalidHeader(_))));
}

#[test]
fn proxy_profiles_need_a_valid_url() {
    let profile = |url: &str| ProxyProfile {
        id: "p".to_owned(),
        name: "Proxy".to_owned(),
        url: url.to_owned(),
        enabled: true,
        health: ProxyHealth::Untested,
    };
    assert!(validate_proxy(&profile("http://127.0.0.1:8080")).is_ok());
    assert_eq!(message(validate_proxy(&profile("::not a url::"))), "La URL del proxy no es válida");
}

#[test]
fn bandwidth_reservations_queue_up() {
    let (first, wait) = reserve_bandwidth(0, 1_000, 512, 1024);
    assert_eq!(first, 1_000 + 500_000_000);
    assert_eq!(wait, 500_000_000);
    let (second, wait) = reserve_bandwidth(first, 2_000, 1024, 1024);
    assert_eq!(second, first + 1_000_000_000);
    assert_eq!(wait, second - 2_000);
    assert_eq!(reserve_bandwidth(7, 9, 100, 0), (7, 0));
}

#[test]
fn errors_read_as_the_user_sees_them() {
    assert_eq!(AppError::DownloadNotFound.message(), "Descarga no encontrada");
    assert_eq!(AppError::ProxyNotFound.message(), "Perfil de proxy no encontrado");
    assert_eq!(AppError::Storage.message(), "No se pudo acceder al almacenamiento local");
    assert_eq!(AppError::InvalidStore.message(), "El estado guardado no tiene un formato válido");
    assert_eq!(AppError::AppDirectory.message(), "No se pudo resolver el directorio de la aplicación");
    assert_eq!(
        AppError::ExternalOpen("sin permiso".to_owned()).message(),
        "No se pudo abrir la ubicación del archivo: sin permiso"
    );
    assert_eq!(
        EngineError::HttpStatus(503).message(),
        "El servidor devolvió un estado HTTP inesperado: 503"
    );
    assert_eq!(
        EngineError::SegmentHttpStatus(429).message(),
        "El servidor rechazó temporalmente un segmento: HTTP 429"
    );
    assert_eq!(EngineError::InvalidHeader("If-Range".to_owned()).message(), "Header inválido: If-Range");
    assert_eq!(EngineError::File.message(), "No se pudo escribir el archivo parcial");
    assert!(EngineError::SegmentInterrupted.recoverable());
    assert!(!EngineError::DestinationExists.recoverable());
}
