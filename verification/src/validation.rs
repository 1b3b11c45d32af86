//! The rules that every download, setting and proxy profile must follow
//! before the queue accepts it.
use vstd::prelude::*;

use crate::engine::ResolvedProxy;
use crate::error::AppError;
use crate::http::engine_owned_name;
use crate::model::{
    AppSettings, AppSnapshot, CreateDownloadInput, DownloadCategory, DownloadSource, ProxyProfile,
    ProxySelection,
};
use crate::names::{is_forbidden_char, is_windows_reserved_name, MAX_FILE_NAME_UTF16_UNITS};
use crate::outside::{
    path_components, path_is_absolute, path_join, placed_under, plain_relative, single_component,
    slash_pieces, slash_relative, PathPart,
};
use crate::text::{
    chars_of, char_is_ctrl, find_from, has_char, is_blank, lower_chars, trim_chars, utf16_count,
};

verus! {

pub const MAX_THREADS_PER_DOWNLOAD: u8 = 32;

pub const MAX_CONCURRENT_DOWNLOADS: u8 = 12;

/// 10 GiB per second.
pub const MAX_SPEED_LIMIT_BYTES: u64 = 10737418240;

/// A file name the queue refuses: blank, with a control or forbidden char,
/// with `..`, ending in a dot or a space, or a reserved device name.
pub open spec fn file_name_invalid(n: Seq<char>) -> bool {
    ||| crate::text::trim(n).len() == 0
    ||| exists|i: int|
        0 <= i < n.len() && (crate::text::is_ctrl(#[trigger] n[i]) || crate::names::forbidden_char(
            n[i],
        ))
    ||| crate::text::contains_seq(n, ".."@)
    ||| (n.len() > 0 && (n.last() == '.' || n.last() == ' '))
    ||| crate::names::spec_reserved(n)
}

/// The error of a new download, checked in order: connections, speed limit,
/// name length, name, destination.
pub open spec fn spec_create_input_error(input: CreateDownloadInput) -> Option<Seq<char>> {
    if input.threads == 0 || input.threads > MAX_THREADS_PER_DOWNLOAD {
        Some("Los hilos deben estar entre 1 y 32"@)
    } else if input.speed_limit_bytes > MAX_SPEED_LIMIT_BYTES {
        Some("El límite de velocidad supera el máximo permitido"@)
    } else if crate::text::utf16_len(input.file_name@) > MAX_FILE_NAME_UTF16_UNITS {
        Some("El nombre del archivo no puede superar 200 caracteres"@)
    } else if file_name_invalid(input.file_name@) {
        Some("El nombre del archivo no es válido"@)
    } else if crate::text::trim(input.destination@).len() == 0 {
        Some("El directorio de destino es obligatorio"@)
    } else {
        None
    }
}

pub open spec fn validation_result(r: Result<(), AppError>, expected: Option<Seq<char>>) -> bool {
    match r {
        Ok(()) => expected is None,
        Err(AppError::Validation(m)) => expected == Some(m@),
        Err(_) => false,
    }
}

fn has_bad_char(v: &Vec<char>) -> (r: bool)
    ensures
        r == exists|i: int|
            0 <= i < v@.len() && (crate::text::is_ctrl(#[trigger] v@[i])
                || crate::names::forbidden_char(v@[i])),
{
    let mut i: usize = 0;
    while i < v.len()
        invariant
            i <= v@.len(),
            forall|j: int|
                0 <= j < i ==> !(crate::text::is_ctrl(#[trigger] v@[j])
                    || crate::names::forbidden_char(v@[j])),
        decreases v@.len() - i,
    {
        if char_is_ctrl(v[i]) || is_forbidden_char(v[i]) {
            assert(crate::text::is_ctrl(v@[i as int]) || crate::names::forbidden_char(v@[i as int]));
            return true;
        }
        i = i + 1;
    }
    false
}

fn name_is_invalid(name: &str) -> (r: bool)
    ensures
        r == file_name_invalid(name@),
{
    let v = chars_of(name);
    if is_blank(name) || has_bad_char(&v) {
        return true;
    }
    let double = find_from(&v, "..", 0);
    if double.is_some() {
        return true;
    }
    let n = v.len();
    if n > 0 && (v[n - 1] == '.' || v[n - 1] == ' ') {
        return true;
    }
    is_windows_reserved_name(name)
}

/// Checks a new download before it enters the queue.
pub fn validate_create_input(input: &CreateDownloadInput) -> (r: Result<(), AppError>)
    ensures
        validation_result(r, spec_create_input_error(*input)),
{
    if input.threads == 0 || input.threads > MAX_THREADS_PER_DOWNLOAD {
        return Err(AppError::Validation("Los hilos deben estar entre 1 y 32".to_owned()));
    }
    if input.speed_limit_bytes > MAX_SPEED_LIMIT_BYTES {
        return Err(
            AppError::Validation("El límite de velocidad supera el máximo permitido".to_owned()),
        );
    }
    let name = chars_of(input.file_name.as_str());
    if utf16_count(&name) > MAX_FILE_NAME_UTF16_UNITS as u128 {
        return Err(
            AppError::Validation("El nombre del archivo no puede superar 200 caracteres".to_owned()),
        );
    }
    if name_is_invalid(input.file_name.as_str()) {
        return Err(AppError::Validation("El nombre del archivo no es válido".to_owned()));
    }
    if is_blank(input.destination.as_str()) {
        return Err(AppError::Validation("El directorio de destino es obligatorio".to_owned()));
    }
    Ok(())
}

/// No component of a configured download directory climbs to a parent;
/// a relative one also has no root or drive prefix.
pub open spec fn spec_configured_parts_safe(parts: Seq<PathPart>, absolute: bool) -> bool {
    forall|i: int|
        0 <= i < parts.len() ==> if absolute {
            !(#[trigger] parts[i] is ParentDir)
        } else {
            !(parts[i] is ParentDir || parts[i] is RootDir || parts[i] is Prefix)
        }
}

/// A category directory is relative and has no parent, root or prefix component.
pub open spec fn spec_relative_parts_safe(parts: Seq<PathPart>, absolute: bool) -> bool {
    !absolute && forall|i: int|
        0 <= i < parts.len() ==> !(#[trigger] parts[i] is ParentDir || parts[i] is RootDir
            || parts[i] is Prefix)
}

pub fn configured_parts_safe(parts: &Vec<PathPart>, absolute: bool) -> (r: bool)
    ensures
        r == spec_configured_parts_safe(parts@, absolute),
{
    let mut i: usize = 0;
    while i < parts.len()
        invariant
            i <= parts@.len(),
            forall|j: int|
                0 <= j < i ==> if absolute {
                    !(#[trigger] parts@[j] is ParentDir)
                } else {
                    !(parts@[j] is ParentDir || parts@[j] is RootDir || parts@[j] is Prefix)
                },
        decreases parts@.len() - i,
    {
        let bad = match &parts[i] {
            PathPart::ParentDir => true,
            PathPart::RootDir | PathPart::Prefix => !absolute,
            _ => false,
        };
        if bad {
            return false;
        }
        i = i + 1;
    }
    true
}

pub fn relative_parts_safe(parts: &Vec<PathPart>, absolute: bool) -> (r: bool)
    ensures
        r == spec_relative_parts_safe(parts@, absolute),
{
    if absolute {
        return false;
    }
    configured_parts_safe(parts, false)
}

/// A download directory: not blank, and without `..` components (a relative
/// one also without a root or a drive). A single plain name always passes.
pub fn is_safe_configured_directory(value: &str) -> (r: bool)
    ensures
        crate::text::trim(value@).len() == 0 ==> !r,
        crate::outside::single_component(crate::text::trim(value@)) ==> r,
        crate::text::trim(value@) == ".."@ ==> !r,
        slash_relative(crate::text::trim(value@)) && slash_pieces(crate::text::trim(value@)).contains(
            ".."@,
        ) ==> !r,
        plain_relative(crate::text::trim(value@)) ==> r,
{
    let v = chars_of(value);
    let t = crate::text::string_of(&trim_chars(&v));
    if t.unicode_len() == 0 {
        proof {
            assert(slash_pieces(t@) == seq![Seq::<char>::empty()]);
            assert(!crate::outside::plain_piece(slash_pieces(t@)[0]));
        }
        return false;
    }
    let parts = path_components(t.as_str());
    let absolute = path_is_absolute(t.as_str());
    let r = configured_parts_safe(&parts, absolute);
    proof {
        reveal_strlit("..");
        assert(".."@ =~= seq!['.', '.']);
        if t@ == ".."@ {
            assert(!r) by {
                assert(parts@[0] is ParentDir);
            }
        }
    }
    r
}

/// A category subdirectory: not blank, relative, and without `..`, root or
/// drive components. A single plain name always passes.
pub fn is_safe_relative_subdirectory(value: &str) -> (r: bool)
    ensures
        crate::text::trim(value@).len() == 0 ==> !r,
        crate::outside::single_component(crate::text::trim(value@)) ==> r,
        crate::text::trim(value@) == ".."@ ==> !r,
        slash_relative(crate::text::trim(value@)) && slash_pieces(crate::text::trim(value@)).contains(
            ".."@,
        ) ==> !r,
        plain_relative(crate::text::trim(value@)) ==> r,
{
    let v = chars_of(value);
    let t = crate::text::string_of(&trim_chars(&v));
    if t.unicode_len() == 0 {
        proof {
            assert(slash_pieces(t@) == seq![Seq::<char>::empty()]);
            assert(!crate::outside::plain_piece(slash_pieces(t@)[0]));
        }
        return false;
    }
    let parts = path_components(t.as_str());
    let absolute = path_is_absolute(t.as_str());
    let r = relative_parts_safe(&parts, absolute);
    proof {
        reveal_strlit("..");
        assert(".."@ =~= seq!['.', '.']);
        if t@ == ".."@ {
            assert(!r) by {
                assert(parts@[0] is ParentDir);
            }
        }
    }
    r
}

/// The errors of the numeric settings, checked in order.
pub open spec fn spec_settings_number_error(s: AppSettings) -> Option<Seq<char>> {
    if s.max_concurrent == 0 || s.max_concurrent > MAX_CONCURRENT_DOWNLOADS {
        Some("Las descargas simultáneas deben estar entre 1 y 12"@)
    } else if s.default_threads == 0 || s.default_threads > MAX_THREADS_PER_DOWNLOAD {
        Some("Los hilos predeterminados deben estar entre 1 y 32"@)
    } else if s.default_speed_limit_bytes > MAX_SPEED_LIMIT_BYTES {
        Some("El límite de velocidad predeterminado no es válido"@)
    } else {
        None
    }
}

pub open spec fn category_dirs(s: AppSettings) -> Seq<Seq<char>> {
    seq![
        s.category_directories.video@,
        s.category_directories.archive@,
        s.category_directories.document@,
        s.category_directories.audio@,
        s.category_directories.other@,
    ]
}

/// A directory that every platform reads as relative plain names: one plain
/// component, or plain names joined by `/`.
pub open spec fn plain_directory(s: Seq<char>) -> bool {
    single_component(s) || plain_relative(s)
}

/// A relative directory, split at `/` alone, with a `..` piece.
pub open spec fn climbs_out(s: Seq<char>) -> bool {
    slash_relative(s) && slash_pieces(s).contains(".."@)
}

pub open spec fn directory_error() -> Seq<char> {
    "El directorio principal de descarga no es válido"@
}

pub open spec fn category_error() -> Seq<char> {
    "Una de las carpetas de categoría no es válida"@
}

/// Checks the settings: the numbers first, then the download directory,
/// then (when downloads are sorted by category) each category directory.
pub fn validate_settings(settings: &AppSettings) -> (r: Result<(), AppError>)
    ensures
        spec_settings_number_error(*settings) is Some ==> validation_result(
            r,
            spec_settings_number_error(*settings),
        ),
        r is Ok ==> spec_settings_number_error(*settings) is None && crate::text::trim(
            settings.download_directory@,
        ).len() > 0 && (settings.organize_by_category ==> forall|i: int|
            0 <= i < 5 ==> crate::text::trim(#[trigger] category_dirs(*settings)[i]).len() > 0),
        spec_settings_number_error(*settings) is None && plain_directory(
            crate::text::trim(settings.download_directory@),
        ) && (settings.organize_by_category ==> forall|i: int|
            0 <= i < 5 ==> plain_directory(crate::text::trim(#[trigger] category_dirs(*settings)[i])))
            ==> r is Ok,
        spec_settings_number_error(*settings) is None && climbs_out(
            crate::text::trim(settings.download_directory@),
        ) ==> (r matches Err(AppError::Validation(m)) && m@ == directory_error()),
        spec_settings_number_error(*settings) is None && plain_directory(
            crate::text::trim(settings.download_directory@),
        ) && settings.organize_by_category && (exists|i: int|
            0 <= i < 5 && climbs_out(crate::text::trim(#[trigger] category_dirs(*settings)[i])))
            ==> (r matches Err(AppError::Validation(m)) && m@ == category_error()),
        r matches Err(e) ==> (e matches AppError::Validation(m) && (spec_settings_number_error(
            *settings,
        ) == Some(m@) || (spec_settings_number_error(*settings) is None && (m@ == directory_error()
            || m@ == category_error())))),
{
    if settings.max_concurrent == 0 || settings.max_concurrent > MAX_CONCURRENT_DOWNLOADS {
        return Err(
            AppError::Validation("Las descargas simultáneas deben estar entre 1 y 12".to_owned()),
        );
    }
    if settings.default_threads == 0 || settings.default_threads > MAX_THREADS_PER_DOWNLOAD {
        return Err(
            AppError::Validation("Los hilos predeterminados deben estar entre 1 y 32".to_owned()),
        );
    }
    if settings.default_speed_limit_bytes > MAX_SPEED_LIMIT_BYTES {
        return Err(
            AppError::Validation("El límite de velocidad predeterminado no es válido".to_owned()),
        );
    }
    if !is_safe_configured_directory(settings.download_directory.as_str()) {
        return Err(
            AppError::Validation("El directorio principal de descarga no es válido".to_owned()),
        );
    }
    if settings.organize_by_category {
        let d = &settings.category_directories;
        let video = is_safe_relative_subdirectory(d.video.as_str());
        let archive = is_safe_relative_subdirectory(d.archive.as_str());
        let document = is_safe_relative_subdirectory(d.document.as_str());
        let audio = is_safe_relative_subdirectory(d.audio.as_str());
        let other = is_safe_relative_subdirectory(d.other.as_str());
        if !(video && archive && document && audio && other) {
            proof {
                let c = category_dirs(*settings);
                assert(c[0] == d.video@ && c[1] == d.archive@ && c[2] == d.document@ && c[3]
                    == d.audio@ && c[4] == d.other@);
            }
            return Err(
                AppError::Validation("Una de las carpetas de categoría no es válida".to_owned()),
            );
        }
        proof {
            let c = category_dirs(*settings);
            assert(c[0] == d.video@ && c[1] == d.archive@ && c[2] == d.document@ && c[3] == d.audio@
                && c[4] == d.other@);
        }
    }
    Ok(())
}

/// A header name that the engine sets itself, whatever its case and
/// surrounding whitespace.
pub fn is_engine_controlled_header(name: &str) -> (r: bool)
    ensures
        r == engine_owned_name(crate::text::lower_seq(crate::text::trim(name@))),
{
    let v = chars_of(name);
    let l = lower_chars(&trim_chars(&v));
    let s = crate::text::string_of(&l);
    is_owned(&s)
}

fn is_owned(n: &String) -> (r: bool)
    ensures
        r == engine_owned_name(n@),
{
    let v = chars_of(n.as_str());
    lit(&v, "range") || lit(&v, "if-range") || lit(&v, "content-length") || lit(&v, "content-range")
        || lit(&v, "cookie") || lit(&v, "accept-encoding") || lit(&v, "connection") || lit(
        &v,
        "host",
    ) || lit(&v, "te") || lit(&v, "trailer") || lit(&v, "transfer-encoding") || lit(&v, "upgrade")
}

fn lit(v: &Vec<char>, literal: &str) -> (r: bool)
    ensures
        r == (v@ == literal@),
{
    let c = chars_of(literal);
    crate::text::chars_equal(v, &c)
}

/// A header that breaks the request line: a blank name, or CR or LF in it.
pub open spec fn header_malformed(name: Seq<char>, value: Seq<char>) -> bool {
    crate::text::trim(name).len() == 0 || name.contains('\r') || name.contains('\n')
        || value.contains('\r') || value.contains('\n')
}

/// A cookie that breaks the cookie line: a blank name, `;`, CR or LF.
pub open spec fn cookie_malformed(name: Seq<char>, value: Seq<char>) -> bool {
    crate::text::trim(name).len() == 0 || name.contains(';') || name.contains('\r') || name.contains(
        '\n',
    ) || value.contains('\r') || value.contains('\n')
}

/// The error of a download source, checked in order: the URL parses, its
/// scheme is HTTP or HTTPS, no header is malformed, the first header the
/// engine controls is named, no cookie is malformed.
pub open spec fn spec_source_error(source: DownloadSource) -> Option<Seq<char>> {
    let hs = source.headers@;
    let cs = source.cookies@;
    match crate::outside::spec_url_parts(source.url@) {
        None => Some("El enlace no es válido"@),
        Some((scheme, _, _)) => if scheme != "http"@ && scheme != "https"@ {
            Some("Solo se permiten enlaces HTTP o HTTPS"@)
        } else if exists|i: int|
            0 <= i < hs.len() && header_malformed(#[trigger] hs[i].name@, hs[i].value@) {
            Some("Uno de los headers no es válido"@)
        } else if exists|i: int|
            0 <= i < hs.len() && engine_owned_name(
                crate::text::lower_seq(crate::text::trim(#[trigger] hs[i].name@)),
            ) {
            let k = choose|k: int|
                0 <= k < hs.len() && engine_owned_name(
                    crate::text::lower_seq(crate::text::trim(#[trigger] hs[k].name@)),
                ) && forall|j: int|
                    0 <= j < k ==> !engine_owned_name(
                        crate::text::lower_seq(crate::text::trim(#[trigger] hs[j].name@)),
                    );
            Some("El header "@ + hs[k].name@ + " está controlado por Fluxor"@)
        } else if exists|i: int|
            0 <= i < cs.len() && cookie_malformed(#[trigger] cs[i].name@, cs[i].value@) {
            Some("Una de las cookies no es válida"@)
        } else {
            None
        },
    }
}

fn header_is_malformed(name: &String, value: &String) -> (r: bool)
    ensures
        r == header_malformed(name@, value@),
{
    let n = chars_of(name.as_str());
    let v = chars_of(value.as_str());
    is_blank(name.as_str()) || has_char(&n, '\r') || has_char(&n, '\n') || has_char(&v, '\r')
        || has_char(&v, '\n')
}

fn cookie_is_malformed(name: &String, value: &String) -> (r: bool)
    ensures
        r == cookie_malformed(name@, value@),
{
    let n = chars_of(name.as_str());
    let v = chars_of(value.as_str());
    is_blank(name.as_str()) || has_char(&n, ';') || has_char(&n, '\r') || has_char(&n, '\n')
        || has_char(&v, '\r') || has_char(&v, '\n')
}

/// Checks the URL, headers and cookies of a download source.
#[verifier::loop_isolation(false)]
pub fn validate_source(source: &DownloadSource) -> (r: Result<(), AppError>)
    ensures
        validation_result(r, spec_source_error(*source)),
{
    let ghost hs = source.headers@;
    let ghost cs = source.cookies@;
    let (scheme, _, _) = match crate::outside::parse_url(source.url.as_str()) {
        Some(parts) => parts,
        None => return Err(AppError::Validation("El enlace no es válido".to_owned())),
    };
    let sc = chars_of(scheme.as_str());
    if !lit(&sc, "http") && !lit(&sc, "https") {
        return Err(AppError::Validation("Solo se permiten enlaces HTTP o HTTPS".to_owned()));
    }
    let mut i: usize = 0;
    while i < source.headers.len()
        invariant
            hs == source.headers@,
            i <= hs.len(),
            forall|j: int| 0 <= j < i ==> !header_malformed(#[trigger] hs[j].name@, hs[j].value@),
        decreases hs.len() - i,
    {
        if header_is_malformed(&source.headers[i].name, &source.headers[i].value) {
            return Err(AppError::Validation("Uno de los headers no es válido".to_owned()));
        }
        i = i + 1;
    }
    let mut k: usize = 0;
    while k < source.headers.len()
        invariant
            hs == source.headers@,
            k <= hs.len(),
            forall|j: int|
                0 <= j < k ==> !engine_owned_name(
                    crate::text::lower_seq(crate::text::trim(#[trigger] hs[j].name@)),
                ),
        decreases hs.len() - k,
    {
        if is_engine_controlled_header(source.headers[k].name.as_str()) {
            let mut m = "El header ".to_owned();
            m.append(source.headers[k].name.as_str());
            m.append(" está controlado por Fluxor");
            proof {
                let w = choose|w: int|
                    0 <= w < hs.len() && engine_owned_name(
                        crate::text::lower_seq(crate::text::trim(#[trigger] hs[w].name@)),
                    ) && forall|j: int|
                        0 <= j < w ==> !engine_owned_name(
                            crate::text::lower_seq(crate::text::trim(#[trigger] hs[j].name@)),
                        );
                assert(engine_owned_name(crate::text::lower_seq(crate::text::trim(hs[k as int].name@))));
                if w < k {
                    assert(!engine_owned_name(crate::text::lower_seq(crate::text::trim(hs[w].name@))));
                }
                if w > k {
                    assert(!engine_owned_name(crate::text::lower_seq(crate::text::trim(hs[k as int].name@))));
                }
                assert(w == k);
            }
            return Err(AppError::Validation(m));
        }
        k = k + 1;
    }
    let mut c: usize = 0;
    while c < source.cookies.len()
        invariant
            cs == source.cookies@,
            c <= cs.len(),
            forall|j: int| 0 <= j < c ==> !cookie_malformed(#[trigger] cs[j].name@, cs[j].value@),
        decreases cs.len() - c,
    {
        if cookie_is_malformed(&source.cookies[c].name, &source.cookies[c].value) {
            return Err(AppError::Validation("Una de las cookies no es válida".to_owned()));
        }
        c = c + 1;
    }
    Ok(())
}

/// The error of a proxy profile: an identifier and a name are needed, and
/// the URL must be one that the HTTP client takes as a proxy.
pub open spec fn spec_proxy_error(p: ProxyProfile) -> Option<Seq<char>> {
    if crate::text::trim(p.id@).len() == 0 || crate::text::trim(p.name@).len() == 0 {
        Some("El proxy necesita nombre e identificador"@)
    } else if !crate::outside::spec_proxy_accepted(p.url@) {
        Some("La URL del proxy no es válida"@)
    } else {
        None
    }
}

pub fn validate_proxy(proxy: &ProxyProfile) -> (r: Result<(), AppError>)
    ensures
        validation_result(r, spec_proxy_error(*proxy)),
{
    if is_blank(proxy.id.as_str()) || is_blank(proxy.name.as_str()) {
        return Err(AppError::Validation("El proxy necesita nombre e identificador".to_owned()));
    }
    if !crate::outside::proxy_url_accepted(proxy.url.as_str()) {
        return Err(AppError::Validation("La URL del proxy no es válida".to_owned()));
    }
    Ok(())
}

/// Index of the first proxy profile with the identifier.
pub open spec fn first_proxy(proxies: Seq<ProxyProfile>, id: Seq<char>) -> Option<int> {
    if exists|i: int| 0 <= i < proxies.len() && (#[trigger] proxies[i]).id@ == id {
        Some(
            choose|i: int|
                0 <= i < proxies.len() && (#[trigger] proxies[i]).id@ == id && forall|j: int|
                    0 <= j < i ==> (#[trigger] proxies[j]).id@ != id,
        )
    } else {
        None
    }
}

pub fn find_proxy(proxies: &Vec<ProxyProfile>, id: &str) -> (r: Option<usize>)
    ensures
        match r {
            Some(i) => i < proxies@.len() && proxies@[i as int].id@ == id@ && forall|j: int|
                0 <= j < i ==> (#[trigger] proxies@[j]).id@ != id@,
            None => forall|j: int| 0 <= j < proxies@.len() ==> (#[trigger] proxies@[j]).id@ != id@,
        },
        r matches Some(i) ==> first_proxy(proxies@, id@) == Some(i as int),
        r is None ==> first_proxy(proxies@, id@) is None,
{
    let mut i: usize = 0;
    while i < proxies.len()
        invariant
            i <= proxies@.len(),
            forall|j: int| 0 <= j < i ==> (#[trigger] proxies@[j]).id@ != id@,
        decreases proxies@.len() - i,
    {
        if crate::text::str_equal(proxies[i].id.as_str(), id) {
            proof {
                let w = choose|w: int|
                    0 <= w < proxies@.len() && (#[trigger] proxies@[w]).id@ == id@ && forall|j: int|
                        0 <= j < w ==> (#[trigger] proxies@[j]).id@ != id@;
                assert(proxies@[i as int].id@ == id@);
                if w < i {
                    assert(proxies@[w].id@ != id@);
                }
                if w > i {
                    assert(proxies@[i as int].id@ != id@);
                }
            }
            return Some(i);
        }
        i = i + 1;
    }
    None
}

/// The proxy a selection stands for: direct, or the URL of an enabled
/// profile with that identifier.
pub fn resolve_proxy(state: &AppSnapshot, selection: &ProxySelection) -> (r: Result<
    ResolvedProxy,
    AppError,
>)
    ensures
        match *selection {
            ProxySelection::Direct => r matches Ok(ResolvedProxy::Direct),
            ProxySelection::Profile { profile_id } => match first_proxy(
                state.proxies@,
                profile_id@,
            ) {
                None => r matches Err(AppError::ProxyNotFound),
                Some(i) => if state.proxies@[i].enabled {
                    r matches Ok(ResolvedProxy::Url(u)) && u@ == state.proxies@[i].url@
                } else {
                    r matches Err(AppError::Validation(m)) && m@
                        == "El proxy asignado está desactivado"@
                },
            },
        },
{
    match selection {
        ProxySelection::Direct => Ok(ResolvedProxy::Direct),
        ProxySelection::Profile { profile_id } => {
            let i = match find_proxy(&state.proxies, profile_id.as_str()) {
                Some(i) => i,
                None => return Err(AppError::ProxyNotFound),
            };
            let profile = &state.proxies[i];
            if !profile.enabled {
                return Err(AppError::Validation("El proxy asignado está desactivado".to_owned()));
            }
            Ok(ResolvedProxy::Url(profile.url.clone()))
        },
    }
}

/// The directory of a category in the settings.
pub open spec fn spec_category_directory(s: AppSettings, c: DownloadCategory) -> Seq<char> {
    match c {
        DownloadCategory::Video => s.category_directories.video@,
        DownloadCategory::Archive => s.category_directories.archive@,
        DownloadCategory::Document => s.category_directories.document@,
        DownloadCategory::Audio => s.category_directories.audio@,
        DownloadCategory::Other => s.category_directories.other@,
    }
}

/// Where a download of a category goes by default: the download directory,
/// or its subdirectory for the category when downloads are sorted.
pub fn destination_for_category(settings: &AppSettings, category: &DownloadCategory) -> (r: String)
    ensures
        !settings.organize_by_category ==> r@ == settings.download_directory@,
        settings.organize_by_category && (single_component(
            spec_category_directory(*settings, *category),
        ) || plain_relative(spec_category_directory(*settings, *category))) ==> placed_under(
            settings.download_directory@,
            spec_category_directory(*settings, *category),
            r@,
        ),
{
    if !settings.organize_by_category {
        return settings.download_directory.clone();
    }
    let d = &settings.category_directories;
    let sub = match category {
        DownloadCategory::Video => &d.video,
        DownloadCategory::Archive => &d.archive,
        DownloadCategory::Document => &d.document,
        DownloadCategory::Audio => &d.audio,
        DownloadCategory::Other => &d.other,
    };
    path_join(settings.download_directory.as_str(), sub.as_str())
}


/// A source that passes validation is an HTTP or HTTPS link whose headers
/// and cookies carry no line breaks, whose cookies carry no `;`, and which
/// sets none of the headers the engine controls.
pub proof fn law_valid_sources_carry_no_line_breaks(source: DownloadSource)
    requires
        spec_source_error(source) is None,
    ensures
        crate::outside::spec_url_parts(source.url@) matches Some(parts) && (parts.0 == "http"@
            || parts.0 == "https"@),
        forall|i: int|
            0 <= i < source.headers@.len() ==> {
                let h = #[trigger] source.headers@[i];
                &&& !h.name@.contains('\r') && !h.name@.contains('\n')
                &&& !h.value@.contains('\r') && !h.value@.contains('\n')
                &&& !engine_owned_name(crate::text::lower_seq(crate::text::trim(h.name@)))
            },
        forall|i: int|
            0 <= i < source.cookies@.len() ==> {
                let c = #[trigger] source.cookies@[i];
                &&& !c.name@.contains(';') && !c.name@.contains('\r') && !c.name@.contains('\n')
                &&& !c.value@.contains('\r') && !c.value@.contains('\n')
            },
{
    let hs = source.headers@;
    let cs = source.cookies@;
    assert forall|i: int| 0 <= i < hs.len() implies {
        let h = #[trigger] hs[i];
        &&& !h.name@.contains('\r') && !h.name@.contains('\n')
        &&& !h.value@.contains('\r') && !h.value@.contains('\n')
        &&& !engine_owned_name(crate::text::lower_seq(crate::text::trim(h.name@)))
    } by {
        assert(!header_malformed(hs[i].name@, hs[i].value@));
    }
    assert forall|i: int| 0 <= i < cs.len() implies {
        let c = #[trigger] cs[i];
        &&& !c.name@.contains(';') && !c.name@.contains('\r') && !c.name@.contains('\n')
        &&& !c.value@.contains('\r') && !c.value@.contains('\n')
    } by {
        assert(!cookie_malformed(cs[i].name@, cs[i].value@));
    }
}

/// A new download that passes validation uses 1 to 32 connections, a
/// speed limit within the maximum, and a file name of at most 200 UTF-16
/// units that is not blank and holds no separator, control char or `..`.
pub proof fn law_valid_downloads_have_safe_names(input: CreateDownloadInput)
    requires
        spec_create_input_error(input) is None,
    ensures
        1 <= input.threads <= MAX_THREADS_PER_DOWNLOAD,
        input.speed_limit_bytes <= MAX_SPEED_LIMIT_BYTES,
        crate::text::utf16_len(input.file_name@) <= MAX_FILE_NAME_UTF16_UNITS,
        crate::text::trim(input.file_name@).len() > 0,
        forall|i: int|
            0 <= i < input.file_name@.len() ==> #[trigger] input.file_name@[i] != '/'
                && input.file_name@[i] != '\\' && !crate::text::is_ctrl(input.file_name@[i]),
        !crate::text::contains_seq(input.file_name@, ".."@),
{
    assert forall|i: int| 0 <= i < input.file_name@.len() implies #[trigger] input.file_name@[i]
        != '/' && input.file_name@[i] != '\\' && !crate::text::is_ctrl(input.file_name@[i]) by {
        assert(!(crate::text::is_ctrl(input.file_name@[i]) || crate::names::forbidden_char(
            input.file_name@[i],
        )));
    }
}

/// A new download is accepted exactly when it asks for 1 to 32 connections,
/// a speed limit of at most 10 GiB per second (0 meaning none), a valid file
/// name of at most 200 UTF-16 units and a destination that is not blank.
/// A limit above 10 GiB per second, with a valid connection count, is
/// refused for that reason.
pub proof fn law_new_downloads_accept_every_limit_up_to_ten_gib(input: CreateDownloadInput)
    ensures
        spec_create_input_error(input) is None <==> (1 <= input.threads <= 32
            && input.speed_limit_bytes <= 10737418240 && crate::text::utf16_len(input.file_name@)
            <= 200 && !file_name_invalid(input.file_name@) && crate::text::trim(
            input.destination@,
        ).len() > 0),
        1 <= input.threads <= 32 && input.speed_limit_bytes > 10737418240 ==> spec_create_input_error(
            input,
        ) == Some("El límite de velocidad supera el máximo permitido"@),
{
}

} // verus!
