//! How a download sent by the browser extension becomes a queue request:
//! which name the file gets, and which request context travels with it.
use vstd::prelude::*;

use crate::http::first_occurrence;
use crate::model::{
    AppSettings, BrowserDownloadInput, CookieEntry, CreateDownloadInput, DownloadCategory,
    DownloadSource, HeaderEntry, ProxySelection,
};
use crate::names::{needs_remote_file_name, sanitize_detected_file_name};
use crate::text::{chars_of, find_from, is_blank, lower_chars, string_of, trim_chars};

verus! {

/// `s.split_once(" - ").map_or(s, |(name, _)| name).trim()`: a title
/// without the fansub group that follows ` - `.
pub open spec fn spec_strip_fansub(s: Seq<char>) -> Seq<char> {
    match first_occurrence(s, " - "@, 0) {
        Some(i) => crate::text::trim(s.subrange(0, i)),
        None => crate::text::trim(s),
    }
}

/// The ASCII digits at the start of `s`.
pub open spec fn leading_digits(s: Seq<char>) -> Seq<char>
    decreases s.len(),
{
    if s.len() > 0 && crate::text::is_digit(s[0]) {
        seq![s[0]] + leading_digits(s.drop_first())
    } else {
        Seq::empty()
    }
}

/// Anime name and episode number of a page title: `Ver episodio <N> de
/// <name> - <fansub>`, or `<name> Episodio <digits>...`, in any case. When a
/// title starts with `ver episodio ` but has no ` de ` after it, there is no
/// match at all.
pub open spec fn spec_episode(title: Seq<char>) -> Option<(Seq<char>, Seq<char>)> {
    let lower = crate::text::lower_seq(title);
    let prefix = "ver episodio "@;
    if crate::text::has_prefix(lower, prefix) && first_occurrence(
        lower.subrange(13, lower.len() as int),
        " de "@,
        0,
    ) is None {
        None
    } else {
        let first = if crate::text::has_prefix(lower, prefix) {
            let sep = first_occurrence(lower.subrange(13, lower.len() as int), " de "@, 0)->0 + 13;
            let episode = crate::text::trim(title.subrange(13, sep));
            let anime = spec_strip_fansub(title.subrange(sep + 4, title.len() as int));
            if episode.len() > 0 && anime.len() > 0 {
                Some((anime, episode))
            } else {
                None
            }
        } else {
            None
        };
        if first is Some {
            first
        } else {
            match first_occurrence(lower, " episodio "@, 0) {
                Some(sep) => {
                    let anime = crate::text::trim(title.subrange(0, sep));
                    let episode = leading_digits(lower.subrange(sep + 10, lower.len() as int));
                    if anime.len() > 0 && episode.len() > 0 {
                        Some((anime, episode))
                    } else {
                        None
                    }
                },
                None => None,
            }
        }
    }
}

fn copy_range(v: &Vec<char>, from: usize, to: usize) -> (r: Vec<char>)
    requires
        from <= to <= v@.len(),
    ensures
        r@ == v@.subrange(from as int, to as int),
{
    let mut r: Vec<char> = Vec::new();
    let mut i = from;
    while i < to
        invariant
            from <= i <= to <= v@.len(),
            r@ == v@.subrange(from as int, i as int),
        decreases to - i,
    {
        r.push(v[i]);
        i = i + 1;
    }
    r
}

fn find_first(v: &Vec<char>, p: &str, from: usize) -> (r: Option<usize>)
    requires
        from <= v@.len(),
    ensures
        match first_occurrence(v@.subrange(from as int, v@.len() as int), p@, 0) {
            Some(i) => 0 <= i && r == Some((from + i) as usize) && from + i + p@.len() <= v@.len(),
            None => r is None,
        },
{
    let ghost s = v@.subrange(from as int, v@.len() as int);
    let r = find_from(v, p, from);
    proof {
        match r {
            Some(k) => {
                assert forall|j: int| 0 <= j < k - from implies !crate::text::contains_at(
                    s,
                    p@,
                    j,
                ) by {
                    if crate::text::contains_at(s, p@, j) {
                        assert(s.subrange(j, j + p@.len()) =~= v@.subrange(
                            from + j,
                            from + j + p@.len(),
                        ));
                        assert(crate::text::contains_at(v@, p@, from + j));
                    }
                }
                assert(s.subrange(k - from, k - from + p@.len()) =~= v@.subrange(
                    k as int,
                    k + p@.len(),
                ));
                lemma_found(s, p@, 0, k - from);
            },
            None => {
                assert forall|j: int| 0 <= j implies !crate::text::contains_at(s, p@, j) by {
                    if crate::text::contains_at(s, p@, j) {
                        assert(s.subrange(j, j + p@.len()) =~= v@.subrange(
                            from + j,
                            from + j + p@.len(),
                        ));
                        assert(crate::text::contains_at(v@, p@, from + j));
                    }
                }
                lemma_none(s, p@, 0);
            },
        }
    }
    r
}

proof fn lemma_found(s: Seq<char>, p: Seq<char>, from: int, k: int)
    requires
        0 <= from <= k,
        crate::text::contains_at(s, p, k),
        forall|j: int| from <= j < k ==> !crate::text::contains_at(s, p, j),
    ensures
        first_occurrence(s, p, from) == Some(k),
    decreases k - from,
{
    if from < k {
        lemma_found(s, p, from + 1, k);
    }
}

proof fn lemma_none(s: Seq<char>, p: Seq<char>, from: int)
    requires
        0 <= from,
        forall|j: int| from <= j ==> !crate::text::contains_at(s, p, j),
    ensures
        first_occurrence(s, p, from) is None,
    decreases s.len() + 1 - from,
{
    if from <= s.len() {
        lemma_none(s, p, from + 1);
    }
}

/// A title without its fansub group.
pub fn strip_fansub(value: &Vec<char>) -> (r: Vec<char>)
    ensures
        r@ == spec_strip_fansub(value@),
{
    let n = value.len();
    assert(value@.subrange(0, value@.len() as int) =~= value@);
    proof {
        reveal_strlit(" - ");
        assert(first_occurrence(value@.subrange(0, value@.len() as int), " - "@, 0)
            == first_occurrence(value@, " - "@, 0));
    }
    match find_first(value, " - ", 0) {
        Some(i) => {
            let c = copy_range(value, 0, i);
            let t = trim_chars(&c);
            assert(first_occurrence(value@, " - "@, 0) == Some(i as int));
            t
        },
        None => {
            assert(first_occurrence(value@, " - "@, 0) is None);
            trim_chars(value)
        },
    }
}

fn leading_digits_of(v: &Vec<char>, from: usize) -> (r: Vec<char>)
    requires
        from <= v@.len(),
    ensures
        r@ == leading_digits(v@.subrange(from as int, v@.len() as int)),
{
    let mut end = from;
    while end < v.len() && '0' <= v[end] && v[end] <= '9'
        invariant
            from <= end <= v@.len(),
            forall|j: int| from <= j < end ==> crate::text::is_digit(#[trigger] v@[j]),
        decreases v@.len() - end,
    {
        end = end + 1;
    }
    proof {
        lemma_leading_digits(v@.subrange(from as int, v@.len() as int), end - from);
        assert(v@.subrange(from as int, v@.len() as int).subrange(0, end - from) =~= v@.subrange(
            from as int,
            end as int,
        ));
    }
    copy_range(v, from, end)
}

proof fn lemma_leading_digits(s: Seq<char>, k: int)
    requires
        0 <= k <= s.len(),
        forall|j: int| 0 <= j < k ==> crate::text::is_digit(#[trigger] s[j]),
        k == s.len() || !crate::text::is_digit(s[k]),
    ensures
        leading_digits(s) == s.subrange(0, k),
    decreases k,
{
    if k == 0 {
        assert(s.subrange(0, 0) =~= Seq::<char>::empty());
    } else {
        let t = s.drop_first();
        assert forall|j: int| 0 <= j < k - 1 implies crate::text::is_digit(#[trigger] t[j]) by {
            assert(t[j] == s[j + 1]);
        }
        if k < s.len() {
            assert(t[k - 1] == s[k]);
        }
        lemma_leading_digits(t, k - 1);
        assert(s.subrange(0, k) =~= seq![s[0]] + t.subrange(0, k - 1));
    }
}

/// Anime name and episode of a page title.
pub fn episode_from_title(title: &Vec<char>) -> (r: Option<(Vec<char>, Vec<char>)>)
    ensures
        match r {
            Some((a, e)) => spec_episode(title@) == Some((a@, e@)),
            None => spec_episode(title@) is None,
        },
{
    let lower = lower_chars(title);
    let n = title.len();
    assert(lower@.len() == n);
    proof {
        reveal_strlit("ver episodio ");
        reveal_strlit(" de ");
        reveal_strlit(" episodio ");
    }
    if crate::text::starts_with(&lower, "ver episodio ") {
        let found = find_first(&lower, " de ", 13);
        let sep = match found {
            Some(i) => i,
            None => return None,
        };
        let episode = trim_chars(&copy_range(title, 13, sep));
        let anime = strip_fansub(&copy_range(title, sep + 4, n));
        if episode.len() > 0 && anime.len() > 0 {
            return Some((anime, episode));
        }
    }
    assert(lower@.subrange(0, lower@.len() as int) =~= lower@);
    match find_first(&lower, " episodio ", 0) {
        Some(sep) => {
            let anime = trim_chars(&copy_range(title, 0, sep));
            let episode = leading_digits_of(&lower, sep + 10);
            if anime.len() > 0 && episode.len() > 0 {
                Some((anime, episode))
            } else {
                None
            }
        },
        None => None,
    }
}

/// `value.filter(|v| !v.trim().is_empty())`.
pub fn nonempty(value: Option<String>) -> (r: Option<String>)
    ensures
        match value {
            Some(v) => if crate::text::trim(v@).len() > 0 {
                r == Some(v)
            } else {
                r is None
            },
            None => r is None,
        },
{
    match value {
        Some(v) => if is_blank(v.as_str()) {
            None
        } else {
            Some(v)
        },
        None => None,
    }
}

/// A file name made from a page title when the title names an episode:
/// `<anime> Episodio <episode>.mp4`, sanitized. (The extension of the
/// detected name would be used if `file.<extension>` were not a generic
/// name, which it always is.)
pub open spec fn spec_page_file_name(page_title: Option<Seq<char>>) -> Option<Seq<char>> {
    match page_title {
        None => None,
        Some(t) => match spec_episode(crate::text::trim(t)) {
            None => None,
            Some((anime, episode)) => crate::names::spec_sanitize(
                anime + " Episodio "@ + episode + ".mp4"@,
            ),
        },
    }
}

proof fn lemma_last_index_append(p: Seq<char>, e: Seq<char>, c: char)
    requires
        !e.contains(c),
    ensures
        crate::names::last_index(p + e, c) == crate::names::last_index(p, c),
    decreases e.len(),
{
    if e.len() > 0 {
        assert((p + e).drop_last() =~= p + e.drop_last());
        assert((p + e).last() == e.last());
        assert(!e.drop_last().contains(c)) by {
            if e.drop_last().contains(c) {
                let k = choose|k: int| 0 <= k < e.drop_last().len() && e.drop_last()[k] == c;
                assert(e[k] == c);
            }
        }
        lemma_last_index_append(p, e.drop_last(), c);
    } else {
        assert(p + e =~= p);
    }
}

/// `file.<extension>` is always a generic name: its stem is `file`.
proof fn lemma_file_probe_generic(e: Seq<char>)
    requires
        !e.contains('.'),
    ensures
        crate::names::spec_generic_name(Some("file."@ + e)),
{
    reveal_strlit("file.");
    reveal_strlit("file");
    reveal_strlit("..");
    let p = "file."@ + e;
    lemma_last_index_append("file."@, e, '.');
    assert("file."@.last() == '.');
    assert(crate::names::last_index("file."@, '.') == Some(4int));
    assert(p != ".."@) by {
        assert(p.len() >= 5);
    }
    assert(crate::names::spec_file_stem(p) =~= "file"@);
    assert(crate::text::lower_seq("file"@) =~= "file"@);
}

fn page_file_name(input: &BrowserDownloadInput, fallback: Option<&String>) -> (r: Option<String>)
    requires
        fallback matches Some(f) ==> crate::names::no_separators(f@),
    ensures
        match r {
            Some(s) => spec_page_file_name(
                match input.page_title {
                    Some(t) => Some(t@),
                    None => None,
                },
            ) == Some(s@),
            None => spec_page_file_name(
                match input.page_title {
                    Some(t) => Some(t@),
                    None => None,
                },
            ) is None,
        },
{
    let title_raw = match &input.page_title {
        Some(t) => t,
        None => return None,
    };
    let title = trim_chars(&chars_of(title_raw.as_str()));
    let (anime, episode) = match episode_from_title(&title) {
        Some(pair) => pair,
        None => return None,
    };
    let ext: Vec<char> = match fallback {
        Some(f) => {
            let fc = chars_of(f.as_str());
            let fl = fc.len();
            match last_dot_of(&fc) {
                Some(i) => {
                    let e = copy_range(&fc, i + 1, fc.len());
                    let mut probe = "file.".to_owned();
                    probe.append(string_of(&e).as_str());
                    proof {
                        crate::names::lemma_last_index(fc@, '.');
                        assert(!e@.contains('.')) by {
                            if e@.contains('.') {
                                let k = choose|k: int| 0 <= k < e@.len() && e@[k] == '.';
                                assert(fc@[i + 1 + k] == '.');
                            }
                        }
                        assert(crate::names::no_separators(probe@)) by {
                            reveal_strlit("file.");
                            if probe@.contains('/') || probe@.contains('\\') || probe@.contains(':') {
                                let k = choose|k: int|
                                    0 <= k < probe@.len() && (probe@[k] == '/' || probe@[k] == '\\'
                                        || probe@[k] == ':');
                                assert(k >= 5);
                                assert(fc@[i + 1 + (k - 5)] == probe@[k]);
                            }
                        }
                        lemma_file_probe_generic(e@);
                    }
                    let generic = needs_remote_file_name(probe.as_str());
                    if !generic {
                        e
                    } else {
                        chars_of("mp4")
                    }
                },
                None => chars_of("mp4"),
            }
        },
        None => chars_of("mp4"),
    };
    let mut name = string_of(&anime);
    name.append(" Episodio ");
    name.append(string_of(&episode).as_str());
    name.append(".");
    name.append(string_of(&ext).as_str());
    proof {
        reveal_strlit(".mp4");
        reveal_strlit(".");
        reveal_strlit("mp4");
        assert(name@ =~= anime@ + " Episodio "@ + episode@ + ".mp4"@);
    }
    sanitize_detected_file_name(name.as_str())
}

fn last_dot_of(v: &Vec<char>) -> (r: Option<usize>)
    ensures
        match crate::names::last_index(v@, '.') {
            Some(i) => r == Some(i as usize) && 0 <= i < v@.len(),
            None => r is None,
        },
{
    proof {
        crate::names::lemma_last_index(v@, '.');
    }
    let mut end = v.len();
    assert(v@.subrange(0, end as int) =~= v@);
    while end > 0 && v[end - 1] != '.'
        invariant
            end <= v@.len(),
            crate::names::last_index(v@, '.') == crate::names::last_index(
                v@.subrange(0, end as int),
                '.',
            ),
        decreases end,
    {
        assert(v@.subrange(0, end as int).drop_last() =~= v@.subrange(0, end - 1));
        end = end - 1;
    }
    if end == 0 {
        None
    } else {
        assert(v@.subrange(0, end as int).last() == v@[end - 1]);
        Some(end - 1)
    }
}


/// A text that is not blank.
pub open spec fn spec_nonempty(o: Option<String>) -> Option<Seq<char>> {
    match o {
        Some(v) => if crate::text::trim(v@).len() > 0 {
            Some(v@)
        } else {
            None
        },
        None => None,
    }
}

/// The sanitized name the browser detected.
pub open spec fn spec_detected(file_name: Option<String>) -> Option<Seq<char>> {
    match file_name {
        Some(f) => crate::names::spec_sanitize(f@),
        None => None,
    }
}

/// The name of a download from the browser: the detected name when it is
/// descriptive; else a name from the episode in the page title; else the
/// detected name anyway; else `download`.
pub open spec fn spec_browser_file_name(input: BrowserDownloadInput) -> Seq<char> {
    let detected = spec_detected(input.file_name);
    let page = spec_page_file_name(
        match input.page_title {
            Some(t) => Some(t@),
            None => None,
        },
    );
    if detected matches Some(d) && !crate::names::spec_generic_name(Some(d)) {
        detected->0
    } else if page is Some {
        page->0
    } else if detected is Some {
        detected->0
    } else {
        "download"@
    }
}

/// The request context of a download from the browser: its `User-Agent`,
/// then a `Referer` (the referrer, or else the page URL), each when not blank.
pub open spec fn spec_browser_headers(input: BrowserDownloadInput) -> Seq<(Seq<char>, Seq<char>)> {
    let ua = spec_nonempty(input.user_agent);
    let referer = match spec_nonempty(input.referrer) {
        Some(r) => Some(r),
        None => spec_nonempty(input.page_url),
    };
    let first = match ua {
        Some(u) => seq![("User-Agent"@, u)],
        None => Seq::empty(),
    };
    first + match referer {
        Some(r) => seq![("Referer"@, r)],
        None => Seq::empty(),
    }
}

pub open spec fn header_views(hs: Seq<HeaderEntry>) -> Seq<(Seq<char>, Seq<char>)> {
    hs.map_values(|h: HeaderEntry| (h.name@, h.value@))
}

/// The queue request for a download captured by the browser extension:
/// direct connection, automatic name, category and destination, and the
/// default connections, speed limit and start of the settings.
pub fn create_input(input: BrowserDownloadInput, settings: &AppSettings) -> (r: CreateDownloadInput)
    ensures
        r.file_name@ == spec_browser_file_name(input),
        header_views(r.source.headers@) == spec_browser_headers(input),
        r.source.url == input.url,
        r.source.cookies == input.cookies,
        r.source.proxy is Direct,
        r.source.force_single_stream == input.force_single_stream,
        !r.file_name_customized,
        r.category == DownloadCategory::Other,
        !r.category_customized,
        r.destination@ == settings.download_directory@,
        !r.destination_customized,
        r.threads == settings.default_threads,
        r.speed_limit_bytes == settings.default_speed_limit_bytes,
        r.start_immediately == settings.start_immediately,
{
    let ghost original = input;
    let detected: Option<String> = match &input.file_name {
        Some(f) => sanitize_detected_file_name(f.as_str()),
        None => None,
    };
    proof {
        if detected is Some {
            crate::names::lemma_sanitized_names_are_safe(input.file_name->0@);
            crate::names::lemma_clean_has_no_separators(detected->0@);
        }
    }
    let descriptive = match &detected {
        Some(d) => !needs_remote_file_name(d.as_str()),
        None => false,
    };
    let file_name = if descriptive {
        match detected {
            Some(d) => d,
            None => "download".to_owned(),
        }
    } else {
        match page_file_name(&input, detected.as_ref()) {
            Some(p) => p,
            None => match detected {
                Some(d) => d,
                None => "download".to_owned(),
            },
        }
    };
    let mut headers: Vec<HeaderEntry> = Vec::new();
    if let Some(user_agent) = nonempty(input.user_agent) {
        headers.push(HeaderEntry { name: "User-Agent".to_owned(), value: user_agent });
    }
    let referer = match nonempty(input.referrer) {
        Some(r) => Some(r),
        None => nonempty(input.page_url),
    };
    if let Some(value) = referer {
        headers.push(HeaderEntry { name: "Referer".to_owned(), value });
    }
    proof {
        assert(header_views(headers@) =~= spec_browser_headers(original));
    }
    CreateDownloadInput {
        source: DownloadSource {
            url: input.url,
            headers,
            cookies: input.cookies,
            proxy: ProxySelection::Direct,
            force_single_stream: input.force_single_stream,
        },
        file_name,
        file_name_customized: false,
        category: DownloadCategory::Other,
        category_customized: false,
        destination: settings.download_directory.clone(),
        destination_customized: false,
        threads: settings.default_threads,
        speed_limit_bytes: settings.default_speed_limit_bytes,
        start_immediately: settings.start_immediately,
    }
}

} // verus!
