//! File names: which are reserved on Windows, how a name found on the web is
//! made safe and short enough, which names say nothing about the content, and
//! which category a name's extension belongs to.
use vstd::prelude::*;

use crate::model::DownloadCategory;
use crate::outside::{path_components, PathPart};
use crate::text::{
    chars_of, char_is_ctrl, char_is_ws, lower_chars, parse_u8, range_is, string_of, trim_chars,
    upper_chars, utf16_count,
};

verus! {

/// Longest file name, in UTF-16 code units.
pub const MAX_FILE_NAME_UTF16_UNITS: usize = 200;

/// Chars that Windows does not allow in file names.
pub open spec fn forbidden_char(c: char) -> bool {
    c == '<' || c == '>' || c == ':' || c == '"' || c == '/' || c == '\\' || c == '|' || c == '?'
        || c == '*'
}

pub fn is_forbidden_char(c: char) -> (r: bool)
    ensures
        r == forbidden_char(c),
{
    c == '<' || c == '>' || c == ':' || c == '"' || c == '/' || c == '\\' || c == '|' || c == '?'
        || c == '*'
}

/// The text before the first `.`.
pub open spec fn name_stem_before_dot(s: Seq<char>) -> Seq<char> {
    crate::http::before_first(s, '.')
}

/// A device name of Windows (`CON`, `PRN`, `AUX`, `NUL`, `COM1`-`COM9`,
/// `LPT1`-`LPT9`, in any case) before the first dot; the digits are read as
/// `u8` reads them, so `COM05` and `LPT+3` count too.
pub open spec fn spec_reserved(s: Seq<char>) -> bool {
    let stem = crate::text::upper_seq(name_stem_before_dot(s));
    ||| stem == "CON"@
    ||| stem == "PRN"@
    ||| stem == "AUX"@
    ||| stem == "NUL"@
    ||| (crate::text::has_prefix(stem, "COM"@) || crate::text::has_prefix(stem, "LPT"@))
        && match crate::text::parse_u8_spec(stem.subrange(3, stem.len() as int)) {
        Some(n) => 1 <= n <= 9,
        None => false,
    }
}

fn equals_literal(v: &Vec<char>, literal: &str) -> (r: bool)
    ensures
        r == (v@ == literal@),
{
    let c = chars_of(literal);
    crate::text::chars_equal(v, &c)
}

fn is_reserved_chars(v: &Vec<char>) -> (r: bool)
    ensures
        r == spec_reserved(v@),
{
    let n = v.len();
    proof {
        crate::http::lemma_first_index(v@, '.');
        reveal_strlit("COM");
        reveal_strlit("LPT");
    }
    let end = match first_dot(v) {
        Some(i) => i,
        None => n,
    };
    let mut stem_raw: Vec<char> = Vec::new();
    let mut i: usize = 0;
    while i < end
        invariant
            end <= v@.len(),
            i <= end,
            stem_raw@ == v@.subrange(0, i as int),
        decreases end - i,
    {
        stem_raw.push(v[i]);
        i = i + 1;
    }
    assert(stem_raw@ == name_stem_before_dot(v@)) by {
        if crate::http::first_index(v@, '.') is None {
            assert(v@.subrange(0, n as int) =~= v@);
        }
    }
    let stem = upper_chars(&stem_raw);
    if equals_literal(&stem, "CON") || equals_literal(&stem, "PRN") || equals_literal(&stem, "AUX")
        || equals_literal(&stem, "NUL") {
        return true;
    }
    if !(range_is(&stem, 0, "COM") || range_is(&stem, 0, "LPT")) {
        return false;
    }
    let mut digits: Vec<char> = Vec::new();
    let mut j: usize = 3;
    while j < stem.len()
        invariant
            3 <= j <= stem@.len(),
            digits@ == stem@.subrange(3, j as int),
        decreases stem@.len() - j,
    {
        digits.push(stem[j]);
        j = j + 1;
    }
    match parse_u8(&digits) {
        Some(n) => 1 <= n && n <= 9,
        None => false,
    }
}

fn first_dot(v: &Vec<char>) -> (r: Option<usize>)
    ensures
        match crate::http::first_index(v@, '.') {
            Some(i) => r == Some(i as usize),
            None => r is None,
        },
{
    let mut i: usize = 0;
    while i < v.len()
        invariant
            i <= v@.len(),
            forall|j: int| 0 <= j < i ==> v@[j] != '.',
        decreases v@.len() - i,
    {
        if v[i] == '.' {
            proof {
                crate::http::lemma_first_index(v@, '.');
                if crate::http::first_index(v@, '.') is Some {
                    let k = crate::http::first_index(v@, '.')->0;
                    assert(k == i);
                }
            }
            return Some(i);
        }
        i = i + 1;
    }
    proof {
        crate::http::lemma_first_index(v@, '.');
    }
    None
}

/// A name that Windows reserves for a device, on every platform.
pub fn is_windows_reserved_name(file_name: &str) -> (r: bool)
    ensures
        r == spec_reserved(file_name@),
{
    let v = chars_of(file_name);
    is_reserved_chars(&v)
}

/// The chars after the last `/` or `\`.
pub open spec fn after_last_separator(s: Seq<char>) -> Seq<char>
    decreases s.len(),
{
    if s.len() == 0 {
        s
    } else if s.last() == '/' || s.last() == '\\' {
        Seq::empty()
    } else {
        after_last_separator(s.drop_last()).push(s.last())
    }
}

/// The scan of a detected name: control and forbidden chars become `_`, and
/// each run of whitespace becomes one space.
pub open spec fn clean_scan(s: Seq<char>) -> (Seq<char>, bool)
    decreases s.len(),
{
    if s.len() == 0 {
        (Seq::empty(), false)
    } else {
        let (out, previous_whitespace) = clean_scan(s.drop_last());
        let c = s.last();
        if crate::text::is_ctrl(c) || forbidden_char(c) {
            (out.push('_'), false)
        } else if crate::text::is_ws(c) {
            (if previous_whitespace { out } else { out.push(' ') }, true)
        } else {
            (out.push(c), false)
        }
    }
}

/// `s.trim_end_matches(['.', ' '])`.
pub open spec fn trim_end_dots(s: Seq<char>) -> Seq<char>
    decreases s.len(),
{
    if s.len() > 0 && (s.last() == '.' || s.last() == ' ') {
        trim_end_dots(s.drop_last())
    } else {
        s
    }
}

/// `s.replace("..", "._")`, scanning from the left.
pub open spec fn replace_double_dots(s: Seq<char>) -> Seq<char>
    decreases s.len(),
{
    if s.len() >= 2 && s[0] == '.' && s[1] == '.' {
        seq!['.', '_'] + replace_double_dots(s.subrange(2, s.len() as int))
    } else if s.len() == 0 {
        s
    } else {
        seq![s[0]] + replace_double_dots(s.drop_first())
    }
}

/// Index of the last `c`.
pub open spec fn last_index(s: Seq<char>, c: char) -> Option<int>
    decreases s.len(),
{
    if s.len() == 0 {
        None
    } else if s.last() == c {
        Some(s.len() - 1)
    } else {
        last_index(s.drop_last(), c)
    }
}

/// The longest prefix of `s` whose UTF-16 length fits in `budget`.
pub open spec fn take_units(s: Seq<char>, budget: int) -> Seq<char>
    decreases s.len(),
{
    if s.len() == 0 || crate::text::utf16_len_char(s[0]) > budget {
        Seq::empty()
    } else {
        seq![s[0]] + take_units(s.drop_first(), budget - crate::text::utf16_len_char(s[0]))
    }
}

/// The extension kept when a name is shortened: from the last dot (when it
/// is not the first char) to the end, if that is at most 20 code units.
pub open spec fn kept_extension(v: Seq<char>) -> Seq<char> {
    match last_index(v, '.') {
        Some(i) => if i > 0 && crate::text::utf16_len(v.subrange(i, v.len() as int)) <= 20 {
            v.subrange(i, v.len() as int)
        } else {
            Seq::empty()
        },
        None => Seq::empty(),
    }
}

/// A name cut to `max_units` UTF-16 code units: the extension is kept, the
/// stem is cut, and dots and spaces left at its end are removed.
pub open spec fn spec_truncate(v: Seq<char>, max_units: nat) -> Seq<char> {
    if crate::text::utf16_len(v) <= max_units {
        v
    } else {
        let ext = kept_extension(v);
        let stem = v.subrange(0, v.len() - ext.len());
        let budget = if max_units >= crate::text::utf16_len(ext) {
            max_units - crate::text::utf16_len(ext)
        } else {
            0
        };
        trim_end_dots(take_units(stem, budget)) + ext
    }
}

/// A detected name made safe: its last path segment, with control and
/// forbidden chars replaced, whitespace runs collapsed, trimmed, trailing dots
/// and spaces removed, `..` broken up, a reserved device name prefixed with
/// `_`, and cut to the maximum length; `None` when nothing is left.
pub open spec fn spec_sanitize(value: Seq<char>) -> Option<Seq<char>> {
    let cleaned = clean_scan(after_last_separator(value)).0;
    let t = replace_double_dots(trim_end_dots(crate::text::trim(cleaned)));
    if t.len() == 0 {
        None
    } else {
        let r = if spec_reserved(t) { seq!['_'] + t } else { t };
        Some(spec_truncate(r, MAX_FILE_NAME_UTF16_UNITS as nat))
    }
}

fn base_start(v: &Vec<char>) -> (r: usize)
    ensures
        r <= v@.len(),
        v@.subrange(r as int, v@.len() as int) == after_last_separator(v@),
{
    let n = v.len();
    let mut start = n;
    proof {
        assert(v@.subrange(0, n as int) =~= v@);
        assert(v@.subrange(n as int, n as int) =~= Seq::<char>::empty());
        assert(v@ + Seq::<char>::empty() =~= v@);
    }
    while start > 0 && v[start - 1] != '/' && v[start - 1] != '\\'
        invariant
            start <= n == v@.len(),
            after_last_separator(v@) == after_last_separator(v@.subrange(0, start as int))
                + v@.subrange(start as int, n as int),
        decreases start,
    {
        let ghost pre = v@.subrange(0, start as int);
        assert(pre.drop_last() =~= v@.subrange(0, start - 1));
        assert(pre.last() == v@[start - 1]);
        assert(after_last_separator(v@.subrange(0, start - 1)).push(v@[start - 1]) + v@.subrange(
            start as int,
            n as int,
        ) =~= after_last_separator(v@.subrange(0, start - 1)) + v@.subrange(start - 1, n as int));
        start = start - 1;
    }
    proof {
        assert(v@.subrange(0, n as int) =~= v@);
        let pre = v@.subrange(0, start as int);
        if start > 0 {
            assert(pre.last() == v@[start - 1]);
        }
        assert(after_last_separator(pre) =~= Seq::<char>::empty());
        assert(Seq::<char>::empty() + v@.subrange(start as int, n as int) =~= v@.subrange(
            start as int,
            n as int,
        ));
    }
    start
}

fn clean(v: &Vec<char>, from: usize) -> (r: Vec<char>)
    requires
        from <= v@.len(),
    ensures
        r@ == clean_scan(v@.subrange(from as int, v@.len() as int)).0,
{
    let mut out: Vec<char> = Vec::new();
    let mut previous_whitespace = false;
    let mut i = from;
    while i < v.len()
        invariant
            from <= i <= v@.len(),
            clean_scan(v@.subrange(from as int, i as int)) == (out@, previous_whitespace),
        decreases v@.len() - i,
    {
        let c = v[i];
        assert(v@.subrange(from as int, i + 1).drop_last() =~= v@.subrange(from as int, i as int));
        if char_is_ctrl(c) || is_forbidden_char(c) {
            out.push('_');
            previous_whitespace = false;
        } else if char_is_ws(c) {
            if !previous_whitespace {
                out.push(' ');
            }
            previous_whitespace = true;
        } else {
            out.push(c);
            previous_whitespace = false;
        }
        i = i + 1;
    }
    out
}

fn drop_trailing_dots(v: &Vec<char>) -> (r: Vec<char>)
    ensures
        r@ == trim_end_dots(v@),
{
    let mut end = v.len();
    assert(v@.subrange(0, end as int) =~= v@);
    while end > 0 && (v[end - 1] == '.' || v[end - 1] == ' ')
        invariant
            end <= v@.len(),
            trim_end_dots(v@) == trim_end_dots(v@.subrange(0, end as int)),
        decreases end,
    {
        assert(v@.subrange(0, end as int).drop_last() =~= v@.subrange(0, end - 1));
        end = end - 1;
    }
    let mut r: Vec<char> = Vec::new();
    let mut i: usize = 0;
    while i < end
        invariant
            end <= v@.len(),
            i <= end,
            r@ == v@.subrange(0, i as int),
        decreases end - i,
    {
        r.push(v[i]);
        i = i + 1;
    }
    proof {
        if end > 0 {
            assert(v@.subrange(0, end as int).last() == v@[end - 1]);
        }
    }
    r
}

proof fn lemma_replace_step(s: Seq<char>, i: int)
    requires
        0 <= i <= s.len(),
    ensures
        i + 2 <= s.len() && s[i] == '.' && s[i + 1] == '.' ==> replace_double_dots(
            s.subrange(i, s.len() as int),
        ) == seq!['.', '_'] + replace_double_dots(s.subrange(i + 2, s.len() as int)),
        i < s.len() && !(i + 2 <= s.len() && s[i] == '.' && s[i + 1] == '.') ==> replace_double_dots(
            s.subrange(i, s.len() as int),
        ) == seq![s[i]] + replace_double_dots(s.subrange(i + 1, s.len() as int)),
{
    let t = s.subrange(i, s.len() as int);
    if i + 2 <= s.len() {
        assert(t[0] == s[i] && t[1] == s[i + 1]);
        assert(t.subrange(2, t.len() as int) =~= s.subrange(i + 2, s.len() as int));
    }
    if i < s.len() {
        assert(t[0] == s[i]);
        assert(t.drop_first() =~= s.subrange(i + 1, s.len() as int));
    }
}

fn replace_dots(v: &Vec<char>) -> (r: Vec<char>)
    ensures
        r@ == replace_double_dots(v@),
{
    let n = v.len();
    let mut r: Vec<char> = Vec::new();
    let mut i: usize = 0;
    assert(v@.subrange(0, n as int) =~= v@);
    while i < n
        invariant
            n == v@.len(),
            i <= n,
            replace_double_dots(v@) == r@ + replace_double_dots(v@.subrange(i as int, n as int)),
        decreases n - i,
    {
        proof {
            lemma_replace_step(v@, i as int);
        }
        if i + 1 < n && v[i] == '.' && v[i + 1] == '.' {
            r.push('.');
            r.push('_');
            proof {
                assert(r@ + replace_double_dots(v@.subrange(i + 2, n as int)) =~= r@.subrange(
                    0,
                    r@.len() - 2,
                ) + (seq!['.', '_'] + replace_double_dots(v@.subrange(i + 2, n as int))));
            }
            i = i + 2;
        } else {
            let c = v[i];
            r.push(c);
            proof {
                assert(r@ + replace_double_dots(v@.subrange(i + 1, n as int)) =~= r@.subrange(
                    0,
                    r@.len() - 1,
                ) + (seq![c] + replace_double_dots(v@.subrange(i + 1, n as int))));
            }
            i = i + 1;
        }
    }
    proof {
        assert(v@.subrange(n as int, n as int) =~= Seq::<char>::empty());
        assert(r@ + Seq::<char>::empty() =~= r@);
    }
    r
}

pub proof fn lemma_last_index(s: Seq<char>, c: char)
    ensures
        last_index(s, c) is Some ==> {
            let i = last_index(s, c)->0;
            &&& 0 <= i < s.len()
            &&& s[i] == c
            &&& forall|j: int| i < j < s.len() ==> s[j] != c
        },
        last_index(s, c) is None ==> forall|j: int| 0 <= j < s.len() ==> s[j] != c,
    decreases s.len(),
{
    if s.len() > 0 && s.last() != c {
        lemma_last_index(s.drop_last(), c);
        assert forall|j: int| 0 <= j < s.len() - 1 implies s[j] == s.drop_last()[j] by {}
    }
}

fn last_dot(v: &Vec<char>) -> (r: Option<usize>)
    ensures
        match last_index(v@, '.') {
            Some(i) => r == Some(i as usize) && 0 <= i < v@.len(),
            None => r is None,
        },
        r matches Some(i) ==> i < v@.len(),
{
    proof {
        lemma_last_index(v@, '.');
    }
    let mut end = v.len();
    assert(v@.subrange(0, end as int) =~= v@);
    while end > 0 && v[end - 1] != '.'
        invariant
            end <= v@.len(),
            last_index(v@, '.') == last_index(v@.subrange(0, end as int), '.'),
        decreases end,
    {
        assert(v@.subrange(0, end as int).drop_last() =~= v@.subrange(0, end - 1));
        end = end - 1;
    }
    if end == 0 {
        None
    } else {
        assert(v@.subrange(0, end as int).last() == v@[end - 1]);
        Some(end - 1)
    }
}

proof fn lemma_take_units_prefix(s: Seq<char>, k: int, budget: int)
    requires
        0 <= k <= s.len(),
        crate::text::utf16_len(s.subrange(0, k)) <= budget,
        k == s.len() || crate::text::utf16_len(s.subrange(0, k)) + crate::text::utf16_len_char(s[k])
            > budget,
    ensures
        take_units(s, budget) == s.subrange(0, k),
    decreases k,
{
    if k == 0 {
        if s.len() > 0 {
            assert(s.subrange(0, 0) =~= Seq::<char>::empty());
        }
    } else {
        let c = s[0];
        let t = s.drop_first();
        assert(t.subrange(0, k - 1) =~= s.subrange(1, k));
        lemma_utf16_split(s.subrange(0, k));
        assert(s.subrange(0, k).drop_first() =~= s.subrange(1, k));
        if k < s.len() {
            assert(t[k - 1] == s[k]);
        }
        lemma_take_units_prefix(t, k - 1, budget - crate::text::utf16_len_char(c));
        assert(s.subrange(0, k) =~= seq![c] + s.subrange(1, k));
        assert(crate::text::utf16_len_char(c) <= budget) by {
            lemma_utf16_nonneg(s.subrange(1, k));
        }
    }
}

proof fn lemma_utf16_nonneg(s: Seq<char>)
    ensures
        crate::text::utf16_len(s) >= 0,
{
}

/// The UTF-16 length of a sequence is that of its first char plus the rest.
proof fn lemma_utf16_split(s: Seq<char>)
    requires
        s.len() > 0,
    ensures
        crate::text::utf16_len(s) == crate::text::utf16_len_char(s[0]) + crate::text::utf16_len(
            s.drop_first(),
        ),
    decreases s.len(),
{
    assert(crate::text::utf16_len(s) == crate::text::utf16_len(s.drop_last())
        + crate::text::utf16_len_char(s.last()));
    if s.len() > 1 {
        lemma_utf16_split(s.drop_last());
        assert(s.drop_last().drop_first() =~= s.drop_first().drop_last());
        assert(s.drop_first().last() == s.last());
        assert(s.drop_last()[0] == s[0]);
        assert(crate::text::utf16_len(s.drop_first()) == crate::text::utf16_len(
            s.drop_first().drop_last(),
        ) + crate::text::utf16_len_char(s.drop_first().last()));
    } else {
        assert(s.drop_first().len() == 0);
        assert(s.drop_last().len() == 0);
        assert(crate::text::utf16_len(s.drop_last()) == 0);
        assert(crate::text::utf16_len(s.drop_first()) == 0);
        assert(s.last() == s[0]);
    }
}

/// Cuts a name to `max_units` UTF-16 code units, keeping its extension.
pub fn truncate_file_name(value: &Vec<char>, max_units: usize) -> (r: Vec<char>)
    ensures
        r@ == spec_truncate(value@, max_units as nat),
{
    let total = utf16_count(value);
    if total <= max_units as u128 {
        return copy_all(value);
    }
    let n = value.len();
    let ext_start: usize = match last_dot(value) {
        Some(i) => {
            if i > 0 {
                let ext = copy_from(value, i);
                if utf16_count(&ext) <= 20u128 {
                    i
                } else {
                    n
                }
            } else {
                n
            }
        },
        None => n,
    };
    let ext = copy_from(value, ext_start);
    proof {
        assert(value@.subrange(n as int, n as int) =~= Seq::<char>::empty());
        lemma_last_index(value@, '.');
        if last_index(value@, '.') is Some {
            let li = last_index(value@, '.')->0;
            if li > 0 && crate::text::utf16_len(value@.subrange(li, n as int)) <= 20 {
                assert(ext_start == li);
            } else {
                assert(ext_start == n);
            }
        }
        assert(ext@ == kept_extension(value@));
    }
    let ext_units = utf16_count(&ext);
    let budget: usize = if (max_units as u128) >= ext_units {
        (max_units as u128 - ext_units) as usize
    } else {
        0
    };
    let mut kept: Vec<char> = Vec::new();
    let mut units: usize = 0;
    let mut i: usize = 0;
    let mut full = false;
    while i < ext_start && !full
        invariant
            ext_start <= n == value@.len(),
            i <= ext_start,
            kept@ == value@.subrange(0, i as int),
            units as nat == crate::text::utf16_len(kept@),
            units <= budget,
            full ==> i < ext_start && units + crate::text::utf16_len_char(value@[i as int]) > budget,
        decreases ext_start - i + if full { 0int } else { 1int },
    {
        let c = value[i];
        let next: usize = if (c as u32) < 0x10000 { 1 } else { 2 };
        if next > budget - units {
            full = true;
        } else {
            kept.push(c);
            assert(kept@.drop_last() =~= value@.subrange(0, i as int));
            units = units + next;
            i = i + 1;
        }
    }
    proof {
        let stem = value@.subrange(0, ext_start as int);
        assert(stem.subrange(0, i as int) =~= kept@);
        if i < ext_start {
            assert(stem[i as int] == value@[i as int]);
        }
        lemma_take_units_prefix(stem, i as int, budget as int);
        assert(stem =~= value@.subrange(0, value@.len() - ext@.len()));
    }
    let trimmed = drop_trailing_dots(&kept);
    let mut out = trimmed;
    let mut j: usize = 0;
    let ghost base = out@;
    while j < ext.len()
        invariant
            j <= ext@.len(),
            out@ == base + ext@.subrange(0, j as int),
        decreases ext@.len() - j,
    {
        out.push(ext[j]);
        j = j + 1;
    }
    assert(ext@.subrange(0, ext@.len() as int) =~= ext@);
    out
}

fn copy_all(v: &Vec<char>) -> (r: Vec<char>)
    ensures
        r@ == v@,
{
    let r = copy_from(v, 0);
    assert(v@.subrange(0, v@.len() as int) =~= v@);
    r
}

fn copy_from(v: &Vec<char>, from: usize) -> (r: Vec<char>)
    requires
        from <= v@.len(),
    ensures
        r@ == v@.subrange(from as int, v@.len() as int),
{
    let mut r: Vec<char> = Vec::new();
    let mut i = from;
    while i < v.len()
        invariant
            from <= i <= v@.len(),
            r@ == v@.subrange(from as int, i as int),
        decreases v@.len() - i,
    {
        r.push(v[i]);
        i = i + 1;
    }
    r
}

/// Makes a name found on the web safe to use as a file name.
pub fn sanitize_detected_file_name(value: &str) -> (r: Option<String>)
    ensures
        match r {
            Some(s) => spec_sanitize(value@) == Some(s@),
            None => spec_sanitize(value@) is None,
        },
{
    let v = chars_of(value);
    let start = base_start(&v);
    let cleaned = clean(&v, start);
    let trimmed = trim_chars(&cleaned);
    let no_dots = drop_trailing_dots(&trimmed);
    let t = replace_dots(&no_dots);
    if t.len() == 0 {
        return None;
    }
    let r = if is_reserved_chars(&t) {
        let mut p: Vec<char> = Vec::new();
        p.push('_');
        let mut i: usize = 0;
        while i < t.len()
            invariant
                i <= t@.len(),
                p@ == seq!['_'] + t@.subrange(0, i as int),
            decreases t@.len() - i,
        {
            p.push(t[i]);
            i = i + 1;
        }
        assert(t@.subrange(0, t@.len() as int) =~= t@);
        p
    } else {
        t
    };
    let cut = truncate_file_name(&r, MAX_FILE_NAME_UTF16_UNITS);
    Some(string_of(&cut))
}

/// `Path::file_stem` of a file name: the name before its last dot, unless the
/// only dot starts the name, or the name is `..`.
pub open spec fn spec_file_stem(name: Seq<char>) -> Seq<char> {
    if name == ".."@ {
        name
    } else {
        match last_index(name, '.') {
            Some(i) => if i == 0 { name } else { name.subrange(0, i) },
            None => name,
        }
    }
}

/// `Path::extension` of a file name: the text after its last dot, when that
/// dot is not the first char and the name is not `..`.
pub open spec fn spec_extension(name: Seq<char>) -> Option<Seq<char>> {
    if name == ".."@ {
        None
    } else {
        match last_index(name, '.') {
            Some(i) => if i == 0 { None } else { Some(name.subrange(i + 1, name.len() as int)) },
            None => None,
        }
    }
}

/// Generic names (no extension, a server script's extension, or a stem such
/// as `download`) do not describe the content, so the server's name is asked for.
pub open spec fn spec_generic_name(name: Option<Seq<char>>) -> bool {
    let stem = match name {
        Some(n) => crate::text::lower_seq(spec_file_stem(n)),
        None => Seq::empty(),
    };
    let ext = match name {
        Some(n) => match spec_extension(n) {
            Some(e) => crate::text::lower_seq(e),
            None => Seq::empty(),
        },
        None => Seq::empty(),
    };
    ||| ext.len() == 0
    ||| ext == "php"@
    ||| ext == "asp"@
    ||| ext == "aspx"@
    ||| ext == "cgi"@
    ||| ext == "htm"@
    ||| ext == "html"@
    ||| stem == "download"@
    ||| stem == "file"@
    ||| stem == "get"@
    ||| stem == "index"@
}

fn stem_and_extension(name: &Vec<char>) -> (r: (Vec<char>, Option<Vec<char>>))
    ensures
        r.0@ == spec_file_stem(name@),
        match spec_extension(name@) {
            Some(e) => r.1 matches Some(x) && x@ == e,
            None => r.1 is None,
        },
{
    let len = name.len();
    if equals_literal(name, "..") {
        return (copy_all(name), None);
    }
    match last_dot(name) {
        Some(i) => if i == 0 {
            (copy_all(name), None)
        } else {
            let mut stem: Vec<char> = Vec::new();
            let mut k: usize = 0;
            while k < i
                invariant
                    i < name@.len(),
                    k <= i,
                    stem@ == name@.subrange(0, k as int),
                decreases i - k,
            {
                stem.push(name[k]);
                k = k + 1;
            }
            (stem, Some(copy_from(name, i + 1)))
        },
        None => (copy_all(name), None),
    }
}

/// Decides `spec_generic_name` for the final component of a path.
pub fn is_generic_name(name: Option<&Vec<char>>) -> (r: bool)
    ensures
        r == spec_generic_name(
            match name {
                Some(n) => Some(n@),
                None => None,
            },
        ),
{
    let (stem, ext) = match name {
        Some(n) => {
            let (s, e) = stem_and_extension(n);
            (lower_chars(&s), match e {
                Some(x) => lower_chars(&x),
                None => Vec::new(),
            })
        },
        None => (Vec::new(), Vec::new()),
    };
    ext.len() == 0 || equals_literal(&ext, "php") || equals_literal(&ext, "asp") || equals_literal(
        &ext,
        "aspx",
    ) || equals_literal(&ext, "cgi") || equals_literal(&ext, "htm") || equals_literal(&ext, "html")
        || equals_literal(&stem, "download") || equals_literal(&stem, "file") || equals_literal(
        &stem,
        "get",
    ) || equals_literal(&stem, "index")
}

/// The final component of a path when it is a plain name.
fn final_name(parts: &Vec<PathPart>) -> (r: Option<Vec<char>>)
    ensures
        match r {
            Some(n) => parts@.len() > 0 && (parts@.last() matches PathPart::Normal(s) && s@ == n@),
            None => parts@.len() == 0 || !(parts@.last() is Normal),
        },
{
    let n = parts.len();
    if n == 0 {
        return None;
    }
    match &parts[n - 1] {
        PathPart::Normal(s) => Some(chars_of(s.as_str())),
        _ => None,
    }
}

/// No char of the text separates path components on any platform.
pub open spec fn no_separators(s: Seq<char>) -> bool {
    !s.contains('/') && !s.contains('\\') && !s.contains(':')
}

proof fn lemma_generic_dots(s: Seq<char>)
    requires
        s.len() == 0 || s == "."@ || s == ".."@,
    ensures
        spec_generic_name(Some(s)),
{
    reveal_strlit(".");
    reveal_strlit("..");
    if s.len() > 0 {
        lemma_last_index(s, '.');
        assert(s[0] == '.');
        assert(last_index(s, '.') is Some);
        if s == "."@ {
            assert(s.len() == 1);
            assert(last_index(s, '.') == Some(0int));
        }
    }
}

/// A file name that says nothing about the content needs the server's name.
/// For a name without path separators this is `spec_generic_name` of it.
pub fn needs_remote_file_name(file_name: &str) -> (r: bool)
    ensures
        no_separators(file_name@) ==> r == spec_generic_name(Some(file_name@)),
        crate::outside::plain_relative(file_name@) ==> r == spec_generic_name(
            Some(crate::outside::slash_pieces(file_name@).last()),
        ),
{
    proof {
        crate::outside::lemma_slash_pieces_nonempty(file_name@);
    }
    let parts = path_components(file_name);
    let name = final_name(&parts);
    let r = match &name {
        Some(n) => is_generic_name(Some(n)),
        None => is_generic_name(None),
    };
    proof {
        reveal_strlit(".");
        reveal_strlit("..");
        assert("."@ =~= seq!['.']);
        assert(".."@ =~= seq!['.', '.']);
        if no_separators(file_name@) {
            if file_name@.len() == 0 || file_name@ == "."@ || file_name@ == ".."@ {
                lemma_generic_dots(file_name@);
            } else {
                assert(crate::outside::single_component(file_name@));
            }
        }
    }
    r
}

/// The category an extension belongs to, in lower case.
pub open spec fn spec_category(ext: Seq<char>) -> DownloadCategory {
    if ext == "mp4"@ || ext == "mkv"@ || ext == "mov"@ || ext == "webm"@ || ext == "avi"@ {
        DownloadCategory::Video
    } else if ext == "zip"@ || ext == "rar"@ || ext == "7z"@ || ext == "tar"@ || ext == "gz"@ {
        DownloadCategory::Archive
    } else if ext == "pdf"@ || ext == "doc"@ || ext == "docx"@ || ext == "xls"@ || ext == "xlsx"@
        || ext == "txt"@ {
        DownloadCategory::Document
    } else if ext == "mp3"@ || ext == "wav"@ || ext == "flac"@ || ext == "m4a"@ || ext == "ogg"@ {
        DownloadCategory::Audio
    } else {
        DownloadCategory::Other
    }
}

pub fn category_for_extension(ext: &Vec<char>) -> (r: DownloadCategory)
    ensures
        r == spec_category(ext@),
{
    if equals_literal(ext, "mp4") || equals_literal(ext, "mkv") || equals_literal(ext, "mov")
        || equals_literal(ext, "webm") || equals_literal(ext, "avi") {
        DownloadCategory::Video
    } else if equals_literal(ext, "zip") || equals_literal(ext, "rar") || equals_literal(ext, "7z")
        || equals_literal(ext, "tar") || equals_literal(ext, "gz") {
        DownloadCategory::Archive
    } else if equals_literal(ext, "pdf") || equals_literal(ext, "doc") || equals_literal(ext, "docx")
        || equals_literal(ext, "xls") || equals_literal(ext, "xlsx") || equals_literal(ext, "txt") {
        DownloadCategory::Document
    } else if equals_literal(ext, "mp3") || equals_literal(ext, "wav") || equals_literal(ext, "flac")
        || equals_literal(ext, "m4a") || equals_literal(ext, "ogg") {
        DownloadCategory::Audio
    } else {
        DownloadCategory::Other
    }
}

/// The category of a file from its extension in lower case; for a name that
/// is one plain path component this is `spec_category` of its extension.
pub fn category_for_file(file_name: &str) -> (r: DownloadCategory)
    ensures
        crate::outside::single_component(file_name@) ==> r == spec_category(
            match spec_extension(file_name@) {
                Some(e) => crate::text::lower_seq(e),
                None => Seq::empty(),
            },
        ),
        crate::outside::plain_relative(file_name@) ==> r == spec_category(
            match spec_extension(crate::outside::slash_pieces(file_name@).last()) {
                Some(e) => crate::text::lower_seq(e),
                None => Seq::empty(),
            },
        ),
{
    proof {
        crate::outside::lemma_slash_pieces_nonempty(file_name@);
    }
    let parts = path_components(file_name);
    let ext = match final_name(&parts) {
        Some(n) => {
            let (_, e) = stem_and_extension(&n);
            match e {
                Some(x) => lower_chars(&x),
                None => Vec::new(),
            }
        },
        None => Vec::new(),
    };
    category_for_extension(&ext)
}


/// No char of the text is a control char or one that Windows forbids in
/// file names (which include the path separators `/`, `\\` and `:`).
pub open spec fn clean_chars(s: Seq<char>) -> bool {
    forall|i: int|
        0 <= i < s.len() ==> !crate::text::is_ctrl(#[trigger] s[i]) && !forbidden_char(s[i])
}

proof fn lemma_clean_sub(s: Seq<char>, a: int, b: int)
    requires
        clean_chars(s),
        0 <= a <= b <= s.len(),
    ensures
        clean_chars(s.subrange(a, b)),
{
    assert forall|i: int| 0 <= i < b - a implies !crate::text::is_ctrl(
        #[trigger] s.subrange(a, b)[i],
    ) && !forbidden_char(s.subrange(a, b)[i]) by {
        assert(s.subrange(a, b)[i] == s[a + i]);
    }
}

proof fn lemma_clean_concat(a: Seq<char>, b: Seq<char>)
    requires
        clean_chars(a),
        clean_chars(b),
    ensures
        clean_chars(a + b),
{
    assert forall|i: int| 0 <= i < (a + b).len() implies !crate::text::is_ctrl(#[trigger] (a + b)[i])
        && !forbidden_char((a + b)[i]) by {
        if i < a.len() {
            assert((a + b)[i] == a[i]);
        } else {
            assert((a + b)[i] == b[i - a.len()]);
        }
    }
}

proof fn lemma_clean_scan(s: Seq<char>)
    ensures
        clean_chars(clean_scan(s).0),
    decreases s.len(),
{
    if s.len() > 0 {
        lemma_clean_scan(s.drop_last());
        let out = clean_scan(s.drop_last()).0;
        assert(!crate::text::is_ctrl('_') && !forbidden_char('_'));
        assert(!crate::text::is_ctrl(' ') && !forbidden_char(' '));
        lemma_clean_concat(out, seq!['_']);
        lemma_clean_concat(out, seq![' ']);
        let c = s.last();
        if !(crate::text::is_ctrl(c) || forbidden_char(c)) {
            lemma_clean_concat(out, seq![c]);
        }
        assert(out.push('_') =~= out + seq!['_']);
        assert(out.push(' ') =~= out + seq![' ']);
        assert(out.push(c) =~= out + seq![c]);
    }
}

proof fn lemma_clean_trim_start(s: Seq<char>)
    requires
        clean_chars(s),
    ensures
        clean_chars(crate::text::trim_start(s)),
    decreases s.len(),
{
    if s.len() > 0 && crate::text::is_ws(s[0]) {
        lemma_clean_sub(s, 1, s.len() as int);
        assert(s.drop_first() =~= s.subrange(1, s.len() as int));
        lemma_clean_trim_start(s.drop_first());
    }
}

proof fn lemma_clean_trim_end(s: Seq<char>)
    requires
        clean_chars(s),
    ensures
        clean_chars(crate::text::trim_end(s)),
    decreases s.len(),
{
    if s.len() > 0 && crate::text::is_ws(s.last()) {
        lemma_clean_sub(s, 0, s.len() - 1);
        assert(s.drop_last() =~= s.subrange(0, s.len() - 1));
        lemma_clean_trim_end(s.drop_last());
    }
}

proof fn lemma_clean_trim_end_dots(s: Seq<char>)
    requires
        clean_chars(s),
    ensures
        clean_chars(trim_end_dots(s)),
        crate::text::utf16_len(trim_end_dots(s)) <= crate::text::utf16_len(s),
    decreases s.len(),
{
    if s.len() > 0 && (s.last() == '.' || s.last() == ' ') {
        lemma_clean_sub(s, 0, s.len() - 1);
        assert(s.drop_last() =~= s.subrange(0, s.len() - 1));
        lemma_clean_trim_end_dots(s.drop_last());
    }
}

proof fn lemma_clean_replace(s: Seq<char>)
    requires
        clean_chars(s),
    ensures
        clean_chars(replace_double_dots(s)),
    decreases s.len(),
{
    if s.len() >= 2 && s[0] == '.' && s[1] == '.' {
        lemma_clean_sub(s, 2, s.len() as int);
        lemma_clean_replace(s.subrange(2, s.len() as int));
        assert(clean_chars(seq!['.', '_']));
        lemma_clean_concat(seq!['.', '_'], replace_double_dots(s.subrange(2, s.len() as int)));
    } else if s.len() > 0 {
        lemma_clean_sub(s, 1, s.len() as int);
        assert(s.drop_first() =~= s.subrange(1, s.len() as int));
        lemma_clean_replace(s.drop_first());
        lemma_clean_sub(s, 0, 1);
        assert(s.subrange(0, 1) =~= seq![s[0]]);
        lemma_clean_concat(seq![s[0]], replace_double_dots(s.drop_first()));
    }
}

proof fn lemma_take_units(s: Seq<char>, budget: int)
    requires
        clean_chars(s),
    ensures
        clean_chars(take_units(s, budget)),
        budget >= 0 ==> crate::text::utf16_len(take_units(s, budget)) <= budget,
    decreases s.len(),
{
    if !(s.len() == 0 || crate::text::utf16_len_char(s[0]) > budget) {
        let u = crate::text::utf16_len_char(s[0]);
        lemma_clean_sub(s, 1, s.len() as int);
        assert(s.drop_first() =~= s.subrange(1, s.len() as int));
        lemma_take_units(s.drop_first(), budget - u);
        lemma_clean_sub(s, 0, 1);
        assert(s.subrange(0, 1) =~= seq![s[0]]);
        lemma_clean_concat(seq![s[0]], take_units(s.drop_first(), budget - u));
        lemma_utf16_concat(seq![s[0]], take_units(s.drop_first(), budget - u));
        assert(crate::text::utf16_len(seq![s[0]]) == u) by {
            let one = seq![s[0]];
            assert(one.drop_last() =~= Seq::<char>::empty());
            assert(one.last() == s[0]);
            assert(crate::text::utf16_len(one) == crate::text::utf16_len(one.drop_last())
                + crate::text::utf16_len_char(one.last()));
        }
    } else {
        assert(crate::text::utf16_len(Seq::<char>::empty()) == 0);
    }
}

/// The UTF-16 length of a concatenation is the sum of the lengths.
pub proof fn lemma_utf16_concat(a: Seq<char>, b: Seq<char>)
    ensures
        crate::text::utf16_len(a + b) == crate::text::utf16_len(a) + crate::text::utf16_len(b),
    decreases b.len(),
{
    if b.len() > 0 {
        lemma_utf16_concat(a, b.drop_last());
        assert((a + b).drop_last() =~= a + b.drop_last());
        assert((a + b).last() == b.last());
    } else {
        assert(a + b =~= a);
    }
}

proof fn lemma_truncate_safe(v: Seq<char>, max_units: nat)
    requires
        clean_chars(v),
        max_units >= 20,
    ensures
        clean_chars(spec_truncate(v, max_units)),
        crate::text::utf16_len(spec_truncate(v, max_units)) <= max_units,
{
    if crate::text::utf16_len(v) > max_units {
        let ext = kept_extension(v);
        lemma_last_index(v, '.');
        let stem = v.subrange(0, v.len() - ext.len());
        lemma_clean_sub(v, 0, v.len() - ext.len());
        if ext.len() > 0 {
            let i = last_index(v, '.')->0;
            lemma_clean_sub(v, i, v.len() as int);
        } else {
            assert(clean_chars(ext));
        }
        let budget = if max_units >= crate::text::utf16_len(ext) {
            max_units - crate::text::utf16_len(ext)
        } else {
            0
        };
        lemma_take_units(stem, budget);
        lemma_clean_trim_end_dots(take_units(stem, budget));
        lemma_clean_concat(trim_end_dots(take_units(stem, budget)), ext);
        lemma_utf16_concat(trim_end_dots(take_units(stem, budget)), ext);
    }
}

/// A sanitized name has no control char and no char that Windows forbids
/// (so no path separator), fits in the maximum length of a file name, holds
/// no `..` and ends in neither a dot nor a space. When the detected name
/// itself is shorter than that maximum, the sanitized name is also not blank
/// and not a reserved device name, so it passes every rule that the queue
/// sets for file names.
pub proof fn lemma_sanitized_names_are_safe(value: Seq<char>)
    ensures
        spec_sanitize(value) matches Some(s) ==> clean_chars(s) && crate::text::utf16_len(s)
            <= MAX_FILE_NAME_UTF16_UNITS,
        spec_sanitize(value) matches Some(s) ==> !crate::text::contains_seq(s, ".."@) && !(s.len()
            > 0 && (s.last() == '.' || s.last() == ' ')),
        crate::text::utf16_len(value) < MAX_FILE_NAME_UTF16_UNITS ==> (spec_sanitize(value) matches Some(
            s,
        ) ==> crate::text::trim(s).len() > 0 && !spec_reserved(s)
            && !crate::validation::file_name_invalid(s)),
{
    let cleaned = clean_scan(after_last_separator(value)).0;
    lemma_clean_scan(after_last_separator(value));
    lemma_clean_trim_start(cleaned);
    lemma_clean_trim_end(crate::text::trim_start(cleaned));
    let ts = crate::text::trim_start(cleaned);
    let tt = crate::text::trim(cleaned);
    let t0 = trim_end_dots(tt);
    lemma_clean_trim_end_dots(tt);
    lemma_clean_replace(t0);
    let t = replace_double_dots(t0);
    lemma_replace_dots(t0);
    lemma_trim_end_dots_prefix(tt);
    if t.len() > 0 {
        assert(clean_chars(seq!['_']));
        lemma_clean_concat(seq!['_'], t);
        let r = if spec_reserved(t) { seq!['_'] + t } else { t };
        lemma_truncate_safe(r, MAX_FILE_NAME_UTF16_UNITS as nat);
        assert(t.last() == t0.last());
        assert(no_double_dot(seq!['_']));
        lemma_no_double_dot_concat(seq!['_'], t);
        assert((seq!['_'] + t).last() == t.last());
        lemma_truncate_keeps_rules(r, MAX_FILE_NAME_UTF16_UNITS as nat);
        let n = spec_truncate(r, MAX_FILE_NAME_UTF16_UNITS as nat);
        lemma_no_double_dot_contains(n);
        if crate::text::utf16_len(value) < MAX_FILE_NAME_UTF16_UNITS {
            lemma_after_separator_units(value);
            lemma_clean_scan_units(after_last_separator(value));
            lemma_trim_start_facts(cleaned);
            lemma_trim_end_prefix(ts);
            lemma_utf16_concat(seq!['_'], t);
            assert(crate::text::utf16_len(seq!['_']) == 1) by {
                assert(seq!['_'].drop_last() =~= Seq::<char>::empty());
                assert(crate::text::utf16_len(Seq::<char>::empty()) == 0);
                assert(seq!['_'].last() == '_');
                assert(crate::text::utf16_len_char('_') == 1);
            }
            assert(n == r);
            assert(tt[0] == ts[0]);
            assert(t[0] == t0[0] && t0[0] == tt[0]);
            assert(!crate::text::is_ws('_'));
            assert((seq!['_'] + t)[0] == '_');
            lemma_not_blank(r);
            if spec_reserved(t) {
                lemma_underscore_not_reserved(t);
            }
            assert(!crate::validation::file_name_invalid(n));
        }
    }
}

/// A name without control or forbidden chars has no path separator.
pub proof fn lemma_clean_has_no_separators(s: Seq<char>)
    requires
        clean_chars(s),
    ensures
        no_separators(s),
{
    if s.contains('/') {
        let k = choose|k: int| 0 <= k < s.len() && s[k] == '/';
        assert(forbidden_char(s[k]));
    }
    if s.contains('\\') {
        let k = choose|k: int| 0 <= k < s.len() && s[k] == '\\';
        assert(forbidden_char(s[k]));
    }
    if s.contains(':') {
        let k = choose|k: int| 0 <= k < s.len() && s[k] == ':';
        assert(forbidden_char(s[k]));
    }
}

/// No `.` directly follows another `.`.
pub open spec fn no_double_dot(s: Seq<char>) -> bool {
    forall|i: int| 0 <= i && i + 1 < s.len() ==> !(#[trigger] s[i] == '.' && s[i + 1] == '.')
}

proof fn lemma_no_double_dot_contains(s: Seq<char>)
    requires
        no_double_dot(s),
    ensures
        !crate::text::contains_seq(s, ".."@),
{
    reveal_strlit("..");
    if crate::text::contains_seq(s, ".."@) {
        let i = choose|i: int| crate::text::contains_at(s, ".."@, i);
        assert(s.subrange(i, i + 2)[0] == s[i]);
        assert(s.subrange(i, i + 2)[1] == s[i + 1]);
        assert(s[i] == '.');
    }
}

proof fn lemma_no_double_dot_sub(s: Seq<char>, a: int, b: int)
    requires
        no_double_dot(s),
        0 <= a <= b <= s.len(),
    ensures
        no_double_dot(s.subrange(a, b)),
{
    let t = s.subrange(a, b);
    assert forall|i: int| 0 <= i && i + 1 < t.len() implies !(#[trigger] t[i] == '.' && t[i + 1]
        == '.') by {
        assert(t[i] == s[a + i]);
        assert(t[i + 1] == s[a + i + 1]);
    }
}

proof fn lemma_no_double_dot_concat(a: Seq<char>, b: Seq<char>)
    requires
        no_double_dot(a),
        no_double_dot(b),
        a.len() == 0 || b.len() == 0 || a.last() != '.' || b[0] != '.',
    ensures
        no_double_dot(a + b),
{
    let t = a + b;
    assert forall|i: int| 0 <= i && i + 1 < t.len() implies !(#[trigger] t[i] == '.' && t[i + 1]
        == '.') by {
        if i + 1 < a.len() {
            assert(t[i] == a[i] && t[i + 1] == a[i + 1]);
        } else if i >= a.len() {
            assert(t[i] == b[i - a.len()] && t[i + 1] == b[i + 1 - a.len()]);
        } else {
            assert(t[i] == a.last() && t[i + 1] == b[0]);
        }
    }
}

/// What breaking up `..` keeps: the length, the UTF-16 length, the first
/// char, and a last char that is not a dot.
proof fn lemma_replace_dots(s: Seq<char>)
    ensures
        no_double_dot(replace_double_dots(s)),
        replace_double_dots(s).len() == s.len(),
        crate::text::utf16_len(replace_double_dots(s)) == crate::text::utf16_len(s),
        s.len() > 0 ==> replace_double_dots(s)[0] == s[0],
        s.len() > 0 && s.last() != '.' ==> replace_double_dots(s).last() == s.last(),
    decreases s.len(),
{
    let r = replace_double_dots(s);
    if s.len() >= 2 && s[0] == '.' && s[1] == '.' {
        let rest = s.subrange(2, s.len() as int);
        lemma_replace_dots(rest);
        let rr = replace_double_dots(rest);
        lemma_no_double_dot_concat(seq!['.', '_'], rr);
        assert(s =~= seq!['.', '.'] + rest);
        lemma_utf16_concat(seq!['.', '.'], rest);
        lemma_utf16_concat(seq!['.', '_'], rr);
        assert(crate::text::utf16_len(seq!['.', '.']) == 2) by {
            assert(seq!['.', '.'].drop_last() =~= seq!['.']);
            assert(seq!['.'].drop_last() =~= Seq::<char>::empty());
            assert(crate::text::utf16_len(Seq::<char>::empty()) == 0);
            assert(crate::text::utf16_len(seq!['.']) == 1);
        }
        assert(crate::text::utf16_len(seq!['.', '_']) == 2) by {
            assert(seq!['.', '_'].drop_last() =~= seq!['.']);
            assert(seq!['.'].drop_last() =~= Seq::<char>::empty());
        }
        if rest.len() > 0 {
            assert(rest.last() == s.last());
        }
    } else if s.len() > 0 {
        let rest = s.drop_first();
        lemma_replace_dots(rest);
        let rr = replace_double_dots(rest);
        if rest.len() > 0 && s[0] == '.' {
            assert(rest[0] == s[1]);
        }
        lemma_no_double_dot_concat(seq![s[0]], rr);
        assert(s =~= seq![s[0]] + rest);
        lemma_utf16_concat(seq![s[0]], rest);
        lemma_utf16_concat(seq![s[0]], rr);
        if rest.len() > 0 {
            assert(rest.last() == s.last());
        } else {
            assert(rr.len() == 0);
        }
    }
}

proof fn lemma_trim_end_dots_prefix(s: Seq<char>)
    ensures
        trim_end_dots(s).len() <= s.len(),
        trim_end_dots(s) == s.subrange(0, trim_end_dots(s).len() as int),
        trim_end_dots(s).len() > 0 ==> trim_end_dots(s).last() != '.' && trim_end_dots(s).last()
            != ' ',
    decreases s.len(),
{
    if s.len() > 0 && (s.last() == '.' || s.last() == ' ') {
        lemma_trim_end_dots_prefix(s.drop_last());
        let t = trim_end_dots(s.drop_last());
        assert(s.drop_last().subrange(0, t.len() as int) =~= s.subrange(0, t.len() as int));
    } else {
        assert(s.subrange(0, s.len() as int) =~= s);
    }
}

proof fn lemma_take_units_is_prefix(s: Seq<char>, budget: int)
    ensures
        take_units(s, budget).len() <= s.len(),
        take_units(s, budget) == s.subrange(0, take_units(s, budget).len() as int),
    decreases s.len(),
{
    if !(s.len() == 0 || crate::text::utf16_len_char(s[0]) > budget) {
        let u = crate::text::utf16_len_char(s[0]);
        lemma_take_units_is_prefix(s.drop_first(), budget - u);
        let t = take_units(s.drop_first(), budget - u);
        assert(seq![s[0]] + t =~= s.subrange(0, t.len() + 1int));
    } else {
        assert(s.subrange(0, 0) =~= Seq::<char>::empty());
    }
}

proof fn lemma_trim_end_prefix(s: Seq<char>)
    ensures
        crate::text::trim_end(s).len() <= s.len(),
        crate::text::trim_end(s) == s.subrange(0, crate::text::trim_end(s).len() as int),
        crate::text::utf16_len(crate::text::trim_end(s)) <= crate::text::utf16_len(s),
    decreases s.len(),
{
    if s.len() > 0 && crate::text::is_ws(s.last()) {
        lemma_trim_end_prefix(s.drop_last());
        let t = crate::text::trim_end(s.drop_last());
        assert(s.drop_last().subrange(0, t.len() as int) =~= s.subrange(0, t.len() as int));
    } else {
        assert(s.subrange(0, s.len() as int) =~= s);
    }
}

proof fn lemma_trim_start_facts(s: Seq<char>)
    ensures
        crate::text::trim_start(s).len() > 0 ==> !crate::text::is_ws(crate::text::trim_start(s)[0]),
        crate::text::utf16_len(crate::text::trim_start(s)) <= crate::text::utf16_len(s),
    decreases s.len(),
{
    if s.len() > 0 && crate::text::is_ws(s[0]) {
        lemma_trim_start_facts(s.drop_first());
        lemma_utf16_split(s);
    }
}

/// A text whose first char is not whitespace is not blank.
proof fn lemma_not_blank(s: Seq<char>)
    requires
        s.len() > 0,
        !crate::text::is_ws(s[0]),
    ensures
        crate::text::trim(s).len() > 0,
{
    assert(crate::text::trim_start(s) == s);
    lemma_trim_end_prefix(s);
    let t = crate::text::trim_end(s);
    if t.len() == 0 {
        lemma_trim_end_nonempty(s);
    }
}

proof fn lemma_trim_end_nonempty(s: Seq<char>)
    requires
        s.len() > 0,
        !crate::text::is_ws(s[0]),
    ensures
        crate::text::trim_end(s).len() > 0,
    decreases s.len(),
{
    if s.len() > 1 && crate::text::is_ws(s.last()) {
        lemma_trim_end_nonempty(s.drop_last());
    }
}

proof fn lemma_after_separator_units(s: Seq<char>)
    ensures
        crate::text::utf16_len(after_last_separator(s)) <= crate::text::utf16_len(s),
    decreases s.len(),
{
    if s.len() > 0 && !(s.last() == '/' || s.last() == '\\') {
        lemma_after_separator_units(s.drop_last());
        let a = after_last_separator(s.drop_last());
        assert(a.push(s.last()).drop_last() =~= a);
    }
}

proof fn lemma_clean_scan_units(s: Seq<char>)
    ensures
        crate::text::utf16_len(clean_scan(s).0) <= crate::text::utf16_len(s),
    decreases s.len(),
{
    if s.len() > 0 {
        lemma_clean_scan_units(s.drop_last());
        let out = clean_scan(s.drop_last()).0;
        assert(out.push('_').drop_last() =~= out);
        assert(out.push(' ').drop_last() =~= out);
        assert(out.push(s.last()).drop_last() =~= out);
    }
}

/// A name that starts with `_` is no device name.
proof fn lemma_underscore_not_reserved(t: Seq<char>)
    ensures
        !spec_reserved(seq!['_'] + t),
{
    reveal_strlit("CON");
    reveal_strlit("PRN");
    reveal_strlit("AUX");
    reveal_strlit("NUL");
    reveal_strlit("COM");
    reveal_strlit("LPT");
    let s = seq!['_'] + t;
    assert(s.drop_first() =~= t);
    assert(s[0] == '_');
    let stem = name_stem_before_dot(s);
    assert(stem.len() >= 1 && stem[0] == '_') by {
        crate::http::lemma_first_index(t, '.');
        match crate::http::first_index(t, '.') {
            Some(i) => {
                assert(crate::http::first_index(s, '.') == Some(i + 1));
                assert(stem == s.subrange(0, i + 1));
            },
            None => {
                assert(crate::http::first_index(s, '.') is None);
                assert(stem == s);
            },
        }
    }
    let u = crate::text::upper_seq(stem);
    assert(u[0] == '_');
    assert("CON"@[0] == 'C' && "PRN"@[0] == 'P' && "AUX"@[0] == 'A' && "NUL"@[0] == 'N');
    if crate::text::has_prefix(u, "COM"@) {
        assert(u.subrange(0, 3)[0] == u[0]);
    }
    if crate::text::has_prefix(u, "LPT"@) {
        assert(u.subrange(0, 3)[0] == u[0]);
    }
}

/// Cutting a name to length keeps it free of `..` and keeps it from ending
/// in a dot or a space.
proof fn lemma_truncate_keeps_rules(v: Seq<char>, max_units: nat)
    requires
        no_double_dot(v),
        v.len() > 0,
        v.last() != '.' && v.last() != ' ',
    ensures
        no_double_dot(spec_truncate(v, max_units)),
        spec_truncate(v, max_units).len() > 0 ==> spec_truncate(v, max_units).last() != '.'
            && spec_truncate(v, max_units).last() != ' ',
{
    if crate::text::utf16_len(v) > max_units {
        let ext = kept_extension(v);
        lemma_last_index(v, '.');
        let stem = v.subrange(0, v.len() - ext.len());
        let budget = if max_units >= crate::text::utf16_len(ext) {
            max_units - crate::text::utf16_len(ext)
        } else {
            0
        };
        let tu = take_units(stem, budget);
        lemma_take_units_is_prefix(stem, budget);
        let p = trim_end_dots(tu);
        lemma_trim_end_dots_prefix(tu);
        assert(p =~= v.subrange(0, p.len() as int));
        lemma_no_double_dot_sub(v, 0, p.len() as int);
        if ext.len() > 0 {
            let i = last_index(v, '.')->0;
            assert(ext == v.subrange(i, v.len() as int));
            lemma_no_double_dot_sub(v, i, v.len() as int);
            assert(ext[0] == '.');
            assert(ext.last() == v.last());
            lemma_no_double_dot_concat(p, ext);
            assert((p + ext).last() == ext.last());
        } else {
            assert(p + ext =~= p);
        }
    }
}

/// Whether `ext` is one of the listed extensions of videos.
pub open spec fn video_extension(ext: Seq<char>) -> bool {
    ext == "mp4"@ || ext == "mkv"@ || ext == "mov"@ || ext == "webm"@ || ext == "avi"@
}

/// Whether `ext` is one of the listed extensions of archives.
pub open spec fn archive_extension(ext: Seq<char>) -> bool {
    ext == "zip"@ || ext == "rar"@ || ext == "7z"@ || ext == "tar"@ || ext == "gz"@
}

/// Whether `ext` is one of the listed extensions of documents.
pub open spec fn document_extension(ext: Seq<char>) -> bool {
    ext == "pdf"@ || ext == "doc"@ || ext == "docx"@ || ext == "xls"@ || ext == "xlsx"@ || ext == "txt"@
}

/// Whether `ext` is one of the listed extensions of audio.
pub open spec fn audio_extension(ext: Seq<char>) -> bool {
    ext == "mp3"@ || ext == "wav"@ || ext == "flac"@ || ext == "m4a"@ || ext == "ogg"@
}

/// Each listed extension sorts into its own category, and every other
/// extension into `Other`: `mp4`, `mkv`, `mov`, `webm` and `avi` are videos;
/// `zip`, `rar`, `7z`, `tar` and `gz` archives; `pdf`, `doc`, `docx`, `xls`,
/// `xlsx` and `txt` documents; `mp3`, `wav`, `flac`, `m4a` and `ogg` audio.
pub proof fn law_extensions_sort_into_their_categories(ext: Seq<char>)
    ensures
        video_extension(ext) ==> spec_category(ext) == DownloadCategory::Video,
        archive_extension(ext) ==> spec_category(ext) == DownloadCategory::Archive,
        document_extension(ext) ==> spec_category(ext) == DownloadCategory::Document,
        audio_extension(ext) ==> spec_category(ext) == DownloadCategory::Audio,
        !video_extension(ext) && !archive_extension(ext) && !document_extension(ext)
            && !audio_extension(ext) ==> spec_category(ext) == DownloadCategory::Other,
{
    reveal_strlit("mp4");
    reveal_strlit("mkv");
    reveal_strlit("mov");
    reveal_strlit("webm");
    reveal_strlit("avi");
    reveal_strlit("zip");
    reveal_strlit("rar");
    reveal_strlit("7z");
    reveal_strlit("tar");
    reveal_strlit("gz");
    reveal_strlit("pdf");
    reveal_strlit("doc");
    reveal_strlit("docx");
    reveal_strlit("xls");
    reveal_strlit("xlsx");
    reveal_strlit("txt");
    reveal_strlit("mp3");
    reveal_strlit("wav");
    reveal_strlit("flac");
    reveal_strlit("m4a");
    reveal_strlit("ogg");
    assert("zip"@[0] != "mp4"@[0]);
    assert("zip"@[0] != "mkv"@[0]);
    assert("zip"@[0] != "mov"@[0]);
    assert("zip"@.len() != "webm"@.len());
    assert("zip"@[0] != "avi"@[0]);
    assert("rar"@[0] != "mp4"@[0]);
    assert("rar"@[0] != "mkv"@[0]);
    assert("rar"@[0] != "mov"@[0]);
    assert("rar"@.len() != "webm"@.len());
    assert("rar"@[0] != "avi"@[0]);
    assert("7z"@.len() != "mp4"@.len());
    assert("7z"@.len() != "mkv"@.len());
    assert("7z"@.len() != "mov"@.len());
    assert("7z"@.len() != "webm"@.len());
    assert("7z"@.len() != "avi"@.len());
    assert("tar"@[0] != "mp4"@[0]);
    assert("tar"@[0] != "mkv"@[0]);
    assert("tar"@[0] != "mov"@[0]);
    assert("tar"@.len() != "webm"@.len());
    assert("tar"@[0] != "avi"@[0]);
    assert("gz"@.len() != "mp4"@.len());
    assert("gz"@.len() != "mkv"@.len());
    assert("gz"@.len() != "mov"@.len());
    assert("gz"@.len() != "webm"@.len());
    assert("gz"@.len() != "avi"@.len());
    assert("pdf"@[0] != "mp4"@[0]);
    assert("pdf"@[0] != "mkv"@[0]);
    assert("pdf"@[0] != "mov"@[0]);
    assert("pdf"@.len() != "webm"@.len());
    assert("pdf"@[0] != "avi"@[0]);
    assert("pdf"@[0] != "zip"@[0]);
    assert("pdf"@[0] != "rar"@[0]);
    assert("pdf"@.len() != "7z"@.len());
    assert("pdf"@[0] != "tar"@[0]);
    assert("pdf"@.len() != "gz"@.len());
    assert("doc"@[0] != "mp4"@[0]);
    assert("doc"@[0] != "mkv"@[0]);
    assert("doc"@[0] != "mov"@[0]);
    assert("doc"@.len() != "webm"@.len());
    assert("doc"@[0] != "avi"@[0]);
    assert("doc"@[0] != "zip"@[0]);
    assert("doc"@[0] != "rar"@[0]);
    assert("doc"@.len() != "7z"@.len());
    assert("doc"@[0] != "tar"@[0]);
    assert("doc"@.len() != "gz"@.len());
    assert("docx"@.len() != "mp4"@.len());
    assert("docx"@.len() != "mkv"@.len());
    assert("docx"@.len() != "mov"@.len());
    assert("docx"@[0] != "webm"@[0]);
    assert("docx"@.len() != "avi"@.len());
    assert("docx"@.len() != "zip"@.len());
    assert("docx"@.len() != "rar"@.len());
    assert("docx"@.len() != "7z"@.len());
    assert("docx"@.len() != "tar"@.len());
    assert("docx"@.len() != "gz"@.len());
    assert("xls"@[0] != "mp4"@[0]);
    assert("xls"@[0] != "mkv"@[0]);
    assert("xls"@[0] != "mov"@[0]);
    assert("xls"@.len() != "webm"@.len());
    assert("xls"@[0] != "avi"@[0]);
    assert("xls"@[0] != "zip"@[0]);
    assert("xls"@[0] != "rar"@[0]);
    assert("xls"@.len() != "7z"@.len());
    assert("xls"@[0] != "tar"@[0]);
    assert("xls"@.len() != "gz"@.len());
    assert("xlsx"@.len() != "mp4"@.len());
    assert("xlsx"@.len() != "mkv"@.len());
    assert("xlsx"@.len() != "mov"@.len());
    assert("xlsx"@[0] != "webm"@[0]);
    assert("xlsx"@.len() != "avi"@.len());
    assert("xlsx"@.len() != "zip"@.len());
    assert("xlsx"@.len() != "rar"@.len());
    assert("xlsx"@.len() != "7z"@.len());
    assert("xlsx"@.len() != "tar"@.len());
    assert("xlsx"@.len() != "gz"@.len());
    assert("txt"@[0] != "mp4"@[0]);
    assert("txt"@[0] != "mkv"@[0]);
    assert("txt"@[0] != "mov"@[0]);
    assert("txt"@.len() != "webm"@.len());
    assert("txt"@[0] != "avi"@[0]);
    assert("txt"@[0] != "zip"@[0]);
    assert("txt"@[0] != "rar"@[0]);
    assert("txt"@.len() != "7z"@.len());
    assert("txt"@[1] != "tar"@[1]);
    assert("txt"@.len() != "gz"@.len());
    assert("mp3"@[2] != "mp4"@[2]);
    assert("mp3"@[1] != "mkv"@[1]);
    assert("mp3"@[1] != "mov"@[1]);
    assert("mp3"@.len() != "webm"@.len());
    assert("mp3"@[0] != "avi"@[0]);
    assert("mp3"@[0] != "zip"@[0]);
    assert("mp3"@[0] != "rar"@[0]);
    assert("mp3"@.len() != "7z"@.len());
    assert("mp3"@[0] != "tar"@[0]);
    assert("mp3"@.len() != "gz"@.len());
    assert("mp3"@[0] != "pdf"@[0]);
    assert("mp3"@[0] != "doc"@[0]);
    assert("mp3"@.len() != "docx"@.len());
    assert("mp3"@[0] != "xls"@[0]);
    assert("mp3"@.len() != "xlsx"@.len());
    assert("mp3"@[0] != "txt"@[0]);
    assert("wav"@[0] != "mp4"@[0]);
    assert("wav"@[0] != "mkv"@[0]);
    assert("wav"@[0] != "mov"@[0]);
    assert("wav"@.len() != "webm"@.len());
    assert("wav"@[0] != "avi"@[0]);
    assert("wav"@[0] != "zip"@[0]);
    assert("wav"@[0] != "rar"@[0]);
    assert("wav"@.len() != "7z"@.len());
    assert("wav"@[0] != "tar"@[0]);
    assert("wav"@.len() != "gz"@.len());
    assert("wav"@[0] != "pdf"@[0]);
    assert("wav"@[0] != "doc"@[0]);
    assert("wav"@.len() != "docx"@.len());
    assert("wav"@[0] != "xls"@[0]);
    assert("wav"@.len() != "xlsx"@.len());
    assert("wav"@[0] != "txt"@[0]);
    assert("flac"@.len() != "mp4"@.len());
    assert("flac"@.len() != "mkv"@.len());
    assert("flac"@.len() != "mov"@.len());
    assert("flac"@[0] != "webm"@[0]);
    assert("flac"@.len() != "avi"@.len());
    assert("flac"@.len() != "zip"@.len());
    assert("flac"@.len() != "rar"@.len());
    assert("flac"@.len() != "7z"@.len());
    assert("flac"@.len() != "tar"@.len());
    assert("flac"@.len() != "gz"@.len());
    assert("flac"@.len() != "pdf"@.len());
    assert("flac"@.len() != "doc"@.len());
    assert("flac"@[0] != "docx"@[0]);
    assert("flac"@.len() != "xls"@.len());
    assert("flac"@[0] != "xlsx"@[0]);
    assert("flac"@.len() != "txt"@.len());
    assert("m4a"@[1] != "mp4"@[1]);
    assert("m4a"@[1] != "mkv"@[1]);
    assert("m4a"@[1] != "mov"@[1]);
    assert("m4a"@.len() != "webm"@.len());
    assert("m4a"@[0] != "avi"@[0]);
    assert("m4a"@[0] != "zip"@[0]);
    assert("m4a"@[0] != "rar"@[0]);
    assert("m4a"@.len() != "7z"@.len());
    assert("m4a"@[0] != "tar"@[0]);
    assert("m4a"@.len() != "gz"@.len());
    assert("m4a"@[0] != "pdf"@[0]);
    assert("m4a"@[0] != "doc"@[0]);
    assert("m4a"@.len() != "docx"@.len());
    assert("m4a"@[0] != "xls"@[0]);
    assert("m4a"@.len() != "xlsx"@.len());
    assert("m4a"@[0] != "txt"@[0]);
    assert("ogg"@[0] != "mp4"@[0]);
    assert("ogg"@[0] != "mkv"@[0]);
    assert("ogg"@[0] != "mov"@[0]);
    assert("ogg"@.len() != "webm"@.len());
    assert("ogg"@[0] != "avi"@[0]);
    assert("ogg"@[0] != "zip"@[0]);
    assert("ogg"@[0] != "rar"@[0]);
    assert("ogg"@.len() != "7z"@.len());
    assert("ogg"@[0] != "tar"@[0]);
    assert("ogg"@.len() != "gz"@.len());
    assert("ogg"@[0] != "pdf"@[0]);
    assert("ogg"@[0] != "doc"@[0]);
    assert("ogg"@.len() != "docx"@.len());
    assert("ogg"@[0] != "xls"@[0]);
    assert("ogg"@.len() != "xlsx"@.len());
    assert("ogg"@[0] != "txt"@[0]);
}

} // verus!
