//! The calls that the library makes into std and into other crates, each with
//! the contract that the called code's source or documentation shows.
use vstd::prelude::*;

verus! {

/// The scheme, host (empty when there is none) and path that
/// `reqwest::Url::parse` gives for a text, or `None` when it rejects it.
pub uninterp spec fn spec_url_parts(s: Seq<char>) -> Option<(Seq<char>, Seq<char>, Seq<char>)>;

/// A char that a header name may hold: an ASCII letter or digit, or one of
/// ``!#$%&'*+-.^_`|~``.
pub open spec fn header_name_char(c: char) -> bool {
    ||| 'a' <= c <= 'z'
    ||| 'A' <= c <= 'Z'
    ||| '0' <= c <= '9'
    ||| c == '!' || c == '#' || c == '$' || c == '%' || c == '&' || c == '\'' || c == '*'
    ||| c == '+' || c == '-' || c == '.' || c == '^' || c == '_' || c == '`' || c == '|' || c == '~'
}

/// The name that `reqwest::header::HeaderName::from_bytes` makes of a header
/// name: the name in lower case when it has 1 to 65535 chars, each of them
/// one that a header name may hold; else `None`.
pub open spec fn spec_header_name(name: Seq<char>) -> Option<Seq<char>> {
    if 1 <= name.len() <= 65535 && forall|i: int|
        0 <= i < name.len() ==> header_name_char(#[trigger] name[i]) {
        Some(crate::text::lower_seq(name))
    } else {
        None
    }
}

/// Whether `reqwest::Proxy::all` accepts a proxy URL.
pub uninterp spec fn spec_proxy_accepted(url: Seq<char>) -> bool;

/// The lower-case hexadecimal digit of a value below 16.
pub open spec fn hex_digit_char(n: u32) -> char {
    if n < 10 {
        (('0' as u32) + n) as char
    } else {
        (('a' as u32) + n - 10) as char
    }
}

/// How `serde_json` writes one char inside a string literal: a double quote
/// and a backslash after a backslash; backspace, tab, line feed, form feed
/// and carriage return as a backslash and `b`, `t`, `n`, `f`, `r`; any other
/// char below 0x20 as a backslash, `u00` and two lower-case hex digits; and
/// every other char as itself.
pub open spec fn json_escape(c: char) -> Seq<char> {
    let u = c as u32;
    if c == '"' {
        seq!['\\', '"']
    } else if c == '\\' {
        seq!['\\', '\\']
    } else if u == 0x08 {
        seq!['\\', 'b']
    } else if u == 0x09 {
        seq!['\\', 't']
    } else if u == 0x0A {
        seq!['\\', 'n']
    } else if u == 0x0C {
        seq!['\\', 'f']
    } else if u == 0x0D {
        seq!['\\', 'r']
    } else if u < 0x20 {
        seq!['\\', 'u', '0', '0', hex_digit_char(u / 16), hex_digit_char(u % 16)]
    } else {
        seq![c]
    }
}

/// The chars of a text, each written as `json_escape` writes it.
pub open spec fn json_escaped(s: Seq<char>) -> Seq<char>
    decreases s.len(),
{
    if s.len() == 0 {
        Seq::empty()
    } else {
        json_escaped(s.drop_last()) + json_escape(s.last())
    }
}

/// The JSON string literal that `serde_json::to_string` writes for a text:
/// the escaped text between double quotes.
pub open spec fn spec_json_string(s: Seq<char>) -> Seq<char> {
    seq!['"'] + json_escaped(s) + seq!['"']
}

/// `String::from_utf8`: succeeds exactly on well-formed UTF-8 and then holds
/// the decoded chars.
#[verifier::external_body]
pub(crate) fn string_from_utf8(bytes: Vec<u8>) -> (r: Option<String>)
    ensures
        r is Some <==> vstd::utf8::valid_utf8(bytes@),
        r matches Some(s) ==> s@ == vstd::utf8::decode_utf8(bytes@),
{
    String::from_utf8(bytes).ok()
}

/// `reqwest::Url::parse`, read through `scheme`, `host_str` and `path`.
#[verifier::external_body]
pub(crate) fn parse_url(s: &str) -> (r: Option<(String, String, String)>)
    ensures
        r is Some <==> spec_url_parts(s@) is Some,
        r matches Some(t) ==> spec_url_parts(s@) == Some((t.0@, t.1@, t.2@)),
{
    match reqwest::Url::parse(s) {
        Ok(url) => Some(
            (
                url.scheme().to_owned(),
                url.host_str().unwrap_or_default().to_owned(),
                url.path().to_owned(),
            ),
        ),
        Err(_) => None,
    }
}

/// `reqwest::header::HeaderName::from_bytes`, read back through `as_str`.
#[verifier::external_body]
pub(crate) fn canonical_header_name(name: &str) -> (r: Option<String>)
    ensures
        r is Some <==> spec_header_name(name@) is Some,
        r matches Some(n) ==> spec_header_name(name@) == Some(n@),
{
    match reqwest::header::HeaderName::from_bytes(name.as_bytes()) {
        Ok(header) => Some(header.as_str().to_owned()),
        Err(_) => None,
    }
}

/// A byte that `reqwest::header::HeaderValue` accepts: a tab, or any byte
/// from 32 upward except 127.
pub open spec fn header_value_byte(b: u8) -> bool {
    (b >= 32 && b != 127) || b == 9
}

/// `reqwest::header::HeaderValue::from_str` succeeds exactly when every byte
/// of the text's UTF-8 encoding is accepted.
#[verifier::external_body]
pub(crate) fn header_value_valid(value: &str) -> (r: bool)
    ensures
        r == forall|i: int|
            0 <= i < vstd::utf8::encode_utf8(value@).len() ==> header_value_byte(
                #[trigger] vstd::utf8::encode_utf8(value@)[i],
            ),
{
    reqwest::header::HeaderValue::from_str(value).is_ok()
}

/// `reqwest::Proxy::all` accepts the proxy URL.
#[verifier::external_body]
pub(crate) fn proxy_url_accepted(url: &str) -> (r: bool)
    ensures
        r == spec_proxy_accepted(url@),
{
    reqwest::Proxy::all(url).is_ok()
}

/// `serde_json::to_string` of a text: its JSON string literal.
#[verifier::external_body]
pub(crate) fn json_string(s: &str) -> (r: String)
    ensures
        r@ == spec_json_string(s@),
{
    serde_json::to_string(s).unwrap_or_default()
}

/// `uuid::Uuid::new_v4` in its hyphenated text form, which always has 36 chars.
#[verifier::external_body]
pub(crate) fn new_uuid_text() -> (r: String)
    ensures
        r@.len() == 36,
{
    uuid::Uuid::new_v4().to_string()
}

/// `uuid::Uuid::new_v4` in its simple text form: 32 lower-case hex digits.
#[verifier::external_body]
pub(crate) fn new_uuid_simple() -> (r: String)
    ensures
        r@.len() == 32,
        forall|i: int|
            0 <= i < r@.len() ==> ('0' <= #[trigger] r@[i] <= '9' || 'a' <= r@[i] <= 'f'),
{
    uuid::Uuid::new_v4().simple().to_string()
}

/// One component of a filesystem path, as `std::path::Component` tells them apart.
#[derive(Clone, Debug)]
pub enum PathPart {
    Prefix,
    RootDir,
    CurDir,
    ParentDir,
    Normal(String),
}

/// A text that every platform reads as one plain path component: it is not
/// empty, not `.` or `..`, and holds no `/`, `\\` or `:`.
pub open spec fn single_component(s: Seq<char>) -> bool {
    &&& s.len() > 0
    &&& s != "."@
    &&& s != ".."@
    &&& !s.contains('/')
    &&& !s.contains('\\')
    &&& !s.contains(':')
}

/// The pieces of a text between its `/` separators, in order (one empty
/// piece for the empty text, and one at each end that holds a `/`).
pub open spec fn slash_pieces(s: Seq<char>) -> Seq<Seq<char>>
    decreases s.len(),
{
    if s.len() == 0 {
        seq![Seq::<char>::empty()]
    } else {
        let rest = slash_pieces(s.drop_last());
        if s.last() == '/' {
            rest.push(Seq::<char>::empty())
        } else {
            rest.update(rest.len() - 1, rest.last().push(s.last()))
        }
    }
}

/// Every text has at least one piece.
pub proof fn lemma_slash_pieces_nonempty(s: Seq<char>)
    ensures
        slash_pieces(s).len() >= 1,
    decreases s.len(),
{
    if s.len() > 0 {
        lemma_slash_pieces_nonempty(s.drop_last());
    }
}

/// A text without `/` is a single piece.
pub proof fn lemma_slash_pieces_single(s: Seq<char>)
    requires
        !s.contains('/'),
    ensures
        slash_pieces(s) == seq![s],
    decreases s.len(),
{
    if s.len() > 0 {
        let d = s.drop_last();
        assert(!d.contains('/')) by {
            if d.contains('/') {
                let k = choose|k: int| 0 <= k < d.len() && d[k] == '/';
                assert(s[k] == '/');
            }
        }
        lemma_slash_pieces_single(d);
        assert(s[s.len() - 1] != '/');
        assert(d.push(s.last()) =~= s);
        assert(slash_pieces(s) =~= seq![s]);
    } else {
        assert(s =~= Seq::<char>::empty());
    }
}

/// Splitting at a `/` puts the pieces of the two sides one after the other.
pub proof fn lemma_slash_pieces_split(a: Seq<char>, b: Seq<char>)
    ensures
        slash_pieces(a + seq!['/'] + b) == slash_pieces(a) + slash_pieces(b),
    decreases b.len(),
{
    let s = a + seq!['/'] + b;
    if b.len() == 0 {
        assert(s.drop_last() =~= a);
        assert(slash_pieces(b) == seq![Seq::<char>::empty()]) by {
            assert(b =~= Seq::<char>::empty());
        }
        assert(slash_pieces(s) =~= slash_pieces(a) + slash_pieces(b));
    } else {
        let bd = b.drop_last();
        assert(s.drop_last() =~= a + seq!['/'] + bd);
        assert(s.last() == b.last());
        lemma_slash_pieces_split(a, bd);
        lemma_slash_pieces_nonempty(bd);
        lemma_slash_pieces_nonempty(a);
        let pa = slash_pieces(a);
        let pb = slash_pieces(bd);
        if b.last() == '/' {
            assert(slash_pieces(s) =~= pa + pb.push(Seq::<char>::empty()));
        } else {
            let rest = pa + pb;
            assert(rest.last() == pb.last());
            assert(rest.update(rest.len() - 1, rest.last().push(b.last())) =~= pa + pb.update(
                pb.len() - 1,
                pb.last().push(b.last()),
            ));
        }
    }
}

/// A relative path that every platform splits at `/` alone: it holds no
/// `\\` and no `:`, and it does not start with `/`.
pub open spec fn slash_relative(s: Seq<char>) -> bool {
    !s.contains('\\') && !s.contains(':') && (s.len() == 0 || s[0] != '/')
}

/// A piece that is a plain name: not empty, not `.` and not `..`.
pub open spec fn plain_piece(p: Seq<char>) -> bool {
    p.len() > 0 && p != "."@ && p != ".."@
}

/// A relative path of plain names joined by single `/`, such as `a/b`.
pub open spec fn plain_relative(s: Seq<char>) -> bool {
    slash_relative(s) && forall|i: int|
        0 <= i < slash_pieces(s).len() ==> plain_piece(#[trigger] slash_pieces(s)[i])
}

/// `std::path::Path::components`. How a path splits depends on the platform,
/// so only what holds on every platform is stated: the empty path has no
/// components, `.` and `..` are one component each, and a single plain
/// component stands alone. Of a relative path split at `/` alone: it has no
/// root and no prefix, each `..` piece is a parent component, and when all
/// its pieces are plain names they are its components, in order.
#[verifier::external_body]
pub(crate) fn path_components(s: &str) -> (r: Vec<PathPart>)
    ensures
        s@.len() == 0 ==> r@.len() == 0,
        s@ == seq!['.'] ==> r@.len() == 1 && r@[0] is CurDir,
        s@ == seq!['.', '.'] ==> r@.len() == 1 && r@[0] is ParentDir,
        single_component(s@) ==> r@.len() == 1 && r@[0] is Normal && r@[0]->0@ == s@,
        slash_relative(s@) ==> forall|i: int|
            0 <= i < r@.len() ==> !(#[trigger] r@[i] is RootDir) && !(r@[i] is Prefix),
        slash_relative(s@) && slash_pieces(s@).contains(".."@) ==> exists|i: int|
            0 <= i < r@.len() && #[trigger] r@[i] is ParentDir,
        plain_relative(s@) ==> r@.len() == slash_pieces(s@).len() && forall|i: int|
            0 <= i < r@.len() ==> (#[trigger] r@[i] is Normal) && r@[i]->0@ == slash_pieces(
                s@,
            )[i],
{
    std::path::Path::new(s).components().map(
        |c| match c {
            std::path::Component::Prefix(_) => PathPart::Prefix,
            std::path::Component::RootDir => PathPart::RootDir,
            std::path::Component::CurDir => PathPart::CurDir,
            std::path::Component::ParentDir => PathPart::ParentDir,
            std::path::Component::Normal(n) => PathPart::Normal(n.to_string_lossy().into_owned()),
        },
    ).collect()
}

/// `std::path::Path::is_absolute`. What is absolute depends on the platform;
/// only that a relative path split at `/` alone (which a single plain
/// component is) is not absolute is stated.
#[verifier::external_body]
pub(crate) fn path_is_absolute(s: &str) -> (r: bool)
    ensures
        single_component(s@) ==> !r,
        slash_relative(s@) ==> !r,
{
    std::path::Path::new(s).is_absolute()
}

/// A Windows verbatim path, which starts with two backslashes, `?` and a
/// backslash: joining a child to it rebuilds it from its components.
pub open spec fn verbatim_path(s: Seq<char>) -> bool {
    s.len() >= 4 && s[0] == '\\' && s[1] == '\\' && s[2] == '?' && s[3] == '\\'
}

/// A bare Windows drive such as `C:`, to which a child is joined without a
/// separator.
pub open spec fn bare_drive(s: Seq<char>) -> bool {
    s.len() == 2 && s[1] == ':'
}

/// A separator between a base and a child: `/` or `\\`, as the platform has it.
pub open spec fn path_separator(c: char) -> bool {
    c == '/' || c == '\\'
}

/// `r` is `child` placed under `base`: the two texts with at most one
/// separator between them.
pub open spec fn joined(base: Seq<char>, child: Seq<char>, r: Seq<char>) -> bool {
    r == base + child || r == base + seq!['/'] + child || r == base + seq!['\\'] + child
}

/// `r` is `child` placed under `base` as `std::path::Path::join` places a
/// relative path of plain names: for any base but a Windows verbatim one
/// (which is rebuilt), the base, at most one separator, then the child; the
/// child alone when the base is empty; and exactly one separator when the
/// base neither ends in one nor is a bare drive.
pub open spec fn placed_under(base: Seq<char>, child: Seq<char>, r: Seq<char>) -> bool {
    &&& !verbatim_path(base) ==> joined(base, child, r)
    &&& base.len() == 0 ==> r == child
    &&& !verbatim_path(base) && base.len() > 0 && !path_separator(base.last()) && !bare_drive(base)
        ==> exists|c: char| path_separator(c) && r == base + seq![c] + child
}

/// `std::path::Path::join`, as text. The separator depends on the platform,
/// so for a child that is a relative path of plain names only
/// `placed_under` is stated.
#[verifier::external_body]
pub(crate) fn path_join(base: &str, child: &str) -> (r: String)
    ensures
        single_component(child@) || plain_relative(child@) ==> placed_under(base@, child@, r@),
{
    std::path::Path::new(base).join(child).to_string_lossy().into_owned()
}

} // verus!
