//! Character classes and small text operations with the meaning that Rust's
//! `char` and `str` methods give them, written over `Seq<char>` so that the
//! rest of the library can state its contracts over them.
use vstd::prelude::*;

verus! {

/// `char::is_whitespace`: the Unicode `White_Space` property.
pub open spec fn is_ws(c: char) -> bool {
    let u = c as u32;
    ||| 0x09 <= u <= 0x0D
    ||| u == 0x20
    ||| u == 0x85
    ||| u == 0xA0
    ||| u == 0x1680
    ||| 0x2000 <= u <= 0x200A
    ||| u == 0x2028
    ||| u == 0x2029
    ||| u == 0x202F
    ||| u == 0x205F
    ||| u == 0x3000
}

/// `char::is_control`: the general category `Cc`.
pub open spec fn is_ctrl(c: char) -> bool {
    let u = c as u32;
    u <= 0x1F || (0x7F <= u && u <= 0x9F)
}

pub open spec fn is_digit(c: char) -> bool {
    '0' <= c && c <= '9'
}

pub open spec fn is_hex_digit(c: char) -> bool {
    is_digit(c) || ('a' <= c && c <= 'f') || ('A' <= c && c <= 'F')
}

/// `char::to_ascii_lowercase`.
pub open spec fn lower(c: char) -> char {
    if 'A' <= c && c <= 'Z' {
        ((c as u32) + 32) as char
    } else {
        c
    }
}

/// `char::to_ascii_uppercase`.
pub open spec fn upper(c: char) -> char {
    if 'a' <= c && c <= 'z' {
        ((c as u32) - 32) as char
    } else {
        c
    }
}

/// `str::to_ascii_lowercase`.
pub open spec fn lower_seq(s: Seq<char>) -> Seq<char> {
    Seq::new(s.len(), |i: int| lower(s[i]))
}

/// `str::to_ascii_uppercase`.
pub open spec fn upper_seq(s: Seq<char>) -> Seq<char> {
    Seq::new(s.len(), |i: int| upper(s[i]))
}

/// `str::trim_start`.
pub open spec fn trim_start(s: Seq<char>) -> Seq<char>
    decreases s.len(),
{
    if s.len() > 0 && is_ws(s[0]) {
        trim_start(s.drop_first())
    } else {
        s
    }
}

/// `str::trim_end`.
pub open spec fn trim_end(s: Seq<char>) -> Seq<char>
    decreases s.len(),
{
    if s.len() > 0 && is_ws(s.last()) {
        trim_end(s.drop_last())
    } else {
        s
    }
}

/// `str::trim`.
pub open spec fn trim(s: Seq<char>) -> Seq<char> {
    trim_end(trim_start(s))
}

/// `str::starts_with` for a literal prefix.
pub open spec fn has_prefix(s: Seq<char>, p: Seq<char>) -> bool {
    p.len() <= s.len() && s.subrange(0, p.len() as int) == p
}

/// `str::ends_with` for a literal suffix.
pub open spec fn has_suffix(s: Seq<char>, p: Seq<char>) -> bool {
    p.len() <= s.len() && s.subrange(s.len() - p.len(), s.len() as int) == p
}

/// `str::contains` for a literal pattern.
pub open spec fn contains_at(s: Seq<char>, p: Seq<char>, i: int) -> bool {
    0 <= i && i + p.len() <= s.len() && s.subrange(i, i + p.len()) == p
}

pub open spec fn contains_seq(s: Seq<char>, p: Seq<char>) -> bool {
    exists|i: int| contains_at(s, p, i)
}

/// Number of UTF-16 code units of one char (`char::len_utf16`).
pub open spec fn utf16_len_char(c: char) -> nat {
    if (c as u32) < 0x10000 { 1 } else { 2 }
}

/// `str::encode_utf16().count()`.
pub open spec fn utf16_len(s: Seq<char>) -> nat
    decreases s.len(),
{
    if s.len() == 0 {
        0
    } else {
        utf16_len(s.drop_last()) + utf16_len_char(s.last())
    }
}

pub open spec fn digit_value(c: char) -> nat {
    ((c as u32) - ('0' as u32)) as nat
}

/// Decimal value of a sequence of ASCII digits.
pub open spec fn decimal_value(s: Seq<char>) -> nat
    decreases s.len(),
{
    if s.len() == 0 {
        0
    } else {
        decimal_value(s.drop_last()) * 10 + digit_value(s.last())
    }
}

pub open spec fn all_digits(s: Seq<char>) -> bool {
    forall|i: int| 0 <= i < s.len() ==> is_digit(#[trigger] s[i])
}

/// What the `FromStr` impls of Rust's unsigned integers accept, before the
/// bound of the type is checked: an optional `+` followed by at least one
/// ASCII digit and nothing else.
pub open spec fn unsigned_digits(s: Seq<char>) -> Option<Seq<char>> {
    let digits = if s.len() > 1 && s[0] == '+' { s.drop_first() } else { s };
    if digits.len() > 0 && all_digits(digits) { Some(digits) } else { None }
}

/// `s.parse::<u64>()`.
pub open spec fn parse_u64_spec(s: Seq<char>) -> Option<u64> {
    match unsigned_digits(s) {
        Some(d) => if decimal_value(d) <= u64::MAX { Some(decimal_value(d) as u64) } else { None },
        None => None,
    }
}

/// `s.parse::<u8>()`.
pub open spec fn parse_u8_spec(s: Seq<char>) -> Option<u8> {
    match unsigned_digits(s) {
        Some(d) => if decimal_value(d) <= 255 { Some(decimal_value(d) as u8) } else { None },
        None => None,
    }
}

/// Decimal text of a number, as `u64::to_string` writes it.
pub open spec fn decimal_text(n: nat) -> Seq<char>
    decreases n,
{
    if n < 10 {
        seq![(('0' as u32) + n) as char]
    } else {
        decimal_text(n / 10).push((('0' as u32) + (n % 10)) as char)
    }
}

/// `String::push`: appends one char at the end.
#[verifier::external_body]
pub(crate) fn push_char(s: &mut String, c: char)
    ensures
        final(s)@ == old(s)@.push(c),
{
    s.push(c);
}

/// The chars of a string slice.
pub fn chars_of(s: &str) -> (v: Vec<char>)
    ensures
        v@ == s@,
{
    let n = s.unicode_len();
    let mut v: Vec<char> = Vec::new();
    let mut i: usize = 0;
    while i < n
        invariant
            n == s@.len(),
            i <= n,
            v@ == s@.subrange(0, i as int),
        decreases n - i,
    {
        v.push(s.get_char(i));
        i = i + 1;
    }
    v
}

/// A string holding the chars `v[from..to]`.
pub fn string_of_range(v: &Vec<char>, from: usize, to: usize) -> (s: String)
    requires
        from <= to <= v@.len(),
    ensures
        s@ == v@.subrange(from as int, to as int),
{
    let mut s = String::new();
    let mut i = from;
    while i < to
        invariant
            from <= i <= to <= v@.len(),
            s@ == v@.subrange(from as int, i as int),
        decreases to - i,
    {
        push_char(&mut s, v[i]);
        i = i + 1;
    }
    s
}

/// A string holding the chars of `v`.
pub fn string_of(v: &Vec<char>) -> (s: String)
    ensures
        s@ == v@,
{
    string_of_range(v, 0, v.len())
}

pub fn char_is_ws(c: char) -> (r: bool)
    ensures
        r == is_ws(c),
{
    let u = c as u32;
    (0x09 <= u && u <= 0x0D) || u == 0x20 || u == 0x85 || u == 0xA0 || u == 0x1680 || (0x2000
        <= u && u <= 0x200A) || u == 0x2028 || u == 0x2029 || u == 0x202F || u == 0x205F || u
        == 0x3000
}

pub fn char_is_ctrl(c: char) -> (r: bool)
    ensures
        r == is_ctrl(c),
{
    let u = c as u32;
    u <= 0x1F || (0x7F <= u && u <= 0x9F)
}

pub fn char_lower(c: char) -> (r: char)
    ensures
        r == lower(c),
{
    if 'A' <= c && c <= 'Z' {
        let u = (c as u32) + 32;
        assert(0x61 <= u <= 0x7A);
        char_from_ascii(u)
    } else {
        c
    }
}

pub fn char_upper(c: char) -> (r: char)
    ensures
        r == upper(c),
{
    if 'a' <= c && c <= 'z' {
        let u = (c as u32) - 32;
        char_from_ascii(u)
    } else {
        c
    }
}

/// `char::from_u32` on an ASCII code, which always succeeds.
pub fn char_from_ascii(u: u32) -> (c: char)
    requires
        u < 128,
    ensures
        c == u as char,
        c as u32 == u,
{
    (u as u8) as char
}

/// The chars of `s` with ASCII letters in lower case.
pub fn lower_chars(s: &Vec<char>) -> (r: Vec<char>)
    ensures
        r@ == lower_seq(s@),
{
    let mut r: Vec<char> = Vec::new();
    let mut i: usize = 0;
    while i < s.len()
        invariant
            i <= s@.len(),
            r@ == lower_seq(s@.subrange(0, i as int)),
        decreases s@.len() - i,
    {
        r.push(char_lower(s[i]));
        i = i + 1;
        assert(lower_seq(s@.subrange(0, i as int)) =~= lower_seq(s@.subrange(0, i - 1)).push(
            lower(s@[i - 1]),
        ));
    }
    assert(s@.subrange(0, s@.len() as int) =~= s@);
    r
}

/// The chars of `s` with ASCII letters in upper case.
pub fn upper_chars(s: &Vec<char>) -> (r: Vec<char>)
    ensures
        r@ == upper_seq(s@),
{
    let mut r: Vec<char> = Vec::new();
    let mut i: usize = 0;
    while i < s.len()
        invariant
            i <= s@.len(),
            r@ == upper_seq(s@.subrange(0, i as int)),
        decreases s@.len() - i,
    {
        r.push(char_upper(s[i]));
        i = i + 1;
        assert(upper_seq(s@.subrange(0, i as int)) =~= upper_seq(s@.subrange(0, i - 1)).push(
            upper(s@[i - 1]),
        ));
    }
    assert(s@.subrange(0, s@.len() as int) =~= s@);
    r
}

/// Two char sequences are equal.
pub fn chars_equal(a: &Vec<char>, b: &Vec<char>) -> (r: bool)
    ensures
        r == (a@ == b@),
{
    if a.len() != b.len() {
        return false;
    }
    let mut i: usize = 0;
    while i < a.len()
        invariant
            a@.len() == b@.len(),
            i <= a@.len(),
            forall|j: int| 0 <= j < i ==> a@[j] == b@[j],
        decreases a@.len() - i,
    {
        if a[i] != b[i] {
            return false;
        }
        i = i + 1;
    }
    assert(a@ =~= b@);
    true
}

/// `a == b` on two string slices.
pub fn str_equal(a: &str, b: &str) -> (r: bool)
    ensures
        r == (a@ == b@),
{
    let x = chars_of(a);
    let y = chars_of(b);
    chars_equal(&x, &y)
}

/// The chars `v[from..to]` hold the literal `p`.
pub fn range_is(v: &Vec<char>, from: usize, p: &str) -> (r: bool)
    ensures
        r == contains_at(v@, p@, from as int),
{
    let pc = chars_of(p);
    if from > v.len() || pc.len() > v.len() - from {
        return false;
    }
    let n = v.len();
    let mut i: usize = 0;
    while i < pc.len()
        invariant
            n == v@.len(),
            from + pc@.len() <= v@.len(),
            pc@ == p@,
            i <= pc@.len(),
            forall|j: int| 0 <= j < i ==> v@[from + j] == pc@[j],
        decreases pc@.len() - i,
    {
        let k: usize = from + i;
        if v[k] != pc[i] {
            return false;
        }
        i = i + 1;
    }
    assert(v@.subrange(from as int, from + pc@.len()) =~= pc@);
    true
}

/// `str::starts_with` on chars.
pub fn starts_with(v: &Vec<char>, p: &str) -> (r: bool)
    ensures
        r == has_prefix(v@, p@),
{
    range_is(v, 0, p)
}

/// `str::ends_with` on chars.
pub fn ends_with(v: &Vec<char>, p: &str) -> (r: bool)
    ensures
        r == has_suffix(v@, p@),
{
    let n = p.unicode_len();
    if n > v.len() {
        false
    } else {
        range_is(v, v.len() - n, p)
    }
}

/// Position of the first occurrence of the literal `p` in `v` at or after `from`.
pub fn find_from(v: &Vec<char>, p: &str, from: usize) -> (r: Option<usize>)
    requires
        from <= v@.len(),
    ensures
        match r {
            Some(i) => from <= i && contains_at(v@, p@, i as int) && forall|j: int|
                from <= j < i ==> !contains_at(v@, p@, j),
            None => forall|j: int| from <= j ==> !contains_at(v@, p@, j),
        },
{
    let mut i = from;
    loop
        invariant
            from <= i <= v@.len(),
            forall|j: int| from <= j < i ==> !contains_at(v@, p@, j),
        decreases v@.len() - i,
    {
        if range_is(v, i, p) {
            return Some(i);
        }
        if i == v.len() {
            assert forall|j: int| from <= j implies !contains_at(v@, p@, j) by {
                if j > v@.len() {
                }
            }
            return None;
        }
        i = i + 1;
    }
}

/// `s.contains(c)` for one char.
pub fn has_char(v: &Vec<char>, c: char) -> (r: bool)
    ensures
        r == v@.contains(c),
{
    let mut i: usize = 0;
    while i < v.len()
        invariant
            i <= v@.len(),
            forall|j: int| 0 <= j < i ==> v@[j] != c,
        decreases v@.len() - i,
    {
        if v[i] == c {
            assert(v@[i as int] == c);
            return true;
        }
        i = i + 1;
    }
    false
}

pub proof fn lemma_trim_start_from(s: Seq<char>, i: int)
    requires
        0 <= i <= s.len(),
        forall|j: int| 0 <= j < i ==> is_ws(#[trigger] s[j]),
    ensures
        trim_start(s) == trim_start(s.subrange(i, s.len() as int)),
    decreases i,
{
    if i > 0 {
        assert(s.drop_first().subrange(i - 1, s.drop_first().len() as int) =~= s.subrange(
            i,
            s.len() as int,
        ));
        assert forall|j: int| 0 <= j < i - 1 implies is_ws(#[trigger] s.drop_first()[j]) by {
            assert(s.drop_first()[j] == s[j + 1]);
        }
        lemma_trim_start_from(s.drop_first(), i - 1);
    } else {
        assert(s.subrange(0, s.len() as int) =~= s);
    }
}

proof fn lemma_trim_end_to(s: Seq<char>, i: int)
    requires
        0 <= i <= s.len(),
        forall|j: int| i <= j < s.len() ==> is_ws(#[trigger] s[j]),
    ensures
        trim_end(s) == trim_end(s.subrange(0, i)),
    decreases s.len() - i,
{
    if i < s.len() {
        assert(s.drop_last().subrange(0, i) =~= s.subrange(0, i));
        assert forall|j: int| i <= j < s.drop_last().len() implies is_ws(
            #[trigger] s.drop_last()[j],
        ) by {
            assert(s.drop_last()[j] == s[j]);
        }
        lemma_trim_end_to(s.drop_last(), i);
    } else {
        assert(s.subrange(0, s.len() as int) =~= s);
    }
}

/// Bounds `[start, end)` of `trim(v)` inside `v`.
pub fn trim_bounds(v: &Vec<char>) -> (r: (usize, usize))
    ensures
        r.0 <= r.1 <= v@.len(),
        v@.subrange(r.0 as int, r.1 as int) == trim(v@),
        trim_start(v@) == v@.subrange(r.0 as int, v@.len() as int),
        trim_end(v@) == v@.subrange(0, r.1 as int) || r.0 == r.1,
{
    let mut start: usize = 0;
    while start < v.len() && char_is_ws(v[start])
        invariant
            start <= v@.len(),
            forall|j: int| 0 <= j < start ==> is_ws(#[trigger] v@[j]),
        decreases v@.len() - start,
    {
        start = start + 1;
    }
    proof {
        lemma_trim_start_from(v@, start as int);
        let rest = v@.subrange(start as int, v@.len() as int);
        if rest.len() > 0 {
            assert(rest[0] == v@[start as int]);
        }
        assert(trim_start(rest) == rest);
    }
    let mut end: usize = v.len();
    while end > start && char_is_ws(v[end - 1])
        invariant
            start <= end <= v@.len(),
            forall|j: int| end <= j < v@.len() ==> is_ws(#[trigger] v@[j]),
        decreases end,
    {
        end = end - 1;
    }
    proof {
        let rest = v@.subrange(start as int, v@.len() as int);
        assert forall|j: int| (end - start) <= j < rest.len() implies is_ws(#[trigger] rest[j]) by {
            assert(rest[j] == v@[start + j]);
        }
        lemma_trim_end_to(rest, end - start);
        let core = rest.subrange(0, end - start);
        assert(core =~= v@.subrange(start as int, end as int));
        if core.len() > 0 {
            assert(core.last() == v@[end - 1]);
        }
        assert(trim_end(core) == core);
        lemma_trim_end_to(v@, end as int);
        let pre = v@.subrange(0, end as int);
        if end > start {
            assert(pre.last() == v@[end - 1]);
            assert(trim_end(pre) == pre);
        }
    }
    (start, end)
}

/// `str::trim` on chars.
pub fn trim_chars(v: &Vec<char>) -> (r: Vec<char>)
    ensures
        r@ == trim(v@),
{
    let (a, b) = trim_bounds(v);
    let mut r: Vec<char> = Vec::new();
    let mut i = a;
    while i < b
        invariant
            a <= i <= b <= v@.len(),
            r@ == v@.subrange(a as int, i as int),
        decreases b - i,
    {
        r.push(v[i]);
        i = i + 1;
    }
    r
}

/// `s.trim().is_empty()`.
pub fn is_blank(s: &str) -> (r: bool)
    ensures
        r == (trim(s@).len() == 0),
{
    let v = chars_of(s);
    let (a, b) = trim_bounds(&v);
    a == b
}

/// `str::encode_utf16().count()`.
pub fn utf16_count(v: &Vec<char>) -> (r: u128)
    ensures
        r as nat == utf16_len(v@),
{
    let mut total: u128 = 0;
    let mut i: usize = 0;
    while i < v.len()
        invariant
            i <= v@.len(),
            total as nat == utf16_len(v@.subrange(0, i as int)),
            total <= 2 * i,
        decreases v@.len() - i,
    {
        assert(v@.subrange(0, i + 1).drop_last() =~= v@.subrange(0, i as int));
        let unit: u128 = if (v[i] as u32) < 0x10000 { 1 } else { 2 };
        total = total + unit;
        i = i + 1;
    }
    assert(v@.subrange(0, v@.len() as int) =~= v@);
    total
}

pub proof fn lemma_utf16_len_prefix(s: Seq<char>, i: int)
    requires
        0 <= i <= s.len(),
    ensures
        utf16_len(s.subrange(0, i)) <= utf16_len(s),
    decreases s.len() - i,
{
    if i < s.len() {
        lemma_utf16_len_prefix(s, i + 1);
        assert(s.subrange(0, i + 1).drop_last() =~= s.subrange(0, i));
    } else {
        assert(s.subrange(0, i) =~= s);
    }
}

proof fn lemma_decimal_grows(s: Seq<char>, i: int)
    requires
        0 <= i <= s.len(),
    ensures
        decimal_value(s.subrange(0, i)) <= decimal_value(s),
    decreases s.len() - i,
{
    if i < s.len() {
        lemma_decimal_grows(s, i + 1);
        assert(s.subrange(0, i + 1).drop_last() =~= s.subrange(0, i));
    } else {
        assert(s.subrange(0, i) =~= s);
    }
}

/// Value of the digits `v[from..]`, or `None` when a char is not a digit or
/// the value passes `limit`.
fn decimal_upto(v: &Vec<char>, from: usize, limit: u64) -> (r: Option<u64>)
    requires
        from <= v@.len(),
        limit >= 9,
    ensures
        ({
            let d = v@.subrange(from as int, v@.len() as int);
            match r {
                Some(n) => all_digits(d) && decimal_value(d) == n && n <= limit,
                None => !all_digits(d) || decimal_value(d) > limit,
            }
        }),
{
    let ghost d = v@.subrange(from as int, v@.len() as int);
    let mut value: u64 = 0;
    let mut i = from;
    while i < v.len()
        invariant
            from <= i <= v@.len(),
            d == v@.subrange(from as int, v@.len() as int),
            all_digits(v@.subrange(from as int, i as int)),
            value as nat == decimal_value(v@.subrange(from as int, i as int)),
            value <= limit,
            limit >= 9,
        decreases v@.len() - i,
    {
        let c = v[i];
        if !('0' <= c && c <= '9') {
            proof {
                assert(d[i - from] == c);
            }
            return None;
        }
        let digit = (c as u32 - '0' as u32) as u64;
        assert(digit <= 9);
        assert(v@.subrange(from as int, i + 1).drop_last() =~= v@.subrange(from as int, i as int));
        if value > (limit - digit) / 10 {
            proof {
                let p = v@.subrange(from as int, i + 1);
                assert(decimal_value(p) == value * 10 + digit);
                assert(value * 10 + digit > limit) by (nonlinear_arith)
                    requires value > (limit - digit) / 10, digit <= 9, digit <= limit || true;
                if all_digits(d) {
                    assert(d.subrange(0, i + 1 - from) =~= p);
                    lemma_decimal_grows(d, i + 1 - from);
                }
            }
            return None;
        }
        proof {
            assert(value * 10 + digit <= limit) by (nonlinear_arith)
                requires value <= (limit - digit) / 10, digit <= limit;
        }
        value = value * 10 + digit;
        i = i + 1;
    }
    proof {
        assert(v@.subrange(from as int, i as int) =~= d);
    }
    Some(value)
}

/// `s.parse::<u64>()`.
pub fn parse_u64(s: &Vec<char>) -> (r: Option<u64>)
    ensures
        r == parse_u64_spec(s@),
{
    let from: usize = if s.len() > 1 && s[0] == '+' { 1 } else { 0 };
    proof {
        if from == 1 {
            assert(s@.subrange(1, s@.len() as int) =~= s@.drop_first());
        } else {
            assert(s@.subrange(0, s@.len() as int) =~= s@);
        }
    }
    if from == s.len() {
        return None;
    }
    decimal_upto(s, from, u64::MAX)
}

/// `s.parse::<u8>()`.
pub fn parse_u8(s: &Vec<char>) -> (r: Option<u8>)
    ensures
        r == parse_u8_spec(s@),
{
    let from: usize = if s.len() > 1 && s[0] == '+' { 1 } else { 0 };
    proof {
        if from == 1 {
            assert(s@.subrange(1, s@.len() as int) =~= s@.drop_first());
        } else {
            assert(s@.subrange(0, s@.len() as int) =~= s@);
        }
    }
    if from == s.len() {
        return None;
    }
    match decimal_upto(s, from, 255) {
        Some(n) => Some(n as u8),
        None => None,
    }
}

/// Appends the decimal text of `n` to `out`.
pub fn push_decimal(out: &mut String, n: u64)
    ensures
        final(out)@ == old(out)@ + decimal_text(n as nat),
    decreases n,
{
    let ghost start = out@;
    if n >= 10 {
        push_decimal(out, n / 10);
    }
    let d = (n % 10) as u32;
    let c = char_from_ascii(48 + d);
    push_char(out, c);
    proof {
        if n >= 10 {
            assert(decimal_text(n as nat) == decimal_text((n / 10) as nat).push(c));
        } else {
            assert(decimal_text(n as nat) == seq![c]);
        }
        assert(out@ =~= start + decimal_text(n as nat));
    }
}

/// Appends a string slice to `out`.
pub fn push_str(out: &mut String, s: &str)
    ensures
        final(out)@ == old(out)@ + s@,
{
    out.append(s);
}

} // verus!
