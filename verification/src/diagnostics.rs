//! The diagnostic log: what an entry holds, how its details are bounded,
//! how the log keeps its newest entries within a count and a size, and how
//! a URL is shown without its query or credentials.
use vstd::prelude::*;
use crate::outside::{new_uuid_text, parse_url, spec_url_parts};
use crate::text::{chars_of, push_str, string_of, string_of_range};

verus! {

/// The most entries the log keeps.
pub const MAX_DIAGNOSTIC_ENTRIES: usize = 500;

/// The size, in bytes of text, up to which the stored log is pruned when its
/// encoding grows too large.
pub const MAX_DIAGNOSTIC_BYTES: usize = 262144;

/// The most chars a detail value keeps.
pub const MAX_DETAIL_VALUE_CHARS: usize = 240;

/// The first and the longest wait, in milliseconds, before the log is
/// written out again.
pub const PERSIST_DELAY_MS: u64 = 250;

pub const MAX_PERSIST_DELAY_MS: u64 = 30000;

#[derive(Clone, Copy, Debug, PartialEq, Eq, Structural)]
pub enum DiagnosticLevel {
    Debug,
    Info,
    Warning,
    Error,
}

/// Named details of an entry, sorted by name, each name once.
pub type DiagnosticDetails = Vec<(String, String)>;

/// One entry of the log; `at` is in UTC milliseconds since the Unix epoch.
#[derive(Clone, Debug)]
pub struct DiagnosticEntry {
    pub id: String,
    pub at: i64,
    pub level: DiagnosticLevel,
    pub scope: String,
    pub event: String,
    pub message: String,
    pub details: DiagnosticDetails,
}

/// `a` comes before `b` in the order of `String`: char by char, a prefix first.
pub open spec fn lex_lt(a: Seq<char>, b: Seq<char>) -> bool
    decreases a.len(),
{
    if a.len() == 0 {
        b.len() > 0
    } else if b.len() == 0 {
        false
    } else if a[0] != b[0] {
        a[0] < b[0]
    } else {
        lex_lt(a.drop_first(), b.drop_first())
    }
}

/// No text comes before itself.
pub proof fn lemma_lex_irreflexive(a: Seq<char>)
    ensures
        !lex_lt(a, a),
    decreases a.len(),
{
    if a.len() > 0 {
        lemma_lex_irreflexive(a.drop_first());
    }
}

/// Of two different texts, exactly one comes first.
pub proof fn lemma_lex_total(a: Seq<char>, b: Seq<char>)
    ensures
        a != b ==> lex_lt(a, b) || lex_lt(b, a),
        !(lex_lt(a, b) && lex_lt(b, a)),
    decreases a.len(),
{
    if a.len() > 0 && b.len() > 0 {
        lemma_lex_total(a.drop_first(), b.drop_first());
        if a[0] == b[0] && a != b {
            assert(a.drop_first() != b.drop_first()) by {
                if a.drop_first() == b.drop_first() {
                    assert forall|i: int| 0 <= i < a.len() implies a[i] == b[i] by {
                        if i > 0 {
                            assert(a[i] == a.drop_first()[i - 1]);
                            assert(b[i] == b.drop_first()[i - 1]);
                        }
                    }
                    assert(a =~= b);
                }
            }
        }
    } else if a.len() == 0 && b.len() == 0 {
        assert(a =~= b);
    }
}

/// The order of texts is transitive.
pub proof fn lemma_lex_transitive(a: Seq<char>, b: Seq<char>, c: Seq<char>)
    requires
        lex_lt(a, b),
        lex_lt(b, c),
    ensures
        lex_lt(a, c),
    decreases a.len(),
{
    if a.len() > 0 && b.len() > 0 && c.len() > 0 && a[0] == b[0] && b[0] == c[0] {
        lemma_lex_transitive(a.drop_first(), b.drop_first(), c.drop_first());
    }
}

/// Whether `a` comes before `b`.
pub fn text_less(a: &Vec<char>, b: &Vec<char>) -> (r: bool)
    ensures
        r == lex_lt(a@, b@),
{
    let mut i: usize = 0;
    proof {
        assert(a@.subrange(0, a@.len() as int) =~= a@);
        assert(b@.subrange(0, b@.len() as int) =~= b@);
    }
    while i < a.len() && i < b.len() && a[i] == b[i]
        invariant
            i <= a@.len(),
            i <= b@.len(),
            a@.subrange(0, i as int) == b@.subrange(0, i as int),
            lex_lt(a@, b@) == lex_lt(a@.subrange(i as int, a@.len() as int), b@.subrange(i as int, b@.len() as int)),
        decreases a@.len() - i,
    {
        proof {
            let x = a@.subrange(i as int, a@.len() as int);
            let y = b@.subrange(i as int, b@.len() as int);
            assert(x.drop_first() =~= a@.subrange(i + 1, a@.len() as int));
            assert(y.drop_first() =~= b@.subrange(i + 1, b@.len() as int));
            assert(x[0] == a@[i as int]);
            assert(y[0] == b@[i as int]);
            assert(a@.subrange(0, i + 1) =~= a@.subrange(0, i as int).push(a@[i as int]));
            assert(b@.subrange(0, i + 1) =~= b@.subrange(0, i as int).push(b@[i as int]));
        }
        i = i + 1;
    }
    proof {
        let x = a@.subrange(i as int, a@.len() as int);
        let y = b@.subrange(i as int, b@.len() as int);
        if x.len() > 0 {
            assert(x[0] == a@[i as int]);
        }
        if y.len() > 0 {
            assert(y[0] == b@[i as int]);
        }
    }
    if i == a.len() {
        i < b.len()
    } else if i == b.len() {
        false
    } else {
        a[i] < b[i]
    }
}

/// The first `MAX_DETAIL_VALUE_CHARS` chars of a value.
pub open spec fn bounded_value(v: Seq<char>) -> Seq<char> {
    if v.len() <= MAX_DETAIL_VALUE_CHARS {
        v
    } else {
        v.subrange(0, MAX_DETAIL_VALUE_CHARS as int)
    }
}

/// The details as a map from name to value.
pub open spec fn details_map(s: Seq<(String, String)>) -> Map<Seq<char>, Seq<char>>
    decreases s.len(),
{
    if s.len() == 0 {
        Map::empty()
    } else {
        details_map(s.drop_last()).insert(s.last().0@, s.last().1@)
    }
}

/// Names sorted strictly: each comes before the next, so none repeats.
pub open spec fn sorted_names(s: Seq<(String, String)>) -> bool {
    forall|i: int, j: int| 0 <= i < j < s.len() ==> lex_lt(#[trigger] s[i].0@, #[trigger] s[j].0@)
}

/// The details that name-value pairs make, read in order: a later value of
/// a name replaces an earlier one, and each value keeps at most
/// `MAX_DETAIL_VALUE_CHARS` chars.
pub open spec fn spec_details(values: Seq<(Seq<char>, Seq<char>)>) -> Map<Seq<char>, Seq<char>>
    decreases values.len(),
{
    if values.len() == 0 {
        Map::empty()
    } else {
        spec_details(values.drop_last()).insert(values.last().0, bounded_value(values.last().1))
    }
}

/// The map of sorted details, entry by entry.
proof fn lemma_sorted_map(s: Seq<(String, String)>)
    requires
        sorted_names(s),
    ensures
        forall|k: Seq<char>| #[trigger] details_map(s).contains_key(k) <==> exists|i: int|
            0 <= i < s.len() && (#[trigger] s[i]).0@ == k,
        forall|i: int| 0 <= i < s.len() ==> #[trigger] details_map(s)[s[i].0@] == s[i].1@,
    decreases s.len(),
{
    if s.len() > 0 {
        let p = s.drop_last();
        assert(sorted_names(p)) by {
            assert forall|i: int, j: int| 0 <= i < j < p.len() implies lex_lt(
                #[trigger] p[i].0@,
                #[trigger] p[j].0@,
            ) by {
                assert(p[i] == s[i] && p[j] == s[j]);
            }
        }
        lemma_sorted_map(p);
        let last = s[s.len() - 1];
        assert(s.last() == last);
        assert forall|k: Seq<char>| #[trigger] details_map(s).contains_key(k) <==> exists|i: int|
            0 <= i < s.len() && (#[trigger] s[i]).0@ == k by {
            if details_map(s).contains_key(k) {
                if k == last.0@ {
                    assert(s[s.len() - 1].0@ == k);
                } else {
                    assert(details_map(p).contains_key(k));
                    let i = choose|i: int| 0 <= i < p.len() && (#[trigger] p[i]).0@ == k;
                    assert(s[i] == p[i]);
                }
            }
            if exists|i: int| 0 <= i < s.len() && (#[trigger] s[i]).0@ == k {
                let i = choose|i: int| 0 <= i < s.len() && (#[trigger] s[i]).0@ == k;
                if i < s.len() - 1 {
                    assert(p[i] == s[i]);
                    assert(details_map(p).contains_key(k));
                }
            }
        }
        assert forall|i: int| 0 <= i < s.len() implies #[trigger] details_map(s)[s[i].0@]
            == s[i].1@ by {
            if i < s.len() - 1 {
                assert(p[i] == s[i]);
                assert(details_map(p)[p[i].0@] == p[i].1@);
                assert(lex_lt(s[i].0@, s[s.len() - 1].0@));
                lemma_lex_irreflexive(s[i].0@);
                assert(s[i].0@ != last.0@);
            }
        }
    }
}

/// Puts a value under a name in sorted details, replacing the value the
/// name had.
fn put_detail(details: &mut Vec<(String, String)>, name: String, value: String)
    requires
        sorted_names(old(details)@),
    ensures
        sorted_names(final(details)@),
        forall|k: Seq<char>| #[trigger] details_map(final(details)@).contains_key(k) <==> (
        details_map(old(details)@).contains_key(k) || k == name@),
        forall|k: Seq<char>|
            #[trigger] details_map(final(details)@).contains_key(k) ==> details_map(
                final(details)@,
            )[k] == if k == name@ {
                value@
            } else {
                details_map(old(details)@)[k]
            },
{
    let ghost start = details@;
    proof {
        lemma_sorted_map(start);
    }
    let key = chars_of(name.as_str());
    let mut p: usize = 0;
    while p < details.len() && text_less(&chars_of(details[p].0.as_str()), &key)
        invariant
            p <= details@.len(),
            details@ == start,
            key@ == name@,
            forall|i: int| 0 <= i < p ==> lex_lt((#[trigger] details@[i]).0@, name@),
        decreases details@.len() - p,
    {
        p = p + 1;
    }
    proof {
        if p < start.len() {
            lemma_lex_total(start[p as int].0@, name@);
        }
    }
    if p < details.len() && crate::text::str_equal(details[p].0.as_str(), name.as_str()) {
        details.set(p, (name, value));
        proof {
            let s = details@;
            assert forall|i: int, j: int| 0 <= i < j < s.len() implies lex_lt(
                #[trigger] s[i].0@,
                #[trigger] s[j].0@,
            ) by {
                assert(s[i].0@ == start[i].0@);
                assert(s[j].0@ == start[j].0@);
            }
            lemma_sorted_map(s);
            assert forall|k: Seq<char>| #[trigger] details_map(s).contains_key(k) <==> (details_map(
                start,
            ).contains_key(k) || k == name@) by {
                if exists|i: int| 0 <= i < start.len() && (#[trigger] start[i]).0@ == k {
                    let i = choose|i: int| 0 <= i < start.len() && (#[trigger] start[i]).0@ == k;
                    assert(s[i].0@ == start[i].0@);
                }
                if exists|i: int| 0 <= i < s.len() && (#[trigger] s[i]).0@ == k {
                    let i = choose|i: int| 0 <= i < s.len() && (#[trigger] s[i]).0@ == k;
                    assert(s[i].0@ == start[i].0@);
                }
                assert(s[p as int].0@ == name@);
            }
            assert forall|k: Seq<char>| #[trigger] details_map(s).contains_key(k) implies details_map(
                s,
            )[k] == if k == name@ {
                value@
            } else {
                details_map(start)[k]
            } by {
                let i = choose|i: int| 0 <= i < s.len() && (#[trigger] s[i]).0@ == k;
                assert(details_map(s)[s[i].0@] == s[i].1@);
                if i != p {
                    assert(s[i] == start[i]);
                    assert(k != name@) by {
                        if i < p {
                            lemma_lex_irreflexive(start[i].0@);
                        } else {
                            assert(lex_lt(start[p as int].0@, start[i].0@));
                            lemma_lex_irreflexive(start[i].0@);
                        }
                    }
                }
            }
        }
    } else {
        details.insert(p, (name, value));
        proof {
            let s = details@;
            assert forall|i: int, j: int| 0 <= i < j < s.len() implies lex_lt(
                #[trigger] s[i].0@,
                #[trigger] s[j].0@,
            ) by {
                if j < p {
                    assert(s[i] == start[i] && s[j] == start[j]);
                } else if j == p {
                    assert(s[i] == start[i]);
                } else if i == p {
                    assert(s[j] == start[j - 1]);
                    assert(lex_lt(name@, start[p as int].0@));
                    if j - 1 > p {
                        lemma_lex_transitive(name@, start[p as int].0@, start[j - 1].0@);
                    }
                } else if i < p {
                    assert(s[i] == start[i] && s[j] == start[j - 1]);
                    assert(lex_lt(start[i].0@, name@));
                    assert(lex_lt(name@, start[p as int].0@));
                    lemma_lex_transitive(start[i].0@, name@, start[p as int].0@);
                    if j - 1 > p {
                        lemma_lex_transitive(start[i].0@, start[p as int].0@, start[j - 1].0@);
                    }
                } else {
                    assert(s[i] == start[i - 1] && s[j] == start[j - 1]);
                }
            }
            lemma_sorted_map(s);
            assert forall|k: Seq<char>| #[trigger] details_map(s).contains_key(k) <==> (details_map(
                start,
            ).contains_key(k) || k == name@) by {
                if exists|i: int| 0 <= i < start.len() && (#[trigger] start[i]).0@ == k {
                    let i = choose|i: int| 0 <= i < start.len() && (#[trigger] start[i]).0@ == k;
                    if i < p {
                        assert(s[i] == start[i]);
                    } else {
                        assert(s[i + 1] == start[i]);
                    }
                }
                if exists|i: int| 0 <= i < s.len() && (#[trigger] s[i]).0@ == k {
                    let i = choose|i: int| 0 <= i < s.len() && (#[trigger] s[i]).0@ == k;
                    if i < p {
                        assert(s[i] == start[i]);
                    } else if i > p {
                        assert(s[i] == start[i - 1]);
                    }
                }
                assert(s[p as int].0@ == name@);
            }
            assert forall|k: Seq<char>| #[trigger] details_map(s).contains_key(k) implies details_map(
                s,
            )[k] == if k == name@ {
                value@
            } else {
                details_map(start)[k]
            } by {
                let i = choose|i: int| 0 <= i < s.len() && (#[trigger] s[i]).0@ == k;
                assert(details_map(s)[s[i].0@] == s[i].1@);
                if i < p {
                    assert(s[i] == start[i]);
                    lemma_lex_total(start[i].0@, name@);
                } else if i > p {
                    assert(s[i] == start[i - 1]);
                    assert(s[p as int].0@ == name@);
                    lemma_lex_total(s[p as int].0@, s[i].0@);
                }
            }
        }
    }
}

/// Up to `MAX_DETAIL_VALUE_CHARS` chars of a value.
fn bounded(value: &str) -> (r: String)
    ensures
        r@ == bounded_value(value@),
{
    let v = chars_of(value);
    if v.len() <= MAX_DETAIL_VALUE_CHARS {
        string_of(&v)
    } else {
        string_of_range(&v, 0, MAX_DETAIL_VALUE_CHARS)
    }
}

pub open spec fn pairs_view(values: Seq<(&str, String)>) -> Seq<(Seq<char>, Seq<char>)> {
    values.map_values(|p: (&str, String)| (p.0@, p.1@))
}

/// The details of an entry from name-value pairs: sorted by name, a later
/// value of a name replacing an earlier one, each value cut to
/// `MAX_DETAIL_VALUE_CHARS` chars.
pub fn diagnostic_details(values: Vec<(&str, String)>) -> (r: DiagnosticDetails)
    ensures
        sorted_names(r@),
        details_map(r@) == spec_details(pairs_view(values@)),
{
    let mut r: Vec<(String, String)> = Vec::new();
    let mut i: usize = 0;
    proof {
        assert(pairs_view(values@).subrange(0, 0) =~= Seq::<(Seq<char>, Seq<char>)>::empty());
        assert(details_map(r@) =~= Map::<Seq<char>, Seq<char>>::empty());
    }
    while i < values.len()
        invariant
            i <= values@.len(),
            sorted_names(r@),
            details_map(r@) == spec_details(pairs_view(values@).subrange(0, i as int)),
        decreases values@.len() - i,
    {
        let name = values[i].0.to_owned();
        let value = bounded(values[i].1.as_str());
        let ghost before = r@;
        put_detail(&mut r, name, value);
        proof {
            let pv = pairs_view(values@);
            assert(pv.subrange(0, i + 1).drop_last() =~= pv.subrange(0, i as int));
            assert(pv[i as int] == (values@[i as int].0@, values@[i as int].1@));
            assert(details_map(r@) =~= details_map(before).insert(
                values@[i as int].0@,
                bounded_value(values@[i as int].1@),
            ));
        }
        i = i + 1;
    }
    proof {
        assert(pairs_view(values@).subrange(0, values@.len() as int) =~= pairs_view(values@));
    }
    r
}

/// The sum of the detail values' lengths in bytes, each counted up to
/// `MAX_DETAIL_VALUE_CHARS`.
pub open spec fn details_size(d: Seq<(String, String)>) -> int
    decreases d.len(),
{
    if d.len() == 0 {
        0
    } else {
        let n = vstd::utf8::encode_utf8(d.last().1@).len() as usize as int;
        details_size(d.drop_last()) + if n < MAX_DETAIL_VALUE_CHARS {
            n
        } else {
            MAX_DETAIL_VALUE_CHARS as int
        }
    }
}

pub open spec fn byte_len(s: Seq<char>) -> int {
    vstd::utf8::encode_utf8(s).len() as usize as int
}

/// How much of the log's size budget an entry takes: the bytes of its
/// message, scope and event, and of its detail values, each value counted
/// up to `MAX_DETAIL_VALUE_CHARS`.
pub open spec fn spec_entry_size(e: DiagnosticEntry) -> int {
    byte_len(e.message@) + byte_len(e.scope@) + byte_len(e.event@) + details_size(e.details@)
}

proof fn lemma_details_size_bound(d: Seq<(String, String)>)
    ensures
        0 <= details_size(d) <= d.len() * MAX_DETAIL_VALUE_CHARS,
    decreases d.len(),
{
    if d.len() > 0 {
        lemma_details_size_bound(d.drop_last());
    }
}

/// The size budget an entry takes.
pub fn entry_message_size(entry: &DiagnosticEntry) -> (r: u128)
    ensures
        r == spec_entry_size(*entry),
        r <= ENTRY_SIZE_BOUND,
{
    let mut total: u128 = entry.message.as_str().len() as u128 + entry.scope.as_str().len() as u128
        + entry.event.as_str().len() as u128;
    let mut i: usize = 0;
    let count = entry.details.len();
    proof {
        assert(entry.details@.subrange(0, 0) =~= Seq::<(String, String)>::empty());
    }
    while i < entry.details.len()
        invariant
            i <= entry.details@.len(),
            total == byte_len(entry.message@) + byte_len(entry.scope@) + byte_len(entry.event@)
                + details_size(entry.details@.subrange(0, i as int)),
            total <= 3 * (usize::MAX as int) + i * MAX_DETAIL_VALUE_CHARS,
            entry.details@.len() <= usize::MAX,
        decreases entry.details@.len() - i,
    {
        let n = entry.details[i].1.as_str().len();
        let part = if n < MAX_DETAIL_VALUE_CHARS {
            n
        } else {
            MAX_DETAIL_VALUE_CHARS
        };
        proof {
            let d = entry.details@.subrange(0, i + 1);
            assert(d.drop_last() =~= entry.details@.subrange(0, i as int));
            lemma_details_size_bound(entry.details@.subrange(0, i as int));
            assert(i * MAX_DETAIL_VALUE_CHARS <= usize::MAX * 240) by (nonlinear_arith)
                requires
                    i <= usize::MAX,
            ;
        }
        total = total + part as u128;
        i = i + 1;
    }
    proof {
        assert(entry.details@.subrange(0, entry.details@.len() as int) =~= entry.details@);
        assert(total <= ENTRY_SIZE_BOUND) by (nonlinear_arith)
            requires
                total <= 3 * (usize::MAX as int) + i * 240,
                i <= usize::MAX,
                usize::MAX <= 0xffff_ffff_ffff_ffff,
        ;
    }
    total
}

/// A bound on the size budget of any entry.
pub const ENTRY_SIZE_BOUND: u128 = 0x100_0000_0000_0000_0000;

/// How many of the newest entries the log keeps when its encoding is too
/// large: entries are taken newest first while their sizes add up to at
/// most `MAX_DIAGNOSTIC_BYTES`, and the newest one always stays.
pub open spec fn kept_count(sizes: Seq<int>) -> nat
    decreases sizes.len(),
{
    kept_from(sizes, 0, 0)
}

pub open spec fn kept_from(sizes: Seq<int>, i: int, total: int) -> nat
    decreases sizes.len() - i,
{
    if i < 0 || i >= sizes.len() {
        if i < 0 { 0 } else { i as nat }
    } else if total + sizes[i] > MAX_DIAGNOSTIC_BYTES && i > 0 {
        i as nat
    } else {
        kept_from(sizes, i + 1, total + sizes[i])
    }
}

pub open spec fn entry_sizes(entries: Seq<DiagnosticEntry>) -> Seq<int> {
    entries.map_values(|e: DiagnosticEntry| spec_entry_size(e))
}

/// How many of the newest entries stay when the log is pruned.
pub fn entries_to_keep(entries: &Vec<DiagnosticEntry>) -> (r: usize)
    ensures
        r == kept_count(entry_sizes(entries@)),
        entries@.len() > 0 ==> 1 <= r <= entries@.len(),
{
    let ghost sizes = entry_sizes(entries@);
    let mut total: u128 = 0;
    let mut i: usize = 0;
    while i < entries.len()
        invariant
            i <= entries@.len(),
            sizes == entry_sizes(entries@),
            total <= ENTRY_SIZE_BOUND,
            i == 0 ==> total == 0,
            kept_count(sizes) == kept_from(sizes, i as int, total as int),
        decreases entries@.len() - i,
    {
        let size = entry_message_size(&entries[i]);
        proof {
            assert(sizes[i as int] == size);
        }
        if total + size > MAX_DIAGNOSTIC_BYTES as u128 && i > 0 {
            return i;
        }
        total = total + size;
        i = i + 1;
    }
    i
}

/// The log keeps its newest entries first: a new entry goes to the front,
/// and only the newest `MAX_DIAGNOSTIC_ENTRIES` stay.
pub open spec fn spec_recorded(
    entries: Seq<DiagnosticEntry>,
    entry: DiagnosticEntry,
) -> Seq<DiagnosticEntry> {
    let s = seq![entry] + entries;
    if s.len() <= MAX_DIAGNOSTIC_ENTRIES {
        s
    } else {
        s.subrange(0, MAX_DIAGNOSTIC_ENTRIES as int)
    }
}

/// Adds an entry to the front of the log and drops the oldest beyond the limit.
pub fn insert_entry(entries: &mut Vec<DiagnosticEntry>, entry: DiagnosticEntry)
    ensures
        final(entries)@ == spec_recorded(old(entries)@, entry),
{
    entries.insert(0, entry);
    if entries.len() > MAX_DIAGNOSTIC_ENTRIES {
        entries.truncate(MAX_DIAGNOSTIC_ENTRIES);
    }
    proof {
        let s = seq![entry] + old(entries)@;
        assert(old(entries)@.insert(0, entry) =~= s);
    }
}

/// Records an entry made at `now`, with a fresh random identifier.
pub fn record(
    entries: &mut Vec<DiagnosticEntry>,
    level: DiagnosticLevel,
    scope: &str,
    event: &str,
    message: String,
    details: DiagnosticDetails,
    now: i64,
)
    ensures
        final(entries)@.len() >= 1,
        ({
            let e = final(entries)@[0];
            &&& e.id@.len() == 36
            &&& e.at == now
            &&& e.level == level
            &&& e.scope@ == scope@
            &&& e.event@ == event@
            &&& e.message == message
            &&& e.details == details
            &&& final(entries)@ == spec_recorded(old(entries)@, e)
        }),
{
    let entry = DiagnosticEntry {
        id: new_uuid_text(),
        at: now,
        level,
        scope: scope.to_owned(),
        event: event.to_owned(),
        message,
        details,
    };
    insert_entry(entries, entry);
}

/// Keeps only the newest `MAX_DIAGNOSTIC_ENTRIES` entries of a stored log.
pub fn keep_newest(entries: &mut Vec<DiagnosticEntry>)
    ensures
        final(entries)@ == if old(entries)@.len() <= MAX_DIAGNOSTIC_ENTRIES {
            old(entries)@
        } else {
            old(entries)@.subrange(0, MAX_DIAGNOSTIC_ENTRIES as int)
        },
{
    if entries.len() > MAX_DIAGNOSTIC_ENTRIES {
        entries.truncate(MAX_DIAGNOSTIC_ENTRIES);
    }
}

/// How long to wait before the next write of the log: the first delay after
/// a success, twice the last one after a failure, up to the longest delay.
pub fn next_persist_delay(previous_ms: u64, failed: bool) -> (r: u64)
    ensures
        !failed ==> r == PERSIST_DELAY_MS,
        failed ==> r == if 2 * previous_ms < MAX_PERSIST_DELAY_MS {
            2 * previous_ms
        } else {
            MAX_PERSIST_DELAY_MS as int
        },
{
    if !failed {
        PERSIST_DELAY_MS
    } else if previous_ms < MAX_PERSIST_DELAY_MS / 2 {
        2 * previous_ms
    } else {
        MAX_PERSIST_DELAY_MS
    }
}

/// A URL as the log shows it: scheme, host and path, without user, port,
/// query or fragment; a text that is no URL is shown as such.
pub open spec fn spec_safe_url(parts: Option<(Seq<char>, Seq<char>, Seq<char>)>) -> Seq<char> {
    match parts {
        Some((scheme, host, path)) => scheme + "://"@ + host + path,
        None => "URL no válida"@,
    }
}

/// The text the log shows for a URL, from what the URL parser found in it.
pub fn safe_url_from_parts(parts: Option<(String, String, String)>) -> (r: String)
    ensures
        r@ == spec_safe_url(
            match parts {
                Some(t) => Some((t.0@, t.1@, t.2@)),
                None => None,
            },
        ),
{
    match parts {
        Some((scheme, host, path)) => {
            let mut r = scheme;
            push_str(&mut r, "://");
            push_str(&mut r, host.as_str());
            push_str(&mut r, path.as_str());
            r
        },
        None => "URL no válida".to_owned(),
    }
}

/// The text the log shows for a URL.
pub fn safe_url(value: &str) -> (r: String)
    ensures
        r@ == spec_safe_url(spec_url_parts(value@)),
{
    safe_url_from_parts(parse_url(value))
}

/// The log never holds more than `MAX_DIAGNOSTIC_ENTRIES` entries; a new
/// entry is always the first one, and the entries before it follow in
/// their order.
pub proof fn law_recorded_log_is_bounded(entries: Seq<DiagnosticEntry>, entry: DiagnosticEntry)
    ensures
        spec_recorded(entries, entry).len() <= MAX_DIAGNOSTIC_ENTRIES,
        spec_recorded(entries, entry)[0] == entry,
        forall|i: int|
            1 <= i < spec_recorded(entries, entry).len() ==> #[trigger] spec_recorded(entries, entry)[i]
                == entries[i - 1],
        entries.len() < MAX_DIAGNOSTIC_ENTRIES ==> spec_recorded(entries, entry).len()
            == entries.len() + 1,
{
}

/// No detail value holds more than `MAX_DETAIL_VALUE_CHARS` chars, and every
/// name given has a value.
pub proof fn law_detail_values_are_bounded(values: Seq<(Seq<char>, Seq<char>)>)
    ensures
        forall|k: Seq<char>| #[trigger] spec_details(values).contains_key(k) ==> spec_details(
            values,
        )[k].len() <= MAX_DETAIL_VALUE_CHARS,
        forall|i: int| 0 <= i < values.len() ==> spec_details(values).contains_key(#[trigger] values[i].0),
    decreases values.len(),
{
    if values.len() > 0 {
        let p = values.drop_last();
        law_detail_values_are_bounded(p);
        assert forall|k: Seq<char>| #[trigger] spec_details(values).contains_key(k) implies spec_details(
            values,
        )[k].len() <= MAX_DETAIL_VALUE_CHARS by {
            if k != values.last().0 {
                assert(spec_details(p).contains_key(k));
            }
        }
        assert forall|i: int| 0 <= i < values.len() implies spec_details(values).contains_key(
            #[trigger] values[i].0,
        ) by {
            if i < values.len() - 1 {
                assert(values[i] == p[i]);
            }
        }
    }
}

} // verus!
