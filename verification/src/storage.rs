//! Where a transfer keeps its work on disk: the hidden files beside the
//! destination that hold a partial download, its segments, their metadata,
//! the reservation of the destination name and the marker of an unfinished
//! copy; and the check that a finished transfer has every byte.
use vstd::prelude::*;
use crate::engine::EngineError;
use crate::model::TransferSize;
use crate::names::no_separators;
use crate::outside::{joined, path_join, single_component, verbatim_path};
use crate::text::{decimal_text, is_digit, push_decimal, push_str};

verus! {

/// The hidden name `.{file_name}.fluxor{suffix}`.
pub open spec fn hidden_name(file_name: Seq<char>, suffix: Seq<char>) -> Seq<char> {
    "."@ + file_name + ".fluxor"@ + suffix
}

/// The single-stream partial file.
pub open spec fn spec_partial_name(file_name: Seq<char>) -> Seq<char> {
    hidden_name(file_name, ".part"@)
}

/// The partial file of the segment with this index.
pub open spec fn spec_segment_name(file_name: Seq<char>, index: nat) -> Seq<char> {
    hidden_name(file_name, ".part."@ + decimal_text(index))
}

/// The metadata that ties segment partials to their source.
pub open spec fn spec_metadata_name(file_name: Seq<char>) -> Seq<char> {
    hidden_name(file_name, ".segments.json"@)
}

/// The file that reserves a destination name for one queue item.
pub open spec fn spec_reservation_name(file_name: Seq<char>) -> Seq<char> {
    hidden_name(file_name, ".lock"@)
}

/// The marker that stands while a partial is copied to its destination.
pub open spec fn spec_marker_name(file_name: Seq<char>) -> Seq<char> {
    hidden_name(file_name, ".finalizing"@)
}

/// The decimal text of a number holds digits only.
pub proof fn lemma_decimal_digits(n: nat)
    ensures
        forall|i: int| 0 <= i < decimal_text(n).len() ==> is_digit(#[trigger] decimal_text(n)[i]),
    decreases n,
{
    let k = n % 10;
    let c = ((('0' as u32) + k) as char);
    assert(c as u32 == 48 + k);
    assert(is_digit(c));
    if n >= 10 {
        lemma_decimal_digits(n / 10);
        let d = decimal_text(n);
        assert(d == decimal_text(n / 10).push(c));
        assert forall|i: int| 0 <= i < d.len() implies is_digit(#[trigger] d[i]) by {
            if i < d.len() - 1 {
                assert(d[i] == decimal_text(n / 10)[i]);
            }
        }
    } else {
        assert(decimal_text(n) == seq![c]);
    }
}

/// A hidden name made of parts without separators is one plain path component.
pub proof fn lemma_hidden_single(file_name: Seq<char>, suffix: Seq<char>)
    requires
        no_separators(file_name),
        no_separators(suffix),
    ensures
        single_component(hidden_name(file_name, suffix)),
{
    reveal_strlit(".");
    reveal_strlit(".fluxor");
    reveal_strlit("..");
    let h = hidden_name(file_name, suffix);
    let a = "."@ + file_name;
    let b = a + ".fluxor"@;
    assert(h.len() >= 8);
    assert forall|i: int| 0 <= i < h.len() implies h[i] != '/' && h[i] != '\\' && h[i] != ':' by {
        if i < a.len() {
            if i >= 1 {
                assert(h[i] == file_name[i - 1]);
            }
        } else if i < b.len() {
            assert(h[i] == ".fluxor"@[i - a.len()]);
        } else {
            assert(h[i] == suffix[i - b.len()]);
        }
    }
}

/// Builds `.{file_name}.fluxor{suffix}`.
fn hidden_file_name(file_name: &str, suffix: &str) -> (r: String)
    ensures
        r@ == hidden_name(file_name@, suffix@),
{
    let mut r = String::new();
    push_str(&mut r, ".");
    push_str(&mut r, file_name);
    push_str(&mut r, ".fluxor");
    push_str(&mut r, suffix);
    r
}

/// The path of the single-stream partial file of `file_name` in `directory`.
pub fn partial_path(directory: &str, file_name: &str) -> (r: String)
    ensures
        no_separators(file_name@) && !verbatim_path(directory@) ==> joined(directory@, spec_partial_name(file_name@), r@),
{
    let name = hidden_file_name(file_name, ".part");
    proof {
        reveal_strlit(".part");
        if no_separators(file_name@) {
            lemma_hidden_single(file_name@, ".part"@);
        }
    }
    path_join(directory, name.as_str())
}

/// The path of the partial file of segment `index`.
pub fn segment_path(directory: &str, file_name: &str, index: usize) -> (r: String)
    ensures
        no_separators(file_name@) && !verbatim_path(directory@) ==> joined(
            directory@,
            spec_segment_name(file_name@, index as nat),
            r@,
        ),
{
    let mut suffix = String::new();
    push_str(&mut suffix, ".part.");
    push_decimal(&mut suffix, index as u64);
    let name = hidden_file_name(file_name, suffix.as_str());
    proof {
        reveal_strlit(".part.");
        lemma_decimal_digits(index as nat);
        let d = decimal_text(index as nat);
        let s = ".part."@ + d;
        assert forall|i: int| 0 <= i < s.len() implies s[i] != '/' && s[i] != '\\' && s[i] != ':' by {
            if i >= 6 {
                assert(s[i] == d[i - 6]);
                assert(is_digit(d[i - 6]));
            }
        }
        if no_separators(file_name@) {
            lemma_hidden_single(file_name@, s);
        }
    }
    path_join(directory, name.as_str())
}

/// The path of the segment metadata file.
pub fn segment_metadata_path(directory: &str, file_name: &str) -> (r: String)
    ensures
        no_separators(file_name@) && !verbatim_path(directory@) ==> joined(directory@, spec_metadata_name(file_name@), r@),
{
    let name = hidden_file_name(file_name, ".segments.json");
    proof {
        reveal_strlit(".segments.json");
        if no_separators(file_name@) {
            lemma_hidden_single(file_name@, ".segments.json"@);
        }
    }
    path_join(directory, name.as_str())
}

/// The path of the file that reserves `file_name` in `directory`.
pub fn reservation_path(directory: &str, file_name: &str) -> (r: String)
    ensures
        no_separators(file_name@) && !verbatim_path(directory@) ==> joined(directory@, spec_reservation_name(file_name@), r@),
{
    let name = hidden_file_name(file_name, ".lock");
    proof {
        reveal_strlit(".lock");
        if no_separators(file_name@) {
            lemma_hidden_single(file_name@, ".lock"@);
        }
    }
    path_join(directory, name.as_str())
}

/// The path of the marker that stands beside the destination `file_name`
/// in `directory` while a partial is copied there.
pub fn finalization_marker(directory: &str, file_name: &str) -> (r: String)
    ensures
        no_separators(file_name@) && !verbatim_path(directory@) ==> joined(directory@, spec_marker_name(file_name@), r@),
{
    let name = hidden_file_name(file_name, ".finalizing");
    proof {
        reveal_strlit(".finalizing");
        if no_separators(file_name@) {
            lemma_hidden_single(file_name@, ".finalizing"@);
        }
    }
    path_join(directory, name.as_str())
}

/// The number of segment partial files that a reset removes: one for each
/// thread that a download may use.
pub const SEGMENT_SLOTS: usize = 32;

/// Every partial file that a download of `file_name` may leave in
/// `directory`: the single-stream partial, the partial of each segment
/// slot, then the segment metadata.
pub fn partial_file_paths(directory: &str, file_name: &str) -> (r: Vec<String>)
    ensures
        r@.len() == SEGMENT_SLOTS + 2,
        no_separators(file_name@) && !verbatim_path(directory@) ==> {
            &&& joined(directory@, spec_partial_name(file_name@), r@[0]@)
            &&& forall|i: int|
                0 <= i < SEGMENT_SLOTS ==> joined(
                    directory@,
                    spec_segment_name(file_name@, i as nat),
                    (#[trigger] r@[i + 1])@,
                )
            &&& joined(directory@, spec_metadata_name(file_name@), r@[SEGMENT_SLOTS + 1]@)
        },
{
    let mut r: Vec<String> = Vec::new();
    r.push(partial_path(directory, file_name));
    let mut i: usize = 0;
    while i < SEGMENT_SLOTS
        invariant
            i <= SEGMENT_SLOTS,
            r@.len() == i + 1,
            no_separators(file_name@) && !verbatim_path(directory@) ==> joined(directory@, spec_partial_name(file_name@), r@[0]@),
            no_separators(file_name@) && !verbatim_path(directory@) ==> forall|j: int|
                0 <= j < i ==> joined(
                    directory@,
                    spec_segment_name(file_name@, j as nat),
                    (#[trigger] r@[j + 1])@,
                ),
        decreases SEGMENT_SLOTS - i,
    {
        let p = segment_path(directory, file_name, i);
        r.push(p);
        i = i + 1;
    }
    r.push(segment_metadata_path(directory, file_name));
    r
}

/// Whether any segment partial already holds bytes, given the length of
/// each segment slot's file (zero where there is none).
pub fn has_segment_partials(lengths: &[u64]) -> (r: bool)
    ensures
        r == exists|i: int| 0 <= i < lengths@.len() && #[trigger] lengths@[i] > 0,
{
    let mut i: usize = 0;
    while i < lengths.len()
        invariant
            i <= lengths@.len(),
            forall|j: int| 0 <= j < i ==> #[trigger] lengths@[j] == 0,
        decreases lengths@.len() - i,
    {
        if lengths[i] > 0 {
            return true;
        }
        i = i + 1;
    }
    false
}

/// A finished transfer must hold exactly the announced size, when a size
/// was announced.
pub fn verify_complete(downloaded: u64, size: &TransferSize) -> (r: Result<(), EngineError>)
    ensures
        r is Ok <==> !(*size matches TransferSize::Known { total_bytes } && downloaded != total_bytes),
        r is Err ==> r matches Err(EngineError::Request),
{
    match size {
        TransferSize::Known { total_bytes } => {
            if downloaded != *total_bytes {
                return Err(EngineError::Request);
            }
            Ok(())
        },
        TransferSize::Unknown => Ok(()),
    }
}

} // verus!
