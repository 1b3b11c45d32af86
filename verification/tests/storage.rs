use fluxor::storage::{
    finalization_marker, has_segment_partials, partial_file_paths, partial_path,
    reservation_path, segment_metadata_path, segment_path, SEGMENT_SLOTS,
};

fn under(directory: &str, name: &str) -> String {
    std::path::Path::new(directory)
        .join(name)
        .to_string_lossy()
        .into_owned()
}

#[test]
fn hidden_work_files_sit_beside_the_destination() {
    let directory = "downloads";
    assert_eq!(partial_path(directory, "a.zip"), under(directory, ".a.zip.fluxor.part"));
    assert_eq!(segment_path(directory, "a.zip", 12), under(directory, ".a.zip.fluxor.part.12"));
    assert_eq!(
        segment_metadata_path(directory, "a.zip"),
        under(directory, ".a.zip.fluxor.segments.json")
    );
    assert_eq!(reservation_path(directory, "a.zip"), under(directory, ".a.zip.fluxor.lock"));
    assert_eq!(
        finalization_marker(directory, "a.zip"),
        under(directory, ".a.zip.fluxor.finalizing")
    );
}

#[test]
fn every_partial_file_is_listed_for_removal() {
    let paths = partial_file_paths("d", "f.bin");
    assert_eq!(paths.len(), SEGMENT_SLOTS + 2);
    assert_eq!(paths[0], under("d", ".f.bin.fluxor.part"));
    assert_eq!(paths[1], under("d", ".f.bin.fluxor.part.0"));
    assert_eq!(paths[32], under("d", ".f.bin.fluxor.part.31"));
    assert_eq!(paths[33], under("d", ".f.bin.fluxor.segments.json"));
}

#[test]
fn segment_partials_count_only_when_they_hold_bytes() {
    assert!(!has_segment_partials(&[0, 0, 0]));
    assert!(has_segment_partials(&[0, 7]));
    assert!(!has_segment_partials(&[]));
}
