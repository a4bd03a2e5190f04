use std::io::Cursor;
use cc_switch::services::webdav_sync::archive::{
    copy_step, entry_order, extract_step, pack_step, restore_finish, restore_prepare, CopyStep, ExtractStep,
    PackStep, RestoreAction,
    check_zip_entry_count, copy_bytes_with_total_limit, copy_entry_with_total_limit, decimal_text, io_context_localized, is_hidden_entry,
    too_large_error, zip_directory_name, zip_entry_name, ArchiveError, VisitedDirs, MAX_ZIP_ENTRIES,
    MAX_ZIP_EXTRACT_BYTES,
};

#[test]
fn copy_entry_with_total_limit_rejects_oversized_stream_before_write() {
    let mut reader = Cursor::new(vec![1u8; 16]);
    let mut writer = Vec::new();
    let mut total_bytes = 0u64;

    let err = copy_entry_with_total_limit(
        &mut reader,
        &mut writer,
        &mut total_bytes,
        8,
        "skills-extracted/file.bin",
    )
    .expect_err("stream larger than limit should be rejected");
    assert!(err.message().contains("超过"), "unexpected error: {err:?}");
    assert_eq!(
        writer.len(),
        0,
        "should not write when the first chunk exceeds limit"
    );
}

#[test]
fn copy_within_limit_writes_everything_and_counts_across_entries() {
    let data: Vec<u8> = (0..40000u32).map(|i| (i % 251) as u8).collect();
    let mut reader = Cursor::new(data.clone());
    let mut writer = Vec::new();
    let mut total_bytes = 100u64;
    let written = copy_entry_with_total_limit(&mut reader, &mut writer, &mut total_bytes, 50000, "f").unwrap();
    assert_eq!(written, 40000);
    assert_eq!(total_bytes, 40100);
    assert_eq!(writer, data);

    // a second entry that would pass the limit stops after the chunks that fit
    let mut reader = Cursor::new(vec![7u8; 20000]);
    let mut writer = Vec::new();
    let err = copy_entry_with_total_limit(&mut reader, &mut writer, &mut total_bytes, 50000, "g").unwrap_err();
    assert!(matches!(err, ArchiveError::Localized { .. }));
    assert!(total_bytes <= 50000);
    assert_eq!(writer.len() as u64, total_bytes - 40100);
}

#[test]
fn too_large_error_names_the_limit_in_megabytes() {
    match too_large_error(MAX_ZIP_EXTRACT_BYTES) {
        ArchiveError::Localized { key, zh, en } => {
            assert_eq!(key, "webdav.sync.skills_zip_too_large");
            assert_eq!(zh, "skills.zip 解压后体积超过上限（512 MB）");
            assert_eq!(en, "skills.zip extracted size exceeds limit (512 MB)");
        }
        other => panic!("unexpected {other:?}"),
    }
}

#[test]
fn entry_count_limit() {
    assert!(check_zip_entry_count(MAX_ZIP_ENTRIES).is_ok());
    let err = check_zip_entry_count(MAX_ZIP_ENTRIES + 1).unwrap_err();
    match err {
        ArchiveError::Localized { zh, en, .. } => {
            assert_eq!(zh, "skills.zip 条目数过多（10001），上限 10000");
            assert_eq!(en, "skills.zip has too many entries (10001), limit is 10000");
        }
        other => panic!("unexpected {other:?}"),
    }
}

#[test]
fn decimal_text_matches_to_string() {
    for n in [0u64, 7, 10, 99, 100, 512, 1234567890, u64::MAX] {
        assert_eq!(decimal_text(n), n.to_string());
    }
}

#[test]
fn entry_names_and_hidden_files() {
    assert!(is_hidden_entry(".git"));
    assert!(!is_hidden_entry("skill.md"));
    assert!(!is_hidden_entry(""));
    assert_eq!(zip_entry_name("a\\b\\c.txt"), "a/b/c.txt");
    assert_eq!(zip_directory_name("nested\\dir"), "nested/dir/");
}

#[test]
fn visited_dirs_track_canonical_duplicates() {
    let mut visited = VisitedDirs::new();
    assert!(visited.mark(b"/tmp/skills".to_vec()));
    assert!(!visited.mark(b"/tmp/skills".to_vec()));
    assert!(visited.mark(b"/tmp/skills/nested".to_vec()));
}

#[test]
fn io_context_joins_both_descriptions() {
    let err = io_context_localized("k", "创建失败", "Failed to create", "denied".to_string());
    assert_eq!(err.message(), "创建失败 (Failed to create): denied");
    let io = ArchiveError::Io { path: "/x".to_string(), message: "gone".to_string() };
    assert_eq!(io.message(), "/x: gone");
}

#[test]
fn copy_reaching_the_limit_exactly_is_allowed() {
    let mut reader = Cursor::new(vec![7u8; 3]);
    let mut writer = Vec::new();
    let mut total_bytes = 5u64;
    let result = copy_entry_with_total_limit(&mut reader, &mut writer, &mut total_bytes, 8, "f");
    assert_eq!(result.unwrap(), 3);
    assert_eq!(writer, vec![7u8, 7, 7]);
    assert_eq!(total_bytes, 8);
}

#[test]
fn copy_step_decides_per_chunk() {
    assert_eq!(copy_step(5, 0, 8), CopyStep::Finish);
    assert_eq!(copy_step(5, 3, 8), CopyStep::Write);
    assert_eq!(copy_step(5, 4, 8), CopyStep::TooLarge);
    assert_eq!(copy_step(u64::MAX, 1, 8), CopyStep::TooLarge);
}

#[test]
fn pack_step_skips_hidden_outside_and_revisited_entries() {
    let mut visited = VisitedDirs::new();
    assert!(matches!(pack_step(".git", Some("/r/.git"), "/r", Some(".git"), true, &mut visited), PackStep::Skip));
    assert!(matches!(pack_step("link", Some("/elsewhere/x"), "/r", Some("x"), false, &mut visited), PackStep::Skip));
    match pack_step("sub", Some("/r/sub"), "/r", Some("sub"), true, &mut visited) {
        PackStep::AddDirectory { name } => assert_eq!(name, "sub/"),
        other => panic!("unexpected {other:?}"),
    }
    assert!(matches!(pack_step("again", Some("/r/sub"), "/r", Some("again"), true, &mut visited), PackStep::Skip));
    match pack_step("a.txt", Some("/r/a.txt"), "/r", Some("a.txt"), false, &mut visited) {
        PackStep::AddFile { name } => assert_eq!(name, "a.txt"),
        other => panic!("unexpected {other:?}"),
    }
    assert!(matches!(pack_step("gone", None, "/r", Some("gone"), true, &mut visited), PackStep::Unresolved));
    assert!(matches!(pack_step("odd", None, "/r", None, false, &mut visited), PackStep::NoRelativePath));
    // component-wise: "/rr" is not under "/r"
    assert!(matches!(pack_step("rr", Some("/rr"), "/r", Some("rr"), false, &mut visited), PackStep::Skip));
}

#[test]
fn entries_are_packed_in_byte_order() {
    let names = vec![b"b.txt".to_vec(), b"B".to_vec(), b"a".to_vec(), b"ab".to_vec(), b"a".to_vec()];
    let order = entry_order(&names);
    let sorted: Vec<&[u8]> = order.iter().map(|&i| names[i].as_slice()).collect();
    assert_eq!(sorted, vec![&b"B"[..], b"a", b"a", b"ab", b"b.txt"]);
    let mut seen = order.clone();
    seen.sort();
    assert_eq!(seen, vec![0, 1, 2, 3, 4]);
    assert!(entry_order(&Vec::new()).is_empty());
}

#[test]
fn extract_steps_and_restore_protocol() {
    assert!(matches!(extract_step("/tmp/x", None, false), ExtractStep::Skip));
    match extract_step("/tmp/x", Some("skill/a.md"), false) {
        ExtractStep::WriteFile { path } => assert_eq!(path, "/tmp/x/skill/a.md"),
        other => panic!("unexpected {other:?}"),
    }
    match extract_step("/tmp/x", Some("skill"), true) {
        ExtractStep::CreateDir { path } => assert_eq!(path, "/tmp/x/skill"),
        other => panic!("unexpected {other:?}"),
    }
    assert_eq!(restore_prepare(true, true), vec![RestoreAction::RemoveBackup, RestoreAction::MoveToBackup]);
    assert_eq!(restore_prepare(true, false), vec![RestoreAction::MoveToBackup]);
    assert!(restore_prepare(false, true).is_empty());
    assert_eq!(restore_finish(true, true), vec![RestoreAction::RemoveBackup]);
    assert_eq!(restore_finish(false, true), vec![RestoreAction::RemoveTarget, RestoreAction::MoveBackupBack]);
    assert!(restore_finish(false, false).is_empty());
}

#[test]
fn copy_bytes_refuses_what_would_pass_the_limit_and_writes_nothing() {
    let mut writer = vec![9u8];
    let mut total_bytes = 0u64;
    let err = copy_bytes_with_total_limit(vec![1u8; 16], &mut writer, &mut total_bytes, 8, "out").unwrap_err();
    assert_eq!(err.message(), "skills.zip 解压后体积超过上限（0 MB）");
    assert_eq!(writer, vec![9u8]);
    assert_eq!(total_bytes, 0);
}

#[test]
fn copy_bytes_appends_what_fits() {
    let mut writer = vec![1u8];
    let mut total_bytes = 5u64;
    let written = copy_bytes_with_total_limit(vec![7u8; 3], &mut writer, &mut total_bytes, 8, "out").unwrap();
    assert_eq!(written, 3);
    assert_eq!(writer, vec![1u8, 7, 7, 7]);
    assert_eq!(total_bytes, 8);
    // an empty entry is copied even when the total is already at the limit
    assert_eq!(copy_bytes_with_total_limit(Vec::new(), &mut writer, &mut total_bytes, 8, "out").unwrap(), 0);
}

#[test]
fn copy_with_the_largest_limit_saturates_the_total() {
    let mut reader = Cursor::new(vec![2u8; 10]);
    let mut writer = Vec::new();
    let mut total_bytes = u64::MAX - 4;
    let written = copy_entry_with_total_limit(&mut reader, &mut writer, &mut total_bytes, u64::MAX, "f").unwrap();
    assert_eq!(written, 10);
    assert_eq!(total_bytes, u64::MAX);
    assert_eq!(writer.len(), 10);
}
