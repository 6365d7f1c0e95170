use dispatcher::filesystem::{Block, File, FileSystem};

fn file(free: bool, name: &str, owner: i32, index: i32, size: i32) -> File {
    File { free, file_name: name.to_string(), file_owner: owner, index, size }
}

fn disk(files: Vec<File>) -> FileSystem {
    FileSystem { fs: files, blocks: vec![Block::Free, Block::Occupied] }
}

/// (free, name, owner, index, size) of each span.
fn layout(d: &FileSystem) -> Vec<(bool, String, i32, i32, i32)> {
    d.fs.iter().map(|f| (f.free, f.file_name.clone(), f.file_owner, f.index, f.size)).collect()
}

fn t(free: bool, name: &str, owner: i32, index: i32, size: i32) -> (bool, String, i32, i32, i32) {
    (free, name.to_string(), owner, index, size)
}

#[test]
fn get_file_index_finds_first_by_name() {
    let d = disk(vec![
        file(true, "Disk Free", 1001, 0, 4),
        file(false, "A", 1, 4, 2),
        file(false, "A", 2, 6, 2),
    ]);
    assert_eq!(d.get_file_index("A".to_string()), (true, 1));
    assert_eq!(d.get_file_index("Disk Free".to_string()), (true, 0));
    assert_eq!(d.get_file_index("B".to_string()), (false, 0));
}

#[test]
fn storage_available_needs_a_free_span_big_enough() {
    let d = disk(vec![
        file(false, "A", 1, 0, 10),
        file(true, "x", 1001, 10, 2),
        file(true, "y", 1001, 12, 5),
    ]);
    assert_eq!(d.storage_available(3), (true, 2));
    assert_eq!(d.storage_available(2), (true, 1));
    assert_eq!(d.storage_available(5), (true, 2));
    assert_eq!(d.storage_available(6), (false, 0));
}

#[test]
fn create_file_exact_fit_replaces_span() {
    let mut d = disk(vec![file(false, "A", 1, 0, 3), file(true, "free", 1001, 3, 4)]);
    d.create_file(7, "B".to_string(), 4, 1);
    assert_eq!(layout(&d), vec![t(false, "A", 1, 0, 3), t(true, "B", 7, 3, 4)]);
}

#[test]
fn create_file_splits_span() {
    let mut d = disk(vec![file(true, "free", 1001, 0, 10)]);
    d.create_file(2, "C".to_string(), 3, 0);
    assert_eq!(layout(&d), vec![t(true, "C", 2, 0, 3), t(true, "free", 1001, 3, 7)]);
    assert_eq!(d.blocks, vec![Block::Free, Block::Occupied]);
}

#[test]
fn delete_single_span_marks_it_free() {
    let mut d = disk(vec![file(false, "A", 1, 0, 5)]);
    d.delete_file(1, 1, "A".to_string());
    assert_eq!(layout(&d), vec![t(true, "A", 1, 0, 5)]);
}

#[test]
fn delete_unknown_name_changes_nothing() {
    let mut d = disk(vec![file(false, "A", 1, 0, 5), file(true, "f", 1001, 5, 5)]);
    d.delete_file(1, 1, "Z".to_string());
    assert_eq!(layout(&d), vec![t(false, "A", 1, 0, 5), t(true, "f", 1001, 5, 5)]);
}

#[test]
fn delete_by_other_user_process_is_refused() {
    let mut d = disk(vec![file(false, "A", 1, 0, 5)]);
    d.delete_file(2, 1, "A".to_string());
    assert_eq!(layout(&d), vec![t(false, "A", 1, 0, 5)]);
}

#[test]
fn delete_by_realtime_process_ignores_owner() {
    let mut d = disk(vec![file(false, "A", 1, 0, 5)]);
    d.delete_file(2, 0, "A".to_string());
    assert_eq!(layout(&d), vec![t(true, "A", 1, 0, 5)]);
}

#[test]
fn delete_first_merges_with_free_next() {
    let mut d = disk(vec![file(false, "A", 1, 0, 5), file(true, "f", 1001, 5, 3)]);
    d.delete_file(1, 1, "A".to_string());
    assert_eq!(layout(&d), vec![t(true, "A", 1, 0, 8)]);
}

#[test]
fn delete_first_with_taken_next_leaves_it() {
    let mut d = disk(vec![file(false, "A", 1, 0, 5), file(false, "B", 1, 5, 3)]);
    d.delete_file(1, 1, "A".to_string());
    assert_eq!(layout(&d), vec![t(false, "A", 1, 0, 5), t(false, "B", 1, 5, 3)]);
}

#[test]
fn delete_last_merges_into_free_previous() {
    let mut d = disk(vec![file(true, "f", 1001, 0, 5), file(false, "B", 1, 5, 3)]);
    d.delete_file(1, 1, "B".to_string());
    assert_eq!(layout(&d), vec![t(true, "f", 1001, 0, 8)]);
}

#[test]
fn delete_last_with_taken_previous_leaves_it() {
    let mut d = disk(vec![file(false, "A", 1, 0, 5), file(false, "B", 1, 5, 3)]);
    d.delete_file(1, 1, "B".to_string());
    assert_eq!(layout(&d), vec![t(false, "A", 1, 0, 5), t(false, "B", 1, 5, 3)]);
}

#[test]
fn delete_middle_between_two_free_spans() {
    let mut d = disk(vec![
        file(true, "f1", 1001, 0, 2),
        file(false, "B", 1, 2, 3),
        file(true, "f2", 1001, 5, 4),
        file(false, "C", 1, 9, 1),
    ]);
    d.delete_file(1, 1, "B".to_string());
    assert_eq!(layout(&d), vec![t(true, "f1", 1001, 0, 9), t(false, "C", 1, 9, 1)]);
}

#[test]
fn delete_middle_with_free_previous() {
    let mut d = disk(vec![
        file(true, "f1", 1001, 0, 2),
        file(false, "B", 1, 2, 3),
        file(false, "C", 1, 5, 4),
    ]);
    d.delete_file(1, 1, "B".to_string());
    assert_eq!(layout(&d), vec![t(true, "f1", 1001, 0, 5), t(false, "C", 1, 5, 4)]);
}

#[test]
fn delete_middle_with_free_next() {
    let mut d = disk(vec![
        file(false, "A", 1, 0, 2),
        file(false, "B", 1, 2, 3),
        file(true, "f", 1001, 5, 4),
    ]);
    d.delete_file(1, 1, "B".to_string());
    assert_eq!(layout(&d), vec![t(false, "A", 1, 0, 2), t(true, "B", 1, 2, 7)]);
}

#[test]
fn delete_middle_between_taken_spans_marks_free() {
    let mut d = disk(vec![
        file(false, "A", 1, 0, 2),
        file(false, "B", 1, 2, 3),
        file(false, "C", 1, 5, 4),
    ]);
    d.delete_file(1, 1, "B".to_string());
    assert_eq!(
        layout(&d),
        vec![t(false, "A", 1, 0, 2), t(true, "B", 1, 2, 3), t(false, "C", 1, 5, 4)]
    );
}

#[test]
fn merge_free_block_adds_and_frees() {
    let mut d = disk(vec![file(false, "A", 1, 0, 2), file(false, "B", 1, 2, 3)]);
    d.merge_free_block(0, 1);
    assert_eq!(layout(&d), vec![t(true, "A", 1, 0, 5)]);
}

#[test]
fn merge_two_free_blocks_adds_both_keeps_flag() {
    let mut d = disk(vec![
        file(false, "A", 1, 0, 2),
        file(false, "B", 1, 2, 3),
        file(false, "C", 1, 5, 4),
    ]);
    d.merge_two_free_blocks(0, 2, 1);
    assert_eq!(layout(&d), vec![t(false, "A", 1, 0, 9)]);
}

#[test]
fn create_then_delete_restores_layout() {
    let mut d = disk(vec![
        file(false, "A", 1, 0, 2),
        file(true, "f", 1001, 2, 8),
        file(false, "C", 1, 10, 4),
    ]);
    let (found, at) = d.storage_available(3);
    assert!(found);
    d.create_file(5, "N".to_string(), 3, at);
    d.delete_file(5, 1, "N".to_string());
    let spans: Vec<(bool, i32, i32)> = d.fs.iter().map(|f| (f.free, f.index, f.size)).collect();
    assert_eq!(spans, vec![(false, 0, 2), (true, 2, 8), (false, 10, 4)]);
}

#[test]
fn deletion_fits_detects_overflow() {
    let d = disk(vec![file(false, "A", 1, 0, i32::MAX), file(true, "f", 1001, 0, 1)]);
    assert!(!d.deletion_fits(1, 1, &"A".to_string()));
    assert!(d.deletion_fits(2, 1, &"A".to_string()));
    assert!(d.deletion_fits(1, 1, &"Z".to_string()));
    let d = disk(vec![file(false, "A", 1, 0, 3), file(true, "f", 1001, 3, 1)]);
    assert!(d.deletion_fits(1, 1, &"A".to_string()));
}

#[test]
fn create_then_find_gives_the_new_file() {
    let mut d = disk(vec![file(false, "A", 1, 0, 2), file(true, "f", 1001, 2, 8)]);
    d.create_file(4, "N".to_string(), 5, 1);
    assert_eq!(d.get_file_index("N".to_string()), (true, 1));
    assert_eq!((d.fs[1].file_owner, d.fs[1].size, d.fs[1].index), (4, 5, 2));
}

#[test]
fn create_and_delete_keep_total_and_tiling() {
    let mut d = disk(vec![file(false, "A", 1, 0, 2), file(true, "f", 1001, 2, 8), file(false, "C", 1, 10, 4)]);
    let total = |d: &FileSystem| d.fs.iter().map(|f| f.size).sum::<i32>();
    let tiled = |d: &FileSystem| d.fs.windows(2).all(|w| w[0].index + w[0].size == w[1].index);
    d.create_file(3, "X".to_string(), 3, 1);
    assert_eq!(total(&d), 14);
    assert!(tiled(&d));
    d.delete_file(1, 0, "C".to_string());
    assert_eq!(total(&d), 14);
    assert!(tiled(&d));
    d.delete_file(1, 1, "A".to_string());
    assert_eq!(total(&d), 14);
    assert!(tiled(&d));
}
