//! Sizes: what counts, and how it is written.

use offcut::clean::{Classification, CleanItem};
use offcut::disk::{
    compute_item_size, compute_reclaimable_size, format_size, format_size_short, item_path,
    DiskEntry,
};

fn item(path: &str, is_dir: bool, classification: Classification) -> CleanItem {
    CleanItem { rel_path: path.to_string(), is_dir, classification }
}

#[test]
fn safe_file_counts_exact_size() {
    let payload = "hello world bytes";
    let items = vec![item("target/app.bin", false, Classification::Safe)];
    let entry = DiskEntry::File(Ok(payload.len() as u64));
    let (size, warnings) = compute_reclaimable_size(&items, &[compute_item_size(&entry)]);
    assert_eq!(size, payload.len() as u64);
    assert!(warnings.is_empty());
}

#[test]
fn safe_directory_counts_subtree() {
    let items = vec![item("target", true, Classification::Safe)];
    let entry = DiskEntry::Directory(vec![Ok(3), Ok(4), Ok(5)]);
    let (size, _) = compute_reclaimable_size(&items, &[compute_item_size(&entry)]);
    assert_eq!(size, 3u64 + 4u64 + 5u64);
}

#[test]
fn protected_file_excluded_from_count() {
    let items = vec![item("important.dat", false, Classification::Protected)];
    let entry = DiskEntry::File(Ok("keep me".len() as u64));
    let (size, _) = compute_reclaimable_size(&items, &[compute_item_size(&entry)]);
    assert_eq!(size, 0);
}

#[test]
fn symlink_counts_own_size_not_target() {
    let payload = "hello";
    let items = vec![item("target/link.bin", false, Classification::Safe)];
    let entry = DiskEntry::Symlink(Ok(21));
    let (size, _) = compute_reclaimable_size(&items, &[compute_item_size(&entry)]);
    assert!(size > 0);
    assert!(
        size != payload.len() as u64,
        "symlink size must be its own, not the target total: {size}"
    );
    assert_eq!(size, 21);
}

#[test]
fn permission_denied_counts_as_zero() {
    let items = vec![item("target/.locked", false, Classification::Safe)];
    let entry = DiskEntry::File(Err("permission denied".to_string()));
    let (size, warnings) = compute_reclaimable_size(&items, &[compute_item_size(&entry)]);
    assert_eq!(size, 0, "permission-denied must count as 0");
    assert!(warnings.is_empty());
}

#[test]
fn mix_of_safe_and_protected_each_counts() {
    let items = vec![
        item("target/junk.bin", false, Classification::Safe),
        item("important.dat", false, Classification::Protected),
    ];
    let (size, _) = compute_reclaimable_size(&items, &[Ok(4), Ok(4)]);
    assert_eq!(size, 4); // only the safe item counted
}

#[test]
fn surfaced_items_count_and_sums_do_not_overflow() {
    let items = vec![
        item("a", false, Classification::Surfaced),
        item("b", false, Classification::Safe),
    ];
    let (size, _) = compute_reclaimable_size(&items, &[Ok(7), Ok(5)]);
    assert_eq!(size, 12);
    let (size, _) = compute_reclaimable_size(&items, &[Ok(u64::MAX), Ok(5)]);
    assert_eq!(size, u64::MAX);
    let entry = DiskEntry::Directory(vec![Ok(u64::MAX), Err("gone".to_string()), Ok(1)]);
    assert_eq!(compute_item_size(&entry), Ok(u64::MAX));
}

#[test]
fn unreadable_links_are_warned_about() {
    let items = vec![item("target/link", false, Classification::Safe)];
    let entry = DiskEntry::Symlink(Err("no entry".to_string()));
    let (size, warnings) = compute_reclaimable_size(&items, &[compute_item_size(&entry)]);
    assert_eq!(size, 0);
    assert_eq!(warnings, vec!["warning: target/link: could not read size: no entry".to_string()]);
    assert_eq!(compute_item_size(&DiskEntry::Other), Ok(0));
}

#[test]
fn changing_a_protected_size_changes_nothing() {
    let items = vec![
        item("a", false, Classification::Safe),
        item("b", false, Classification::Protected),
    ];
    let (one, _) = compute_reclaimable_size(&items, &[Ok(3), Ok(1)]);
    let (two, _) = compute_reclaimable_size(&items, &[Ok(3), Ok(1000)]);
    assert_eq!(one, two);
}

#[test]
fn items_lie_below_their_project() {
    let i = item("target", true, Classification::Safe);
    assert_eq!(item_path("/work/app", &i), "/work/app/target");
}

#[test]
fn format_zero_is_zero_b() {
    assert_eq!(format_size(0), "0 B");
}

#[test]
fn format_sub_kb_stays_in_bytes() {
    assert_eq!(format_size(100), "100 B");
}

#[test]
fn format_kb_above_1024() {
    assert!(format_size(1024).starts_with("1.00 KB"));
}

#[test]
fn format_mb_above_1mb() {
    assert!(format_size(1024 * 1024).starts_with("1.00 MB"));
}

#[test]
fn format_gb_above_1gb() {
    assert!(format_size(1024 * 1024 * 1024).starts_with("1.00 GB"));
}

#[test]
fn format_size_is_human_readable() {
    let s = format_size(12345678);
    assert!(
        s.contains("MB") || s.contains("KB") || s.contains("GB"),
        "unexpected: {s}"
    );
    assert_eq!(s, "11.77 MB");
}

/// Sizes are written as the floating-point numbers of the machine would be.
#[test]
fn sizes_round_like_doubles() {
    let mut samples: Vec<u64> = vec![
        1023, 1024, 1025, 1029, 1034, 1536, 5242, 5243, 5247, 1048575, 1048576, 1073741823,
        1073741824, 1079110533, 9007199254740991, 9007199254740993, 9007199254740995, u64::MAX,
        u64::MAX - 1023, u64::MAX - 1024, u64::MAX - 1025, u64::MAX - 3072,
    ];
    // Halves, which go to the even digit.
    let mut n: u64 = 1024;
    while n < 4096 {
        samples.push(n);
        samples.push(n * 1024 + 128);
        samples.push(n * 1024 * 1024 + 65536);
        n += 1;
    }
    let mut x: u64 = 88172645463325252;
    for _ in 0..2000 {
        x ^= x << 13;
        x ^= x >> 7;
        x ^= x << 17;
        samples.push(x);
        samples.push(x >> 20);
        samples.push(x >> 34);
    }
    for bytes in samples {
        let b = bytes as f64;
        let long = if bytes < 1024 {
            format!("{bytes} B")
        } else if b / 1024.0 / 1024.0 < 1.0 {
            format!("{:.2} KB", b / 1024.0)
        } else if b / 1024.0 / 1024.0 / 1024.0 < 1.0 {
            format!("{:.2} MB", b / 1024.0 / 1024.0)
        } else {
            format!("{:.2} GB", b / 1024.0 / 1024.0 / 1024.0)
        };
        assert_eq!(format_size(bytes), long, "{bytes}");
        let short = if b >= 1073741824.0 {
            format!("{:.1} GB", b / 1073741824.0)
        } else if b >= 1048576.0 {
            format!("{:.1} MB", b / 1048576.0)
        } else if b >= 1024.0 {
            format!("{:.1} KB", b / 1024.0)
        } else {
            format!("{bytes} B")
        };
        assert_eq!(format_size_short(bytes), short, "{bytes}");
    }
}
