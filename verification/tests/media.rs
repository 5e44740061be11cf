use std::cmp::Ordering;
use std::sync::Arc;

use pandora_core::png_render::{
    cape_canvas_size, resize_filter, swap_red_blue, ImageTransformation, ResizeFilter,
};
use pandora_core::unique_bytes::UniqueBytes;
use pandora_core::version_order::{
    compare_versions, compare_versions_checked, is_unstable_version, join_loader_names,
};
use pandora_core::versions::{is_snapshot_version, VersionList};

#[test]
fn snapshot_ids() {
    assert!(is_snapshot_version("24w03a"));
    assert!(!is_snapshot_version("1.20.4"));
    assert!(!is_snapshot_version("24w03A"));
    assert!(!is_snapshot_version("24x03a"));
    assert!(!is_snapshot_version("24w03ab"));
    assert!(!is_snapshot_version("1.21-pre1"));
}

#[test]
fn version_search_keeps_matching_prefixes() {
    let mut list = VersionList {
        versions: vec!["1.20.4".into(), "1.21".into(), "24w03a".into(), "1.2.5".into()],
        matched_versions: vec![],
    };
    list.perform_search("1.2");
    assert_eq!(list.matched_versions, vec!["1.20.4", "1.21", "1.2.5"]);
    assert_eq!(list.items_count(), 3);
    assert_eq!(list.item(1).map(|s| s.as_str()), Some("1.21"));
    assert_eq!(list.item(3), None);
    assert_eq!(list.position("1.2.5"), Some(2));
    assert_eq!(list.position("24w03a"), None);
    list.perform_search("24W");
    assert_eq!(list.matched_versions, vec!["24w03a"]);
    list.perform_search("");
    assert_eq!(list.matched_versions.len(), 4);
}

#[test]
fn resize_filters() {
    assert_eq!(resize_filter(64, 64, 64, 64), None);
    assert_eq!(resize_filter(64, 64, 32, 32), Some(ResizeFilter::Triangle));
    assert_eq!(resize_filter(16, 16, 64, 64), Some(ResizeFilter::Nearest));
    assert_eq!(resize_filter(16, 128, 64, 64), Some(ResizeFilter::Triangle));
    let t = ImageTransformation::Resize { width: 1, height: 2 };
    assert_ne!(t, ImageTransformation::Unchanged);
    assert_ne!(t, ImageTransformation::ResizeToWidth { width: 1 });
}

#[test]
fn red_and_blue_swap_in_whole_pixels() {
    let mut data = vec![1, 2, 3, 4, 5, 6, 7, 8, 9, 10];
    swap_red_blue(&mut data);
    assert_eq!(data, vec![3, 2, 1, 4, 7, 6, 5, 8, 9, 10]);
    swap_red_blue(&mut data);
    assert_eq!(data, vec![1, 2, 3, 4, 5, 6, 7, 8, 9, 10]);
}

#[test]
fn unique_bytes_hold_their_bytes() {
    let a = UniqueBytes::new(&[1, 2, 3]);
    let b = a.clone();
    assert_eq!(&*a, &[1, 2, 3]);
    assert_eq!(a, b);
    assert_eq!(a.len(), 3);
    assert_eq!(a.as_bytes(), b.as_bytes());
    let shared = UniqueBytes::from_shared(Arc::from(vec![1u8, 2, 3]));
    assert_eq!(shared, a);
    assert!(Arc::ptr_eq(&b.shared(), &a.shared()));
    assert_ne!(UniqueBytes::new(&[1, 2]), a);
}

#[test]
fn versions_are_offered_releases_first_newest_first() {
    assert_eq!(compare_versions("1.20.4", "24w03a"), Ordering::Less);
    assert_eq!(compare_versions("24w03a", "1.20.4"), Ordering::Greater);
    assert_eq!(compare_versions("1.21", "1.20.4"), Ordering::Less);
    assert_eq!(compare_versions("1.9", "1.10"), Ordering::Greater);
    assert_eq!(compare_versions("1.21-pre1", "1.21-rc1"), Ordering::Greater);
    assert!(is_unstable_version("1.21-rc1"));
    assert!(is_unstable_version("1.21-pre1"));
    assert!(is_unstable_version("24w03a"));
    assert!(!is_unstable_version("1.21"));
    let mut keys = vec!["1.9".to_string(), "24w03a".to_string(), "1.10".to_string(), "1.10-pre2".to_string()];
    keys.sort_by(|a, b| compare_versions(a, b));
    assert_eq!(keys, vec!["1.10", "1.9", "24w03a", "1.10-pre2"]);
    assert_eq!(join_loader_names(&vec!["Fabric", "Forge"]), "Fabric / Forge");
    assert_eq!(join_loader_names(&vec!["Fabric"]), "Fabric");
    assert_eq!(join_loader_names(&vec![]), "");
}

#[test]
fn versions_of_different_stability_need_no_text_comparison() {
    let long = format!("1.{}", "9".repeat(25));
    let long_pre = format!("{long}-pre1");
    assert_eq!(compare_versions_checked(&long, &long_pre), Some(Ordering::Less));
    assert_eq!(compare_versions_checked(&long, &long), None);
    assert_eq!(compare_versions_checked("1.20", "1.19"), Some(Ordering::Less));
}

#[test]
fn cape_in_46_by_22_units_keeps_its_scale() {
    assert_eq!(cape_canvas_size(46, 22), (64, 32));
    assert_eq!(cape_canvas_size(92, 44), (128, 64));
    assert_eq!(cape_canvas_size(460, 220), (640, 320));
}

#[test]
fn other_capes_double_until_they_fit() {
    assert_eq!(cape_canvas_size(64, 32), (64, 32));
    assert_eq!(cape_canvas_size(10, 10), (64, 32));
    assert_eq!(cape_canvas_size(100, 20), (128, 64));
    assert_eq!(cape_canvas_size(64, 40), (128, 64));
    assert_eq!(cape_canvas_size(46, 23), (64, 32));
    assert_eq!(cape_canvas_size(0, 0), (64, 32));
    assert_eq!(cape_canvas_size(300, 10), (512, 256));
}

#[test]
fn unique_bytes_from_slices_and_vectors() {
    let from_slice = UniqueBytes::from(&[7u8, 8, 9][..]);
    let from_vec = UniqueBytes::from(vec![7u8, 8, 9]);
    assert_eq!(from_slice, from_vec);
    assert_eq!(from_vec.as_bytes(), &[7, 8, 9]);
    assert_eq!(from_slice.len(), 3);
    assert_ne!(UniqueBytes::from(Vec::new()), from_vec);
    assert_eq!(UniqueBytes::from(Vec::new()).len(), 0);
}
