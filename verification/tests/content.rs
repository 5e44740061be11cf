use std::cmp::Ordering;
use std::sync::Arc;

use pandora_core::content::ContentType;
use pandora_core::interface_config::{
    default_curseforge_class_id, default_modrinth_project_type, CurseforgeClassId, ContentSummary, InstanceContentSortKey, InstanceContentSummary,
    InstancesViewMode, LiveGameOutputDisplay, PreferredAddContentSource,
};
use pandora_core::modrinth::ModrinthProjectType;

fn item(filename: &str, name: Option<&str>, id: Option<&str>, modified: i64, size: Option<u64>) -> InstanceContentSummary {
    InstanceContentSummary {
        filename: Arc::from(filename),
        modified_unix_ms: modified,
        content_summary: ContentSummary {
            id: id.map(Arc::from),
            name: name.map(Arc::from),
            filesize: size,
        },
    }
}

#[test]
fn defaults() {
    assert_eq!(LiveGameOutputDisplay::default(), LiveGameOutputDisplay::TabOnInstancePage);
    assert_eq!(PreferredAddContentSource::default(), PreferredAddContentSource::Modrinth);
    assert_eq!(InstancesViewMode::default(), InstancesViewMode::Cards);
    assert_eq!(InstanceContentSortKey::default(), InstanceContentSortKey::Name);
    assert_eq!(default_modrinth_project_type(), ModrinthProjectType::Mod);
    assert_eq!(default_curseforge_class_id(), CurseforgeClassId::Mod);
    assert_eq!(ContentType::ResourcePacks.curseforge_class_id(), CurseforgeClassId::Resourcepack);
}

#[test]
fn names_compare_naturally() {
    let a = item("a.jar", Some("Mod 9"), None, 0, None);
    let b = item("b.jar", Some("Mod 10"), None, 0, None);
    assert_eq!(InstanceContentSortKey::Name.compare(&a, &b), Ordering::Less);
    assert_eq!(InstanceContentSortKey::Name.compare(&b, &a), Ordering::Greater);
    assert_eq!(InstanceContentSortKey::Filename.compare(&b, &a), Ordering::Greater);
}

#[test]
fn name_falls_back_to_id_then_file_name() {
    let named = item("zzz.jar", None, Some("alpha"), 0, None);
    let bare = item("beta.jar", None, None, 0, None);
    assert_eq!(InstanceContentSortKey::Name.compare(&named, &bare), Ordering::Less);
    let by_id = item("x.jar", Some("zulu"), Some("aaa"), 0, None);
    assert_eq!(InstanceContentSortKey::ModId.compare(&by_id, &bare), Ordering::Less);
    assert_eq!(InstanceContentSortKey::Name.compare(&by_id, &bare), Ordering::Greater);
}

#[test]
fn newest_and_largest_come_first() {
    let old = item("a", None, None, 100, Some(10));
    let new = item("b", None, None, 200, None);
    assert_eq!(InstanceContentSortKey::ModifiedTime.compare(&new, &old), Ordering::Less);
    assert_eq!(InstanceContentSortKey::ModifiedTime.compare(&old, &old), Ordering::Equal);
    assert_eq!(InstanceContentSortKey::FileSize.compare(&old, &new), Ordering::Less);
    assert_eq!(InstanceContentSortKey::FileSize.compare(&new, &new), Ordering::Equal);
}

#[test]
fn sort_modes_per_content_type() {
    assert_eq!(ContentType::Mods.valid_sort_modes().len(), 5);
    assert_eq!(
        ContentType::Shaders.valid_sort_modes(),
        vec![
            InstanceContentSortKey::Filename,
            InstanceContentSortKey::ModifiedTime,
            InstanceContentSortKey::FileSize
        ]
    );
    assert_eq!(
        ContentType::ResourcePacks.effective_sort_key(InstanceContentSortKey::Name),
        InstanceContentSortKey::Filename
    );
    assert_eq!(
        ContentType::ResourcePacks.effective_sort_key(InstanceContentSortKey::FileSize),
        InstanceContentSortKey::FileSize
    );
    assert_eq!(
        ContentType::Mods.effective_sort_key(InstanceContentSortKey::ModId),
        InstanceContentSortKey::ModId
    );
    assert_eq!(ContentType::Shaders.modrinth_project_type(), ModrinthProjectType::Shader);
}

#[test]
fn accented_names_compare_and_long_digit_runs_are_refused() {
    let a = item("a.jar", Some("Émeraude"), None, 0, None);
    let b = item("b.jar", Some("Zèbre"), None, 0, None);
    assert_eq!(InstanceContentSortKey::Name.compare(&a, &b), Ordering::Less);
    assert_eq!(InstanceContentSortKey::Name.compare_checked(&a, &b), Some(Ordering::Less));
    let long = "1".repeat(25);
    let c = item(&long, None, None, 0, None);
    let d = item(&long, None, None, 0, None);
    assert_eq!(InstanceContentSortKey::Filename.compare_checked(&c, &d), None);
    assert_eq!(InstanceContentSortKey::ModifiedTime.compare_checked(&c, &d), Some(Ordering::Equal));
    assert_eq!(InstanceContentSortKey::Filename.compare_checked(&a, &d), Some(Ordering::Greater));
}

#[test]
fn long_digit_runs_compare_unless_aligned_past_u64() {
    let ones = "1".repeat(25);
    let a = item(&format!("a{ones}"), None, None, 0, None);
    let b = item(&format!("b{ones}"), None, None, 0, None);
    assert_eq!(InstanceContentSortKey::Filename.compare_checked(&a, &b), Some(Ordering::Less));
    assert_eq!(InstanceContentSortKey::Filename.compare(&a, &b), Ordering::Less);

    let long = item(&ones, None, None, 0, None);
    let short = item("5", None, None, 0, None);
    assert_eq!(
        InstanceContentSortKey::Filename.compare_checked(&long, &short),
        Some(Ordering::Greater)
    );

    let zeros = "0".repeat(24);
    let one = item(&format!("{zeros}1"), None, None, 0, None);
    let two = item(&format!("{zeros}2"), None, None, 0, None);
    assert_eq!(InstanceContentSortKey::Filename.compare_checked(&one, &two), Some(Ordering::Less));

    let max = item("18446744073709551615", None, None, 0, None);
    let max_again = item("18446744073709551615", None, None, 0, None);
    assert!(InstanceContentSortKey::Filename.compare_checked(&max, &max_again).is_some());

    let over = item("18446744073709551616", None, None, 0, None);
    let small = item("10000000000000000000", None, None, 0, None);
    assert_eq!(InstanceContentSortKey::Filename.compare_checked(&over, &small), None);
}
