use cascading_extract::archive::{
    is_7z_header, should_create_folder_when_extract_with_smart_mode, ArchiveEntry,
};

fn entry(name: &str, is_directory: bool) -> ArchiveEntry {
    ArchiveEntry { name: name.to_string(), is_directory }
}

// The listing of an archive that spills several files into its root, next to
// one root directory with nested content.
fn multi_root_entries() -> Vec<ArchiveEntry> {
    vec![
        entry("docs", true),
        entry("docs/readme.txt", false),
        entry("docs/notes.txt", false),
        entry("logo.png", false),
        entry("manual.pdf", false),
    ]
}

// The listing of an archive whose whole content sits under a single root
// file.
fn single_root_entries() -> Vec<ArchiveEntry> {
    vec![entry("7ziplogo.png", false)]
}

#[test]
fn test_should_create_folder_when_extract_with_smart_mode() {
    assert_eq!(
        should_create_folder_when_extract_with_smart_mode(&multi_root_entries()),
        true
    );
    assert_eq!(
        should_create_folder_when_extract_with_smart_mode(&single_root_entries()),
        false
    );
}

#[test]
fn test_smart_mode_two_root_files() {
    let entries = vec![entry("a.txt", false), entry("b.txt", false)];
    assert_eq!(should_create_folder_when_extract_with_smart_mode(&entries), true);
}

#[test]
fn test_smart_mode_one_file_one_dir() {
    let entries = vec![
        entry("a.txt", false),
        entry("sub", true),
        entry("sub/c.txt", false),
        entry("sub/d.txt", false),
    ];
    assert_eq!(should_create_folder_when_extract_with_smart_mode(&entries), false);
}

#[test]
fn test_smart_mode_two_root_dirs() {
    let entries = vec![entry("one", true), entry("two", true)];
    assert_eq!(should_create_folder_when_extract_with_smart_mode(&entries), true);
}

#[test]
fn test_smart_mode_empty_listing() {
    let entries: Vec<ArchiveEntry> = vec![];
    assert_eq!(should_create_folder_when_extract_with_smart_mode(&entries), false);
}

#[test]
fn test_is_7z_header() {
    let seven_z = [0x37u8, 0x7a, 0xbc, 0xaf, 0x27, 0x1c, 0x00, 0x04];
    assert_eq!(is_7z_header(&seven_z), true);

    let exact_signature = [0x37u8, 0x7a, 0xbc, 0xaf, 0x27, 0x1c];
    assert_eq!(is_7z_header(&exact_signature), true);

    let seven_bytes = [0x37u8, 0x7a, 0xbc, 0xaf, 0x27, 0x1c, 0xff];
    assert_eq!(is_7z_header(&seven_bytes), true);

    let png = [0x89u8, 0x50, 0x4e, 0x47, 0x0d, 0x0a, 0x1a, 0x0a];
    assert_eq!(is_7z_header(&png), false);

    let short = [0x37u8, 0x7a];
    assert_eq!(is_7z_header(&short), false);

    let wrong_last = [0x37u8, 0x7a, 0xbc, 0xaf, 0x27, 0x1d, 0x00, 0x00];
    assert_eq!(is_7z_header(&wrong_last), false);
}
