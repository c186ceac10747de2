use ftp_sync::session::file_target_path;
use ftp_sync::utils::{
    categorize_entries, get_absolute_path, get_download_target_path, parse_ftp_entries,
    sort_entries_by_path, FtpDirEntry,
};

fn file(path: &str, size: usize) -> FtpDirEntry {
    FtpDirEntry::File(path.to_string(), size)
}

fn folder(path: &str) -> FtpDirEntry {
    FtpDirEntry::Folder(path.to_string())
}

#[test]
fn unix_listing_lines_become_entries() {
    let lines = vec![
        "drwxr-xr-x  10 root   root    4096 Dec 21  2012 sub".to_string(),
        "-rw-rw-rw-   1 owner  group   7045120 Sep 02  2012 music.mp3".to_string(),
        "not a listing line at all".to_string(),
    ];
    let entries = parse_ftp_entries(lines, "/in/batch1");
    assert_eq!(
        entries,
        vec![folder("/in/batch1/sub"), file("/in/batch1/music.mp3", 7045120)]
    );
}

#[test]
fn symlink_lines_are_ignored() {
    let lines = vec![
        "lrwxrwxrwx 1 root root 51 Apr  4 23:57 www -> /etc/nginx/sites-available/www".to_string(),
        "-rw-r--r-- 1 root root 99 Apr  4 23:57 data.bin".to_string(),
    ];
    let entries = parse_ftp_entries(lines, "/in");
    assert_eq!(entries, vec![file("/in/data.bin", 99)]);
}

#[test]
fn absolute_path_joins_with_separator() {
    assert_eq!(get_absolute_path("/in/batch1", "sub").as_str(), "/in/batch1/sub");
    assert_eq!(get_absolute_path("", "top").as_str(), "/top");
}

#[test]
fn download_target_substitutes_the_root_prefix() {
    assert_eq!(
        get_download_target_path("in/batch1/a.dat", "/local", "in/").as_str(),
        "/local/batch1/a.dat"
    );
    // A path the root is no prefix of is kept whole.
    assert_eq!(
        get_download_target_path("other/a.dat", "/local", "in/").as_str(),
        "/local/other/a.dat"
    );
}

#[test]
fn batch_file_target_strips_the_first_component() {
    assert_eq!(
        file_target_path("in/batch1/a.dat", "/local/dest").as_str(),
        "/local/dest/batch1/a.dat"
    );
    assert_eq!(
        file_target_path("in/batch1/sub/b.dat", "/local/dest").as_str(),
        "/local/dest/batch1/sub/b.dat"
    );
    // A leading separator makes the first component empty.
    assert_eq!(
        file_target_path("/in/batch1/a.dat", "/local/dest").as_str(),
        "/local/dest/in/batch1/a.dat"
    );
}

#[test]
fn categorize_splits_folders_from_files() {
    let mut entries = vec![
        file("/in/a.dat", 1),
        folder("/in/sub"),
        file("/in/b.dat", 2),
        folder("/in/deep"),
    ];
    let (folders, files) = categorize_entries(&mut entries);
    assert!(entries.is_empty());
    assert_eq!(folders, vec![folder("/in/sub"), folder("/in/deep")]);
    assert_eq!(files, vec![file("/in/a.dat", 1), file("/in/b.dat", 2)]);
}

#[test]
fn sorting_orders_paths_ascending() {
    let mut entries = vec![
        folder("/in/batch1/sub"),
        folder("/in/batch1"),
        folder("/in/batch1/sub/deep"),
        folder("/in/abc"),
    ];
    sort_entries_by_path(&mut entries);
    assert_eq!(
        entries,
        vec![
            folder("/in/abc"),
            folder("/in/batch1"),
            folder("/in/batch1/sub"),
            folder("/in/batch1/sub/deep"),
        ]
    );
}

#[test]
fn sorting_keeps_every_entry() {
    let mut entries = vec![file("/z", 1), file("/a", 2), file("/m", 3)];
    sort_entries_by_path(&mut entries);
    assert_eq!(entries, vec![file("/a", 2), file("/m", 3), file("/z", 1)]);
}
