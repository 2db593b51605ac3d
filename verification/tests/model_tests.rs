use client_updater::archive::ArchiveEntry;
use client_updater::errors::{LaunchError, UpdateError};
use client_updater::fsmodel::DirTree;
use client_updater::installer::apply_archive;
use client_updater::launch::{check_launch, render_server_config, write_server_config};
use client_updater::paths::parse_entry_name;
use client_updater::resolver::decide_update;
use client_updater::version::{read_version, trim_bytes};

fn path(parts: &[&str]) -> Vec<Vec<u8>> {
    parts.iter().map(|s| s.as_bytes().to_vec()).collect()
}

fn file_entry(name: &str, data: &[u8]) -> ArchiveEntry {
    ArchiveEntry::File { name: name.as_bytes().to_vec(), data: data.to_vec() }
}

#[test]
fn version_defaults_when_marker_absent() {
    assert_eq!(read_version(&None), b"0.0.0".to_vec());
}

#[test]
fn version_is_trimmed_on_read() {
    assert_eq!(read_version(&Some(b"  1.2.3\r\n".to_vec())), b"1.2.3".to_vec());
    assert_eq!(read_version(&Some(b"1.2.3".to_vec())), b"1.2.3".to_vec());
    assert_eq!(read_version(&Some(b"1.0.0\x0b".to_vec())), b"1.0.0".to_vec());
    assert_eq!(read_version(&Some(b"\x0c1.0.0".to_vec())), b"1.0.0".to_vec());
    // Unicode whitespace: NO-BREAK SPACE, IDEOGRAPHIC SPACE, NEXT LINE, EM SPACE
    assert_eq!(read_version(&Some(b"1.0.0\xc2\xa0".to_vec())), b"1.0.0".to_vec());
    assert_eq!(
        read_version(&Some(b"\xe3\x80\x80\t1.0.0\xc2\x85\n".to_vec())),
        b"1.0.0".to_vec()
    );
    assert_eq!(trim_bytes(&b"\xe2\x80\x83x\xe2\x80\x83".to_vec()), b"x".to_vec());
    assert_eq!(trim_bytes(&b" \t\n ".to_vec()), Vec::<u8>::new());
    assert_eq!(trim_bytes(&b"a b".to_vec()), b"a b".to_vec());
}

#[test]
fn equal_versions_mean_no_update() {
    let d = decide_update("1.0.0".to_string(), "1.0.0".to_string(), "http://x/c.zip".to_string());
    assert!(!d.available);
    assert_eq!(d.current_version, "1.0.0");
    assert_eq!(d.latest_version, None);
    assert_eq!(d.download_url, None);
}

#[test]
fn lexically_smaller_remote_still_counts_as_update() {
    let d = decide_update("2.0.0".to_string(), "1.9.9".to_string(), "http://x/c.zip".to_string());
    assert!(d.available);
    assert_eq!(d.latest_version.as_deref(), Some("1.9.9"));
}

#[test]
fn update_decision_reports_remote_fields() {
    let d = decide_update("1.0.0".to_string(), "1.2.0".to_string(), "http://x/c.zip".to_string());
    assert!(d.available);
    assert_eq!(d.current_version, "1.0.0");
    assert_eq!(d.latest_version.as_deref(), Some("1.2.0"));
    assert_eq!(d.download_url.as_deref(), Some("http://x/c.zip"));
}

#[test]
fn entry_names_resolve_and_reject() {
    assert_eq!(parse_entry_name(&b"bin/client.exe".to_vec()), Some(path(&["bin", "client.exe"])));
    assert_eq!(parse_entry_name(&b"a//b/./c".to_vec()), Some(path(&["a", "b", "c"])));
    assert_eq!(parse_entry_name(&b"a/../b".to_vec()), Some(path(&["b"])));
    assert_eq!(parse_entry_name(&b"../evil".to_vec()), None);
    assert_eq!(parse_entry_name(&b"a/../../evil".to_vec()), None);
    assert_eq!(parse_entry_name(&b"/etc/passwd".to_vec()), None);
    assert_eq!(parse_entry_name(&b"a\\b".to_vec()), None);
    assert_eq!(parse_entry_name(&b"".to_vec()), None);
}

#[test]
fn replace_set_folders_mirror_archive_and_others_are_preserved() {
    let mut fs = DirTree::new();
    fs.set_file(path(&["userdata", "save.dat"]), b"my save".to_vec());
    fs.set_file(path(&["bin", "old.exe"]), b"old binary".to_vec());
    fs.set_file(path(&["bin", "client.exe"]), b"stale client".to_vec());

    let entries = vec![
        file_entry("bin/client.exe", b"new client"),
        file_entry("assets/a.png", b"picture"),
        file_entry("userdata/save.dat", b"factory save"),
        file_entry("userdata/readme.txt", b"hello"),
    ];
    let r = apply_archive(&mut fs, &entries);
    assert!(r.is_ok());

    // replace-set: overwritten from the archive
    assert_eq!(fs.read_file(&path(&["bin", "client.exe"])), Some(&b"new client".to_vec()));
    assert_eq!(fs.read_file(&path(&["assets", "a.png"])), Some(&b"picture".to_vec()));
    // replace-set file absent from the archive: not deleted
    assert_eq!(fs.read_file(&path(&["bin", "old.exe"])), Some(&b"old binary".to_vec()));
    // outside the replace-set: the existing file wins
    assert_eq!(fs.read_file(&path(&["userdata", "save.dat"])), Some(&b"my save".to_vec()));
    // outside the replace-set, no file yet: extracted
    assert_eq!(fs.read_file(&path(&["userdata", "readme.txt"])), Some(&b"hello".to_vec()));
}

#[test]
fn storeimages_is_in_the_replace_set() {
    let mut fs = DirTree::new();
    fs.set_file(path(&["storeimages", "shop.png"]), b"old".to_vec());
    fs.set_file(path(&["sounds", "hit.wav"]), b"old".to_vec());
    let entries = vec![
        file_entry("storeimages/shop.png", b"new"),
        file_entry("sounds/hit.wav", b"new"),
    ];
    assert!(apply_archive(&mut fs, &entries).is_ok());
    assert_eq!(fs.read_file(&path(&["storeimages", "shop.png"])), Some(&b"new".to_vec()));
    assert_eq!(fs.read_file(&path(&["sounds", "hit.wav"])), Some(&b"old".to_vec()));
}

#[test]
fn install_twice_gives_same_state() {
    let mut fs = DirTree::new();
    fs.set_file(path(&["userdata", "save.dat"]), b"my save".to_vec());
    let entries = vec![
        file_entry("bin/client.exe", b"new client"),
        file_entry("userdata/save.dat", b"factory save"),
        file_entry("data/config.ini", b"x=1"),
    ];
    assert!(apply_archive(&mut fs, &entries).is_ok());
    let once: Vec<(Vec<Vec<u8>>, Vec<u8>)> = [
        path(&["bin", "client.exe"]),
        path(&["userdata", "save.dat"]),
        path(&["data", "config.ini"]),
    ]
    .into_iter()
    .map(|p| {
        let d = fs.read_file(&p).unwrap().clone();
        (p, d)
    })
    .collect();

    assert!(apply_archive(&mut fs, &entries).is_ok());
    for (p, d) in once {
        assert_eq!(fs.read_file(&p), Some(&d));
    }
}

#[test]
fn corrupt_entry_aborts_and_removes_partial_output() {
    let mut fs = DirTree::new();
    fs.set_file(path(&["bin", "client.exe"]), b"stale".to_vec());
    let entries = vec![
        file_entry("assets/a.png", b"picture"),
        ArchiveEntry::Corrupt { name: b"bin/client.exe".to_vec() },
        file_entry("assets/b.png", b"never written"),
    ];
    let r = apply_archive(&mut fs, &entries);
    assert_eq!(r, Err(UpdateError::CorruptEntry { index: 1 }));
    // the failing entry's output is removed, even the pre-existing file
    assert_eq!(fs.read_file(&path(&["bin", "client.exe"])), None);
    // entries before the failure were applied, later ones were not
    assert_eq!(fs.read_file(&path(&["assets", "a.png"])), Some(&b"picture".to_vec()));
    assert_eq!(fs.read_file(&path(&["assets", "b.png"])), None);
}

#[test]
fn corrupt_entry_on_preserved_file_is_skipped() {
    let mut fs = DirTree::new();
    fs.set_file(path(&["userdata", "save.dat"]), b"my save".to_vec());
    let entries = vec![ArchiveEntry::Corrupt { name: b"userdata/save.dat".to_vec() }];
    assert!(apply_archive(&mut fs, &entries).is_ok());
    assert_eq!(fs.read_file(&path(&["userdata", "save.dat"])), Some(&b"my save".to_vec()));
}

#[test]
fn unreadable_entry_aborts() {
    let mut fs = DirTree::new();
    let entries = vec![file_entry("a.txt", b"a"), ArchiveEntry::Unreadable];
    assert_eq!(apply_archive(&mut fs, &entries), Err(UpdateError::EntryUnreadable { index: 1 }));
}

#[test]
fn traversal_entries_are_skipped_not_fatal() {
    let mut fs = DirTree::new();
    let entries = vec![
        file_entry("../evil.txt", b"evil"),
        file_entry("/abs.txt", b"evil"),
        file_entry("ok.txt", b"fine"),
    ];
    assert!(apply_archive(&mut fs, &entries).is_ok());
    assert_eq!(fs.read_file(&path(&["ok.txt"])), Some(&b"fine".to_vec()));
    assert_eq!(fs.read_file(&path(&["evil.txt"])), None);
}

#[test]
fn directory_entries_create_directories() {
    let mut fs = DirTree::new();
    let entries = vec![
        file_entry("assets/", b""),
        file_entry("data/deep/file.txt", b"x"),
    ];
    assert!(apply_archive(&mut fs, &entries).is_ok());
    assert!(fs.contains_dir(&path(&["assets"])));
    assert!(fs.contains_dir(&path(&["data"])));
    assert!(fs.contains_dir(&path(&["data", "deep"])));
    assert_eq!(fs.read_file(&path(&["data", "deep", "file.txt"])), Some(&b"x".to_vec()));
}

#[test]
fn launch_requires_installed_executable() {
    let fs = DirTree::new();
    assert_eq!(check_launch(&fs), Err(LaunchError::NotInstalled));

    let mut fs2 = DirTree::new();
    fs2.set_file(path(&["bin", "client.exe"]), b"client".to_vec());
    assert_eq!(check_launch(&fs2), Ok(()));
}

#[test]
fn server_config_renders_host_and_port() {
    assert_eq!(
        render_server_config(&b"login.example.com".to_vec(), 7171),
        b"login.example.com:7171\n".to_vec()
    );
    assert_eq!(render_server_config(&b"h".to_vec(), 0), b"h:0\n".to_vec());
    assert_eq!(render_server_config(&b"h".to_vec(), 65535), b"h:65535\n".to_vec());
}

#[test]
fn server_config_is_overwritten_unconditionally() {
    let mut fs = DirTree::new();
    write_server_config(&mut fs, &b"a.example".to_vec(), 7171);
    write_server_config(&mut fs, &b"b.example".to_vec(), 7172);
    assert_eq!(fs.read_file(&path(&["server.cfg"])), Some(&b"b.example:7172\n".to_vec()));
}
