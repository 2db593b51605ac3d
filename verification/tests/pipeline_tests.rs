use std::io::Write;

use client_updater::errors::UpdateError;
use client_updater::procname::process_name_matches;
use client_updater::pipeline::{
    InstallState, ProgressEvent, Stage, download_percent, entry_percent, install,
};

fn path(parts: &[&str]) -> Vec<Vec<u8>> {
    parts.iter().map(|s| s.as_bytes().to_vec()).collect()
}

fn build_zip(files: &[(&str, &[u8])]) -> Vec<u8> {
    let mut w = zip::ZipWriter::new(std::io::Cursor::new(Vec::new()));
    let opts = zip::write::FileOptions::default()
        .compression_method(zip::CompressionMethod::Stored);
    for (name, data) in files {
        w.start_file(*name, opts).unwrap();
        w.write_all(data).unwrap();
    }
    w.finish().unwrap().into_inner()
}

#[test]
fn empty_payload_fails_before_anything_is_written() {
    let mut st = InstallState::new();
    let (events, r) = install(&mut st, &Vec::new(), &b"1.2.0".to_vec());
    assert_eq!(r, Err(UpdateError::EmptyPayload));
    assert!(events.is_empty());
    assert_eq!(st.marker, None);
    assert_eq!(st.archive_file, None);
    assert!(st.tree.files.is_empty());
    assert!(st.tree.dirs.is_empty());
}

#[test]
fn garbage_payload_is_not_an_archive() {
    let mut st = InstallState::new();
    let payload = b"this is not a zip file".to_vec();
    let (events, r) = install(&mut st, &payload, &b"1.2.0".to_vec());
    assert_eq!(r, Err(UpdateError::ArchiveUnreadable));
    // the archive file was saved and, as after any late failure, kept
    assert_eq!(st.archive_file, Some(payload));
    assert_eq!(st.marker, None);
    assert_eq!(
        events,
        vec![
            ProgressEvent { stage: Stage::Saving, percent: 100 },
            ProgressEvent { stage: Stage::Extracting, percent: 0 },
        ]
    );
}

#[test]
fn successful_install_extracts_and_records_version() {
    let payload = build_zip(&[
        ("bin/client.exe", b"the client"),
        ("assets/logo.png", b"logo"),
        ("userdata/notes.txt", b"notes"),
    ]);
    let mut st = InstallState::new();
    let (events, r) = install(&mut st, &payload, &b"1.2.0".to_vec());
    assert_eq!(r, Ok(()));
    assert_eq!(st.current_version(), b"1.2.0".to_vec());
    assert_eq!(st.archive_file, None);
    assert_eq!(
        st.tree.read_file(&path(&["bin", "client.exe"])),
        Some(&b"the client".to_vec())
    );
    assert_eq!(st.tree.read_file(&path(&["assets", "logo.png"])), Some(&b"logo".to_vec()));
    assert_eq!(st.tree.read_file(&path(&["userdata", "notes.txt"])), Some(&b"notes".to_vec()));

    assert_eq!(events.first(), Some(&ProgressEvent { stage: Stage::Saving, percent: 100 }));
    assert_eq!(events.last(), Some(&ProgressEvent { stage: Stage::Complete, percent: 100 }));
    assert!(events.contains(&ProgressEvent { stage: Stage::Finalizing, percent: 100 }));
    let extracting: Vec<&ProgressEvent> =
        events.iter().filter(|e| e.stage == Stage::Extracting).collect();
    // one leading event, one per entry, and a closing 100% event
    assert_eq!(extracting.len(), 1 + 3 + 1);
    assert_eq!(extracting[1].percent, 0);
    assert_eq!(extracting[2].percent, 33);
    assert_eq!(extracting[3].percent, 66);
    assert_eq!(extracting[4].percent, 100);
}

#[test]
fn install_is_idempotent_on_real_archives() {
    let payload = build_zip(&[
        ("bin/client.exe", b"the client"),
        ("userdata/notes.txt", b"notes"),
    ]);
    let mut st = InstallState::new();
    assert_eq!(install(&mut st, &payload, &b"1.2.0".to_vec()).1, Ok(()));
    let files_once = st.tree.files.len();
    assert_eq!(install(&mut st, &payload, &b"1.2.0".to_vec()).1, Ok(()));
    assert_eq!(st.tree.files.len(), files_once);
    assert_eq!(
        st.tree.read_file(&path(&["bin", "client.exe"])),
        Some(&b"the client".to_vec())
    );
    assert_eq!(st.current_version(), b"1.2.0".to_vec());
}

#[test]
fn corrupt_entry_fails_install_and_leaves_version_unchanged() {
    let content = b"AAAA-THE-CLIENT-BYTES-AAAA";
    let payload = build_zip(&[("assets/ok.txt", b"fine"), ("bin/client.exe", content)]);
    // flip a byte inside the stored entry data so its checksum fails
    let pos = payload
        .windows(content.len())
        .position(|w| w == content)
        .expect("stored entry bytes present");
    let mut corrupted = payload.clone();
    corrupted[pos] ^= 0xff;

    let mut st = InstallState::new();
    st.marker = Some(b"1.0.0".to_vec());
    let (_events, r) = install(&mut st, &corrupted, &b"1.2.0".to_vec());
    assert_eq!(r, Err(UpdateError::CorruptEntry { index: 1 }));
    // the partial output of the failing entry is gone
    assert_eq!(st.tree.read_file(&path(&["bin", "client.exe"])), None);
    // earlier entries were extracted
    assert_eq!(st.tree.read_file(&path(&["assets", "ok.txt"])), Some(&b"fine".to_vec()));
    // the version marker is untouched, so the update stays pending
    assert_eq!(st.current_version(), b"1.0.0".to_vec());
}

#[test]
fn end_to_end_update_flow() {
    let mut st = InstallState::new();
    st.marker = Some(b"1.0.0".to_vec());
    let current = String::from_utf8(st.current_version()).unwrap();
    let d = client_updater::resolver::decide_update(
        current,
        "1.2.0".to_string(),
        "http://x/c.zip".to_string(),
    );
    assert!(d.available);
    assert_eq!(d.current_version, "1.0.0");
    assert_eq!(d.latest_version.as_deref(), Some("1.2.0"));
    assert_eq!(d.download_url.as_deref(), Some("http://x/c.zip"));

    let payload = build_zip(&[("bin/client.exe", b"the client")]);
    assert_eq!(install(&mut st, &payload, &b"1.2.0".to_vec()).1, Ok(()));
    assert_eq!(st.current_version(), b"1.2.0".to_vec());

    let after = String::from_utf8(st.current_version()).unwrap();
    let d2 = client_updater::resolver::decide_update(
        after,
        "1.2.0".to_string(),
        "http://x/c.zip".to_string(),
    );
    assert!(!d2.available);
}

#[test]
fn empty_archive_installs_nothing_but_records_version() {
    let payload = build_zip(&[]);
    let mut st = InstallState::new();
    let (events, r) = install(&mut st, &payload, &b"2.0.0".to_vec());
    assert_eq!(r, Ok(()));
    assert!(st.tree.files.is_empty());
    assert_eq!(st.current_version(), b"2.0.0".to_vec());
    // extraction closes at 100% even with nothing to extract
    assert!(events.contains(&ProgressEvent { stage: Stage::Extracting, percent: 100 }));
    assert_eq!(events.last(), Some(&ProgressEvent { stage: Stage::Complete, percent: 100 }));
}

#[test]
fn percentages() {
    assert_eq!(download_percent(0, 10), 0);
    assert_eq!(download_percent(5, 10), 50);
    assert_eq!(download_percent(10, 10), 100);
    assert_eq!(download_percent(15, 10), 100);
    assert_eq!(entry_percent(0, 3), 0);
    assert_eq!(entry_percent(1, 3), 33);
    assert_eq!(entry_percent(3, 3), 100);
}

#[test]
fn process_names_match_case_insensitively_with_exe_suffix() {
    assert!(process_name_matches("client", "client"));
    assert!(process_name_matches("CLIENT.EXE", "client"));
    assert!(process_name_matches("Client", "CLIENT"));
    assert!(!process_name_matches("clientele", "client"));
    assert!(!process_name_matches("client", "client.exe.exe"));
}

#[test]
fn errors_describe_themselves() {
    assert!(!UpdateError::EmptyPayload.describe().is_empty());
    assert!(!UpdateError::ArchiveUnreadable.describe().is_empty());
    assert!(!UpdateError::CorruptEntry { index: 3 }.describe().is_empty());
    assert!(!UpdateError::EntryUnreadable { index: 3 }.describe().is_empty());
    assert!(!client_updater::errors::LaunchError::NotInstalled.describe().is_empty());
}

#[test]
fn entry_demanding_a_password_is_an_error_not_a_panic() {
    let content = b"KEEP-OUT-CONTENT";
    let mut payload = build_zip(&[("bin/client.exe", content)]);
    // set the encryption flag in the local and central file headers
    let lpos = payload.windows(4).position(|w| w == b"PK\x03\x04").unwrap();
    payload[lpos + 6] |= 1;
    let cpos = payload.windows(4).position(|w| w == b"PK\x01\x02").unwrap();
    payload[cpos + 8] |= 1;

    let mut st = InstallState::new();
    st.marker = Some(b"1.0.0".to_vec());
    let (_events, r) = install(&mut st, &payload, &b"2.0.0".to_vec());
    // the entry cannot be read without its password: an error, never a panic
    assert!(matches!(
        r,
        Err(UpdateError::EntryUnreadable { index: 0 }) | Err(UpdateError::CorruptEntry { index: 0 })
    ));
    // and the version marker stays untouched
    assert_eq!(st.current_version(), b"1.0.0".to_vec());
}

#[test]
fn unsupported_compression_method_is_an_error_not_a_panic() {
    let payload = build_zip(&[("bin/client.exe", b"the client")]);
    // rewrite the compression method in both headers to one no reader handles
    let mut patched = payload.clone();
    let lpos = patched.windows(4).position(|w| w == b"PK\x03\x04").unwrap();
    patched[lpos + 8] = 1;
    patched[lpos + 9] = 0;
    let cpos = patched.windows(4).position(|w| w == b"PK\x01\x02").unwrap();
    patched[cpos + 10] = 1;
    patched[cpos + 11] = 0;

    let mut st = InstallState::new();
    st.marker = Some(b"1.0.0".to_vec());
    let (_events, r) = install(&mut st, &patched, &b"2.0.0".to_vec());
    assert!(matches!(
        r,
        Err(UpdateError::EntryUnreadable { index: 0 }) | Err(UpdateError::CorruptEntry { index: 0 })
    ));
    assert_eq!(st.current_version(), b"1.0.0".to_vec());
}
