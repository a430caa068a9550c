use std::io::Write;

use markdown::world::{
    after_download, after_unpack, decompress_package, face_count, package_subdir, package_url,
    Compiler, FetchAction, PackageFailure, WorldError,
};

#[test]
fn the_file_table_serves_what_was_inserted() {
    let mut c = Compiler::new(".cache".to_string());
    assert!(c.lookup_bytes("preview/example/0.1.0/lib.typ").is_none());
    c.insert_file("preview/example/0.1.0/lib.typ".to_string(), b"#let x = 1".to_vec());
    let b = c.lookup_bytes("preview/example/0.1.0/lib.typ").unwrap();
    assert_eq!(b, b"#let x = 1");
}

#[test]
fn an_identifier_keeps_its_first_contents() {
    let mut c = Compiler::new(String::new());
    c.insert_file("k".to_string(), vec![1]);
    c.insert_file("k".to_string(), vec![2]);
    assert_eq!(c.lookup_bytes("k").unwrap(), &vec![1]);
}

#[test]
fn text_is_decoded_lazily_and_exactly() {
    let mut c = Compiler::new(String::new());
    c.insert_file("a.typ".to_string(), "grüße".as_bytes().to_vec());
    assert_eq!(c.lookup_source("a.typ").unwrap(), Some("grüße".to_string()));
    // a second read is served from the remembered decoding
    assert_eq!(c.lookup_source("a.typ").unwrap(), Some("grüße".to_string()));
    assert_eq!(c.lookup_source("missing").unwrap(), None);
}

#[test]
fn non_utf8_bytes_are_a_distinct_error() {
    let mut c = Compiler::new(String::new());
    c.insert_file("bin".to_string(), vec![0xff, 0xfe, 0x00]);
    assert_eq!(c.lookup_source("bin"), Err(WorldError::InvalidUtf8));
    // the bytes themselves stay readable
    assert_eq!(c.lookup_bytes("bin").unwrap(), &vec![0xff, 0xfe, 0x00]);
}

#[test]
fn package_paths_and_urls_follow_the_fixed_scheme() {
    assert_eq!(package_subdir("preview", "cetz", "0.2.2"), "preview/cetz/0.2.2");
    assert_eq!(
        package_url("preview", "cetz", "0.2.2"),
        "https://packages.typst.org/preview/cetz-0.2.2.tar.gz"
    );
}

#[test]
fn sound_archives_decompress_to_their_contents() {
    let payload = b"a tar archive would be here".to_vec();
    let mut enc = flate2::write::GzEncoder::new(Vec::new(), flate2::Compression::default());
    enc.write_all(&payload).unwrap();
    let gz = enc.finish().unwrap();
    let out = decompress_package(&gz).expect("sound gzip data must decompress");
    assert_eq!(out, payload);
}

#[test]
fn malformed_archives_fail_without_touching_disk_state() {
    let r = decompress_package(&vec![0, 1, 2, 3]);
    match r {
        Err(PackageFailure::MalformedArchive(_)) => {},
        other => panic!("expected a malformed-archive failure, got {:?}", other),
    }
    // the decision layer then fails without an unpack step, so no target
    // directory ever exists for this fetch
    match after_download(Ok(vec![0, 1, 2, 3])) {
        FetchAction::Fail(PackageFailure::MalformedArchive(_)) => {},
        other => panic!("expected failure before unpack, got {:?}", other),
    }
}

#[test]
fn download_errors_fail_before_anything_exists() {
    match after_download(Err("connection refused".to_string())) {
        FetchAction::Fail(PackageFailure::NetworkFailed(e)) => {
            assert_eq!(e, "connection refused")
        },
        other => panic!("expected a network failure, got {:?}", other),
    }
}

#[test]
fn good_downloads_go_on_to_the_unpacker() {
    let payload = b"tar bytes".to_vec();
    let mut enc = flate2::write::GzEncoder::new(Vec::new(), flate2::Compression::default());
    enc.write_all(&payload).unwrap();
    let gz = enc.finish().unwrap();
    match after_download(Ok(gz)) {
        FetchAction::Unpack(t) => assert_eq!(t, payload),
        other => panic!("expected an unpack step, got {:?}", other),
    }
}

#[test]
fn unpack_failures_demand_directory_cleanup() {
    match after_unpack(Err("truncated entry".to_string())) {
        Some(FetchAction::CleanupAndFail(PackageFailure::MalformedArchive(e))) => {
            assert_eq!(e, "truncated entry")
        },
        other => panic!("expected cleanup before the error, got {:?}", other),
    }
    assert!(after_unpack(Ok(())).is_none());
}

#[test]
fn plain_font_buffers_count_as_one_face() {
    assert_eq!(face_count(&vec![0u8; 16]), 1);
    assert_eq!(face_count(&vec![]), 1);
}

#[test]
fn collection_headers_report_their_face_count() {
    // a minimal ttc header: tag, version 1.0, and a face count of 3
    let mut data = b"ttcf".to_vec();
    data.extend_from_slice(&[0x00, 0x01, 0x00, 0x00]);
    data.extend_from_slice(&[0x00, 0x00, 0x00, 0x03]);
    data.extend_from_slice(&[0u8; 12]);
    assert_eq!(face_count(&data), 3);
}

#[test]
fn unknown_plain_identifiers_are_not_found() {
    let mut c = Compiler::new(String::new());
    assert_eq!(c.resolve_file("nowhere.typ"), Err(WorldError::NotFound));
    c.insert_file("here.typ".to_string(), b"ok".to_vec());
    assert_eq!(c.resolve_file("here.typ"), Ok("ok".to_string()));
}
