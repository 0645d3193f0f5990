use fml::acquire::{
    declares_checksum, destination_path, download_url, verify_download, AcquireError,
    DownloadProgress,
};
use fml::catalog::Release;
use fml::sha1::{checksum, checksum_of};
use fml::version::Version;

fn release(sha1: &str) -> Release {
    Release {
        download_url: "/download/bob/5a5f".to_string(),
        file_name: "bob_1.0.0.zip".to_string(),
        version: Version::new(1, 0, 0),
        factorio_version: "1.1".to_string(),
        sha1: sha1.to_string(),
        dependencies: vec![],
    }
}

#[test]
fn sha1_of_known_messages() {
    assert_eq!(checksum(&Vec::new()), "da39a3ee5e6b4b0d3255bfef95601890afd80709");
    assert_eq!(checksum(&b"abc".to_vec()), "a9993e364706816aba3e25717850c26c9cd0d89d");
    assert_eq!(
        checksum(&b"The quick brown fox jumps over the lazy dog".to_vec()),
        "2fd4e1c67a2d28fced849ee1bb76e7391b93eb12"
    );
    assert_eq!(
        checksum(&b"abcdbcdecdefdefgefghfghighijhijkijkljklmklmnlmnomnopnopq".to_vec()),
        "84983e441c3bd26ebaae4aa1f95129e5e54670f1"
    );
}

#[test]
fn sha1_at_the_block_boundaries() {
    let a55: Vec<u8> = vec![b'a'; 55];
    let a56: Vec<u8> = vec![b'a'; 56];
    let a64: Vec<u8> = vec![b'a'; 64];
    assert_eq!(checksum(&a55), "c1c8bbdc22796e28c0e15163d20899b65621d65a");
    assert_eq!(checksum(&a56), "c2db330f6083854c99d4b5bfb6e8f29f201be699");
    assert_eq!(checksum(&a64), "0098ba824b5c16427bd7a1122a5a442a25ec644d");
    let million: Vec<u8> = vec![b'a'; 1_000_000];
    assert_eq!(checksum_of(&million).unwrap(), "34aa973cd4c4daa4f61eeb2bdbad27316534016f");
}

#[test]
fn download_url_carries_the_credentials() {
    assert_eq!(
        download_url(&release(""), "alice", "s3cr3t"),
        "https://mods.factorio.com/download/bob/5a5f?username=alice&token=s3cr3t"
    );
    assert_eq!(destination_path(&release(""), "/opt/factorio/mods"), "/opt/factorio/mods/bob_1.0.0.zip");
}

#[test]
fn progress_is_a_floor_of_the_part_that_arrived() {
    let mut p = DownloadProgress::new(Some(1000));
    assert_eq!(p.percent(), 0);
    assert_eq!(p.advance(1), 0);
    assert_eq!(p.advance(9), 1);
    assert_eq!(p.advance(323), 33);
    assert_eq!(p.advance(666), 99);
    assert_eq!(p.advance(1), 100);
    assert_eq!(p.advance(5000), 100);
    assert_eq!(p.downloaded, 1000);
}

#[test]
fn progress_without_a_length_does_not_fail() {
    let mut p = DownloadProgress::new(None);
    assert_eq!(p.total, 1);
    assert_eq!(p.advance(0), 0);
    assert_eq!(p.advance(4096), 100);
    assert_eq!(p.advance(4096), 100);
    let mut empty = DownloadProgress::new(Some(0));
    assert_eq!(empty.advance(10), 0);
    let mut huge = DownloadProgress::new(Some(u64::MAX));
    assert_eq!(huge.advance(usize::MAX), if usize::MAX as u64 == u64::MAX { 100 } else { 0 });
}

#[test]
fn checksum_mismatch_is_an_integrity_error() {
    let r = release("a9993e364706816aba3e25717850c26c9cd0d89d");
    assert!(declares_checksum(&r));
    assert!(verify_download(&r, "a9993e364706816aba3e25717850c26c9cd0d89d", true).is_ok());
    match verify_download(&r, "da39a3ee5e6b4b0d3255bfef95601890afd80709", true) {
        Err(AcquireError::IntegrityMismatch { expected, actual }) => {
            assert_eq!(expected, "a9993e364706816aba3e25717850c26c9cd0d89d");
            assert_eq!(actual, "da39a3ee5e6b4b0d3255bfef95601890afd80709");
        }
        _ => panic!("an integrity error was expected"),
    }
    assert!(matches!(
        verify_download(&r, "da39a3ee5e6b4b0d3255bfef95601890afd80709", false),
        Err(AcquireError::IntegrityMismatch { .. })
    ));
}

#[test]
fn archive_is_checked_with_or_without_checksum() {
    let with = release("a9993e364706816aba3e25717850c26c9cd0d89d");
    let without = release("");
    assert!(!declares_checksum(&without));
    assert!(matches!(
        verify_download(&with, "a9993e364706816aba3e25717850c26c9cd0d89d", false),
        Err(AcquireError::CorruptArchive)
    ));
    assert!(matches!(verify_download(&without, "anything", false), Err(AcquireError::CorruptArchive)));
    assert!(verify_download(&without, "anything", true).is_ok());
    assert!(verify_download(&without, "", true).is_ok());
}
