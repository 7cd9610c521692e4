use mcmodgetter::digest::HexError;
use mcmodgetter::download::{
    accept_fetched, collect_download_errors, count_unverified, download_already_exists,
    download_file, verify_file, DownloadStep, LocalFile,
};
use mcmodgetter::modrinth::{
    DownloadError, FileVerification, Mod, ModrinthFile, ModrinthFileHash, Project, Version,
};

const ABC_SHA512: &str = "ddaf35a193617abacc417349ae20413112e6fa4e89a97ea20a9eeee64b55d39a\
2192992a274fc1a836ba3c23a3feebbd454d4423643ce80e2a9ac94fa54ca49f";

const EMPTY_SHA512: &str = "cf83e1357eefb8bdf1542850d66d8007d620e4050b5715dc83f4a921d36ce9ce\
47d0d13c5d85f2b0ff8318d2877eec2f63b931bd47417a81a538327af927da3e";

fn abc_file() -> ModrinthFile {
    ModrinthFile::new(
        "https://cdn.example/abc.jar".to_string(),
        "abc.jar".to_string(),
        true,
        ModrinthFileHash::from_hex(ABC_SHA512).unwrap(),
    )
}

fn abc_mod() -> Mod {
    let project = Project::new("abc".to_string(), "Abc".to_string(), "letters".to_string());
    let version = Version::new(
        "V1".to_string(),
        "abc".to_string(),
        "Abc 1".to_string(),
        "1.0".to_string(),
        vec![abc_file()],
        Vec::new(),
    );
    Mod::build_from_version(project, version).unwrap()
}

#[test]
fn hex_digits_of_both_cases_are_read() {
    let hash = ModrinthFileHash::from_hex("00ff10aBCdEf").unwrap();
    assert!(hash.check512(&[0x00, 0xff, 0x10, 0xab, 0xcd, 0xef]));
    assert!(!hash.check512(&[0x00, 0xff, 0x10, 0xab, 0xcd, 0xee]));
    assert!(!hash.check512(&[0x00, 0xff, 0x10, 0xab, 0xcd]));
}

#[test]
fn empty_hex_text_is_the_empty_digest() {
    let hash = ModrinthFileHash::from_hex("").unwrap();
    assert!(hash.check512(&[]));
    assert!(!hash.check512(&[0]));
}

#[test]
fn hex_text_of_odd_length_is_refused() {
    assert_eq!(ModrinthFileHash::from_hex("123").unwrap_err(), HexError::OddLength);
    assert_eq!(ModrinthFileHash::from_hex("g").unwrap_err(), HexError::OddLength);
}

#[test]
fn the_first_bad_hex_digit_is_named() {
    assert_eq!(
        ModrinthFileHash::from_hex("0g1h").unwrap_err(),
        HexError::InvalidHexCharacter { c: 'g', index: 1 }
    );
    assert_eq!(
        ModrinthFileHash::from_hex("x0").unwrap_err(),
        HexError::InvalidHexCharacter { c: 'x', index: 0 }
    );
    assert_eq!(
        ModrinthFileHash::from_hex("00 1").unwrap_err(),
        HexError::InvalidHexCharacter { c: ' ', index: 2 }
    );
}

#[test]
fn a_bad_hex_digit_beyond_ascii_is_named_by_its_first_byte() {
    assert_eq!(
        ModrinthFileHash::from_hex("é").unwrap_err(),
        HexError::InvalidHexCharacter { c: '\u{c3}', index: 0 }
    );
}

#[test]
fn digest_given_as_bytes() {
    let hash = ModrinthFileHash::new(vec![1, 2, 3]);
    assert!(hash.check512(&[1, 2, 3]));
    assert!(!hash.check512(&[3, 2, 1]));
    assert!(hash.clone().check512(&[1, 2, 3]));
}

#[test]
fn known_bytes_are_verified() {
    let local = LocalFile::Contents(b"abc".to_vec());
    assert_eq!(verify_file(&abc_file(), &local), FileVerification::Verified);
    assert_eq!(abc_mod().verify_against(&local), FileVerification::Verified);
    assert!(download_already_exists(&local, &abc_file()));
}

#[test]
fn one_changed_byte_is_a_bad_hash() {
    let local = LocalFile::Contents(b"abd".to_vec());
    assert_eq!(verify_file(&abc_file(), &local), FileVerification::BadHash);
    assert_eq!(abc_mod().verify_against(&local), FileVerification::BadHash);
    assert!(!download_already_exists(&local, &abc_file()));
    let shorter = LocalFile::Contents(b"ab".to_vec());
    assert_eq!(verify_file(&abc_file(), &shorter), FileVerification::BadHash);
}

#[test]
fn a_missing_file_does_not_exist() {
    assert_eq!(verify_file(&abc_file(), &LocalFile::Missing), FileVerification::NotExists);
    assert_eq!(abc_mod().verify_against(&LocalFile::Missing), FileVerification::NotExists);
    assert!(!download_already_exists(&LocalFile::Missing, &abc_file()));
}

#[test]
fn an_unreadable_file_is_a_bad_file() {
    assert_eq!(verify_file(&abc_file(), &LocalFile::Unreadable), FileVerification::BadFile);
    assert_eq!(abc_mod().verify_against(&LocalFile::Unreadable), FileVerification::BadFile);
    assert!(!download_already_exists(&LocalFile::Unreadable, &abc_file()));
}

#[test]
fn the_empty_file_has_a_digest_too() {
    let file = ModrinthFile::new(
        String::new(),
        "empty".to_string(),
        false,
        ModrinthFileHash::from_hex(EMPTY_SHA512).unwrap(),
    );
    assert_eq!(
        verify_file(&file, &LocalFile::Contents(Vec::new())),
        FileVerification::Verified
    );
    assert_eq!(
        verify_file(&file, &LocalFile::Contents(b"abc".to_vec())),
        FileVerification::BadHash
    );
}

#[test]
fn a_digest_of_another_length_never_matches() {
    let file = ModrinthFile::new(
        String::new(),
        "short".to_string(),
        false,
        ModrinthFileHash::from_hex("ddaf35a1").unwrap(),
    );
    assert_eq!(
        verify_file(&file, &LocalFile::Contents(b"abc".to_vec())),
        FileVerification::BadHash
    );
}

#[test]
fn a_verified_file_is_not_fetched() {
    let local = LocalFile::Contents(b"abc".to_vec());
    assert_eq!(download_file(&abc_file(), &local), DownloadStep::AlreadyPresent);
    assert_eq!(abc_mod().download(&local), DownloadStep::AlreadyPresent);
}

#[test]
fn any_other_file_is_fetched_and_the_reason_is_kept() {
    assert_eq!(
        download_file(&abc_file(), &LocalFile::Missing),
        DownloadStep::Fetch(FileVerification::NotExists)
    );
    assert_eq!(
        download_file(&abc_file(), &LocalFile::Unreadable),
        DownloadStep::Fetch(FileVerification::BadFile)
    );
    assert_eq!(
        abc_mod().download(&LocalFile::Contents(b"stale".to_vec())),
        DownloadStep::Fetch(FileVerification::BadHash)
    );
}

#[test]
fn fetched_bytes_with_the_right_digest_are_written_as_they_are() {
    assert_eq!(accept_fetched(&abc_file(), Ok(b"abc".to_vec())).unwrap(), b"abc".to_vec());
    assert_eq!(abc_mod().accept_fetched(Ok(b"abc".to_vec())).unwrap(), b"abc".to_vec());
}

#[test]
fn fetched_bytes_with_another_digest_are_dropped() {
    match accept_fetched(&abc_file(), Ok(b"abd".to_vec())) {
        Err(DownloadError::BadHash(msg)) => {
            assert_eq!(msg, "Hashes do not match for file 'abc.jar'. Skipping download...")
        }
        other => panic!("unexpected: {other:?}"),
    }
    assert!(matches!(
        abc_mod().accept_fetched(Ok(Vec::new())),
        Err(DownloadError::BadHash(_))
    ));
}

#[test]
fn a_transport_error_is_a_bad_request() {
    match accept_fetched(&abc_file(), Err("connection reset".to_string())) {
        Err(DownloadError::BadRequest(msg)) => assert_eq!(msg, "connection reset"),
        other => panic!("unexpected: {other:?}"),
    }
}

#[test]
fn a_second_download_finds_nothing_to_do() {
    let entry = abc_mod();
    let mut disk = LocalFile::Missing;
    let mut fetches = 0;
    for _ in 0..2 {
        if let DownloadStep::Fetch(_) = entry.download(&disk) {
            fetches += 1;
            if let Ok(bytes) = entry.accept_fetched(Ok(b"abc".to_vec())) {
                disk = LocalFile::Contents(bytes);
            }
        }
    }
    assert_eq!(fetches, 1);
    assert!(matches!(disk, LocalFile::Contents(ref bytes) if bytes == b"abc"));
}

#[test]
fn a_refused_download_leaves_the_disk_alone() {
    let entry = abc_mod();
    let stale = LocalFile::Contents(b"stale".to_vec());
    assert_eq!(entry.download(&stale), DownloadStep::Fetch(FileVerification::BadHash));
    assert!(entry.accept_fetched(Ok(b"wrong".to_vec())).is_err());
    assert_eq!(entry.download(&stale), DownloadStep::Fetch(FileVerification::BadHash));
}

#[test]
fn download_error_messages() {
    assert_eq!(
        DownloadError::BadRequest("a".to_string()).message(),
        "[MODRINTH/DOWNLOAD/ERROR] Bad request: a"
    );
    assert_eq!(
        DownloadError::BadFile("b".to_string()).message(),
        "[MODRINTH/DOWNLOAD/ERROR] Bad file: b"
    );
    assert_eq!(
        DownloadError::BadHash("c".to_string()).message(),
        "[MODRINTH/DOWNLOAD/ERROR] Bad hash: c"
    );
}

#[test]
fn errors_of_a_batch_are_gathered_in_order() {
    let outcomes = vec![
        Ok(()),
        Err(DownloadError::BadHash("one".to_string())),
        Ok(()),
        Err(DownloadError::BadRequest("two".to_string())),
    ];
    let errors = collect_download_errors(outcomes);
    assert_eq!(errors.len(), 2);
    assert!(matches!(&errors[0], DownloadError::BadHash(msg) if msg == "one"));
    assert!(matches!(&errors[1], DownloadError::BadRequest(msg) if msg == "two"));
    assert!(collect_download_errors(Vec::new()).is_empty());
}

#[test]
fn unverified_files_are_counted() {
    assert_eq!(count_unverified(&Vec::new()), 0);
    assert_eq!(
        count_unverified(&vec![
            FileVerification::Verified,
            FileVerification::NotExists,
            FileVerification::Verified,
            FileVerification::BadHash,
            FileVerification::BadFile,
        ]),
        3
    );
    assert_eq!(count_unverified(&vec![FileVerification::Verified; 4]), 0);
}
