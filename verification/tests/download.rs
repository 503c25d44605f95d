use proxmox_imgctl::download::{
    checksum_matches, digest_hex, fetch_step, parse_sums, FetchAction, FetchEvent, FetchState,
};

const UBUNTU: &str = "abc123 *noble-server-cloudimg-amd64.img\ndef456 *noble-server-cloudimg-arm64.img\n";
const DEBIAN: &str = "# comment\n\n0011aa  debian-12-generic-amd64.qcow2\n2233bb  debian-12-generic-arm64.qcow2\r\n";

#[test]
fn sums_are_found_by_filename() {
    assert_eq!(parse_sums(UBUNTU, "noble-server-cloudimg-amd64.img").as_deref(), Some("abc123"));
    assert_eq!(parse_sums(UBUNTU, "noble-server-cloudimg-arm64.img").as_deref(), Some("def456"));
    assert_eq!(parse_sums(DEBIAN, "debian-12-generic-amd64.qcow2").as_deref(), Some("0011aa"));
    assert_eq!(parse_sums(DEBIAN, "debian-12-generic-arm64.qcow2").as_deref(), Some("2233bb"));
    assert_eq!(parse_sums(DEBIAN, "missing.qcow2"), None);
    assert_eq!(parse_sums("", "x"), None);
}

#[test]
fn a_line_with_one_field_ends_the_search() {
    assert_eq!(parse_sums("lonely\nabc x\n", "x"), None);
    assert_eq!(parse_sums("abc x\nlonely\n", "x").as_deref(), Some("abc"));
}

#[test]
fn checksums_compare_without_case() {
    assert!(checksum_matches("ABCdef01", "abcDEF01"));
    assert!(!checksum_matches("abc", "abcd"));
    assert!(!checksum_matches("abc", "abd"));
}

#[test]
fn cached_image_is_used_only_when_it_matches() {
    let (s, a) = fetch_step(&FetchState::Start, &FetchEvent::Begin { dry_run: false });
    assert!(matches!(a, FetchAction::FetchExpectedHash));
    let (s, a) = fetch_step(&s, &FetchEvent::ExpectedHash("0aBc".to_string()));
    assert!(matches!(a, FetchAction::CheckCache));
    let (done, a) = fetch_step(&s, &FetchEvent::CacheDigest(vec![0x0a, 0xbc]));
    assert!(matches!(a, FetchAction::UseCached));
    assert!(matches!(done, FetchState::Done));
    let (s2, a) = fetch_step(&s, &FetchEvent::CacheDigest(vec![0x0a, 0xbd]));
    assert!(matches!(a, FetchAction::DiscardCachedAndDownload));
    let (failed, a) = fetch_step(&s2, &FetchEvent::DownloadDigest(vec![0xff, 0x01, 0x20]));
    assert!(matches!(failed, FetchState::Failed));
    match a {
        FetchAction::RejectDownload { expected, actual } => {
            assert_eq!(expected, "0aBc");
            assert_eq!(actual, "ff0120");
        }
        _ => panic!("expected a rejected download"),
    }
    let (_, a) = fetch_step(&s2, &FetchEvent::DownloadDigest(vec![0x0a, 0xbc]));
    assert!(matches!(a, FetchAction::AcceptDownload));
}

#[test]
fn dry_run_and_stray_events() {
    let (s, a) = fetch_step(&FetchState::Start, &FetchEvent::Begin { dry_run: true });
    assert!(matches!(s, FetchState::Done));
    assert!(matches!(a, FetchAction::ReportDryRun));
    let (s, a) = fetch_step(&FetchState::Start, &FetchEvent::CacheAbsent);
    assert!(matches!(s, FetchState::Failed));
    assert!(matches!(a, FetchAction::Abort));
    let (s, a) = fetch_step(&FetchState::AwaitingCache("x".to_string()), &FetchEvent::CacheAbsent);
    assert!(matches!(s, FetchState::AwaitingDownload(ref e) if e == "x"));
    assert!(matches!(a, FetchAction::Download));
}

#[test]
fn digests_are_written_in_lower_case_hex() {
    assert_eq!(digest_hex(&[0x00, 0x9f, 0xa5, 0xff]), "009fa5ff");
    assert_eq!(digest_hex(&[]), "");
}
