use pypes::locator::{to_lower_hex, accept_component, check_digest, module_source, parse_remote_locator, plan_fetch, verify_checksum, expected_checksum, FetchError, FetchPlan, ModuleSource};

const ABC_SHA256: &str = "ba7816bf8f01cfea414140de5dae2223b00361a396177a9cb410ff61f20015ad";

#[test]
fn parses_remote_locator() {
    let l = parse_remote_locator("remote://localhost:9000/reader@1.0.0").unwrap();
    assert_eq!(l.host, "localhost:9000");
    assert_eq!(l.name, "reader");
    assert_eq!(l.version, "1.0.0");
    assert_eq!(l.cache_key(), "localhost:9000/reader@1.0.0");
    assert_eq!(l.base_url(), "http://localhost:9000/reader/1.0.0");
    assert_eq!(l.file_url("manifest.toml"), "http://localhost:9000/reader/1.0.0/manifest.toml");
}

#[test]
fn non_local_registry_uses_https() {
    let l = parse_remote_locator("remote://registry.example.com/skill@2.1").unwrap();
    assert_eq!(l.base_url(), "https://registry.example.com/skill/2.1");
}

#[test]
fn bad_locators_are_rejected() {
    assert_eq!(parse_remote_locator("http://x/a@1").unwrap_err(), FetchError::BadUri);
    assert_eq!(parse_remote_locator("remote://hostonly").unwrap_err(), FetchError::BadUri);
    assert_eq!(parse_remote_locator("remote://h/name").unwrap_err(), FetchError::BadUri);
    assert_eq!(parse_remote_locator("remote://h/a@b@c").unwrap_err(), FetchError::BadUri);
    assert_eq!(parse_remote_locator("remote://h/n@1/x").unwrap_err(), FetchError::BadUri);
    assert_eq!(parse_remote_locator("remote://h/n@1/").unwrap_err(), FetchError::BadUri);
}

#[test]
fn local_paths_pass_through() {
    match module_source("components/reader.wasm").unwrap() {
        ModuleSource::Local(p) => assert_eq!(p, "components/reader.wasm"),
        other => panic!("{:?}", other),
    }
    assert!(matches!(module_source("remote://h/a@1").unwrap(), ModuleSource::Remote(_)));
}

#[test]
fn cache_hit_downloads_nothing() {
    let l = parse_remote_locator("remote://localhost:9000/reader@1.0.0").unwrap();
    let cold = plan_fetch(&l, false);
    let warm = plan_fetch(&l, true);
    match (cold, warm) {
        (FetchPlan::Download { cache_key: a, component_url, .. }, FetchPlan::UseCached { cache_key: b }) => {
            assert_eq!(a, b);
            assert_eq!(component_url, "http://localhost:9000/reader/1.0.0/component.wasm");
        }
        other => panic!("{:?}", other),
    }
}

#[test]
fn checksum_of_known_bytes() {
    assert_eq!(verify_checksum(b"abc", &format!("sha256:{}", ABC_SHA256)), Ok(true));
    assert_eq!(verify_checksum(b"abc", &format!("sha256:{}", ABC_SHA256.to_uppercase())), Ok(true));
    assert_eq!(verify_checksum(b"abd", &format!("sha256:{}", ABC_SHA256)), Ok(false));
    assert_eq!(verify_checksum(b"abc", "md5:900150983cd24fb0"), Err(FetchError::UnsupportedHashAlgorithm));
}

#[test]
fn digest_comparison_ignores_case_only() {
    assert_eq!(check_digest("abcd", "sha256:ABCD"), Ok(true));
    assert_eq!(check_digest("abcd", "sha256:abce"), Ok(false));
    assert_eq!(check_digest("abcd", "sha256:abcde"), Ok(false));
    assert_eq!(check_digest("abcd", "sha1:abcd"), Err(FetchError::UnsupportedHashAlgorithm));
}

#[test]
fn tampered_component_is_refused() {
    assert_eq!(accept_component(b"served bytes", "sha256:abcd"), Err(FetchError::ChecksumMismatch));
    let mut good = b"abc".to_vec();
    assert_eq!(accept_component(&good, &format!("sha256:{}", ABC_SHA256)), Ok(()));
    good[1] ^= 1;
    assert_eq!(accept_component(&good, &format!("sha256:{}", ABC_SHA256)), Err(FetchError::ChecksumMismatch));
}

#[test]
fn missing_manifest_checksum() {
    assert_eq!(expected_checksum(None), Err(FetchError::ManifestMissingChecksum));
    assert_eq!(expected_checksum(Some("sha256:00".to_string())), Ok("sha256:00".to_string()));
}

#[test]
fn hex_encoding_is_lowercase_two_digits_per_byte() {
    assert_eq!(to_lower_hex(&vec![0x0f, 0xa0, 0x00, 0xff]), "0fa000ff");
    assert_eq!(to_lower_hex(&vec![]), "");
}
