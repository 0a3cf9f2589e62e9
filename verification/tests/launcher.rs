use brongnal::vtpm::{measure_image, measure_remote_image, obtain_certificate, MockVtpm, RealVtpm, Vtpm, VtpmError};

#[test]
fn test_mock_vtpm_extend() {
    let mut vtpm = MockVtpm::new();
    let digest = [0xAA; 32];
    vtpm.extend_pcr(14, &digest).unwrap();
    assert_eq!(vtpm.extensions.len(), 1);
    assert_eq!(vtpm.extensions[0].0, 14);
    assert_eq!(vtpm.extensions[0].1, digest);
}

#[test]
fn test_mock_vtpm_quote() {
    let vtpm = MockVtpm::new();
    let quote = vtpm.get_quote(b"nonce").unwrap();
    assert_eq!(quote.quote, vec![0x02; 100]);
}

#[test]
fn test_measure_image_deterministic() {
    let manifest = b"{\"schemaVersion\": 2, \"layers\": []}";
    let digest1 = measure_image(manifest);
    let digest2 = measure_image(manifest);
    assert_eq!(digest1, digest2);
}

#[test]
fn test_measure_image_different() {
    let digest1 = measure_image(b"{\"schemaVersion\": 2}");
    let digest2 = measure_image(b"{\"schemaVersion\": 1}");
    assert_ne!(digest1, digest2);
}

#[test]
fn measure_image_sha256_of_empty_input() {
    assert_eq!(
        hex::encode(measure_image(b"")),
        "e3b0c44298fc1c149afbf4c8996fb92427ae41e4649b934ca495991b7852b855"
    );
}

#[test]
fn measure_remote_image_uses_mock_manifest() {
    assert_eq!(measure_remote_image("gcr.io/brongnal/identity"), measure_image(b"mock_container_manifest"));
}

#[test]
fn test_acme_dns01_challenge_construction() {
    let (cert, key) = obtain_certificate("gossamer.brongan.com", "mock_kid", "mock_hmac", "mock_proj");
    assert_eq!(cert, vec![0xBB; 32]);
    assert_eq!(key, b"mock_key");
}

#[test]
fn mock_vtpm_records_extensions_in_order() {
    let mut vtpm = MockVtpm::new();
    vtpm.extend_pcr(14, &[1u8; 32]).unwrap();
    vtpm.extend_pcr(15, &[2u8; 32]).unwrap();
    assert_eq!(vtpm.extensions, vec![(14, [1u8; 32]), (15, [2u8; 32])]);
    let quote = vtpm.get_quote(b"n").unwrap();
    assert_eq!(quote.signature, vec![0x03; 64]);
    assert_eq!(quote.pcrs, vec![0x04; 256]);
}

#[test]
fn real_vtpm_is_not_implemented() {
    let mut vtpm = RealVtpm::new();
    assert_eq!(vtpm.extend_pcr(14, &[0u8; 32]), Err(VtpmError::NotImplemented));
    assert!(matches!(vtpm.get_quote(b"nonce"), Err(VtpmError::NotImplemented)));
}

#[test]
fn test_boot_flow_mock() {
    let mut vtpm = MockVtpm::new();
    let artifacts = brongnal::vtpm::measure_boot(&mut vtpm).unwrap();
    assert_eq!(artifacts.tls_cert, vec![0xBB; 32]);
    assert_eq!(artifacts.quote.quote, vec![0x02; 100]);
    assert_eq!(vtpm.extensions.len(), 2);
    assert_eq!(vtpm.extensions[0], (14, measure_image(b"mock_container_manifest")));
    assert_eq!(vtpm.extensions[1], (14, measure_image(&[0xBB; 32])));
}
