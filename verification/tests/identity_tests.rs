use psfsp::identity::{
    certificate_names, needs_new_certificate, new_certificate_pem, server_identity, KeyKind,
};

#[test]
fn new_certificate_when_a_file_is_missing() {
    assert!(!needs_new_certificate(true, true));
    assert!(needs_new_certificate(false, true));
    assert!(needs_new_certificate(true, false));
    assert!(needs_new_certificate(false, false));
}

#[test]
fn generated_identity_reads_back() {
    let (cert, key) = new_certificate_pem().expect("generation");
    assert!(cert.starts_with("-----BEGIN CERTIFICATE-----"));
    let id = server_identity(cert.as_bytes(), key.as_bytes()).expect("readable identity");
    assert_eq!(id.certificates.len(), 1);
    assert!(!id.certificates[0].is_empty());
    assert_eq!(id.key_kind, KeyKind::Pkcs8);
    assert!(!id.key.is_empty());
}

#[test]
fn missing_key_or_broken_pem() {
    let (cert, _) = new_certificate_pem().expect("generation");
    assert!(server_identity(cert.as_bytes(), b"").is_none());
    assert!(server_identity(cert.as_bytes(), cert.as_bytes()).is_none());
    let broken = b"-----BEGIN CERTIFICATE-----\n!!!!\n-----END CERTIFICATE-----\n";
    let (_, key) = new_certificate_pem().expect("generation");
    assert!(server_identity(broken, key.as_bytes()).is_none());
}

#[test]
fn certificates_are_made_for_psfsp() {
    assert_eq!(certificate_names(), vec![String::from("psfsp")]);
}
