//! The server's TLS identity: its certificate chain and private key, read
//! from PEM files, or a new self-signed pair when either file is missing.
use rustls_pki_types::PrivateKeyDer;
use vstd::prelude::*;
use vstd::utf8::encode_utf8;

verus! {

/// The encoding of a private key.
#[derive(Clone, Copy, Debug, PartialEq, Eq, Structural)]
pub enum KeyKind {
    /// PKCS#1 (RSA).
    Pkcs1,
    /// SEC1 (elliptic curve).
    Sec1,
    /// PKCS#8.
    Pkcs8,
}

/// The DER certificates that `rustls_pemfile::certs` finds in `pem`, in
/// order, or `None` when it reports an error.
pub uninterp spec fn pem_certificates(pem: Seq<u8>) -> Option<Seq<Seq<u8>>>;

/// The first private key that `rustls_pemfile::private_key` finds in `pem`,
/// with its encoding, or `None` when it finds none or reports an error.
pub uninterp spec fn pem_private_key(pem: Seq<u8>) -> Option<(KeyKind, Seq<u8>)>;

/// Calls `rustls_pemfile::certs` on `pem` and collects its results.
/// Claimed: the result is the named `pem_certificates` of `pem` (each
/// certificate as its DER bytes), `None` exactly when the parser reports an
/// error. What the parser accepts is left unsaid.
#[verifier::external_body]
fn read_pem_certificates(pem: &[u8]) -> (r: Option<Vec<Vec<u8>>>)
    ensures
        r is None <==> pem_certificates(pem@) is None,
        r matches Some(v) ==> pem_certificates(pem@) == Some(v@.map_values(|c: Vec<u8>| c@)),
{
    let mut reader = pem;
    match rustls_pemfile::certs(&mut reader).collect::<Result<Vec<_>, _>>() {
        Ok(certs) => Some(certs.iter().map(|c| c.as_ref().to_vec()).collect()),
        Err(_) => None,
    }
}

/// Calls `rustls_pemfile::private_key` on `pem`. Claimed: the result is the
/// named `pem_private_key` of `pem`: the first key's encoding and DER bytes,
/// `None` when there is no key or the parser reports an error. What the
/// parser accepts is left unsaid.
#[verifier::external_body]
fn read_pem_private_key(pem: &[u8]) -> (r: Option<(KeyKind, Vec<u8>)>)
    ensures
        r is None <==> pem_private_key(pem@) is None,
        r matches Some((kind, der)) ==> pem_private_key(pem@) == Some((kind, der@)),
{
    let mut reader = pem;
    match rustls_pemfile::private_key(&mut reader) {
        Ok(Some(PrivateKeyDer::Pkcs1(k))) => Some((KeyKind::Pkcs1, k.secret_pkcs1_der().to_vec())),
        Ok(Some(PrivateKeyDer::Sec1(k))) => Some((KeyKind::Sec1, k.secret_sec1_der().to_vec())),
        Ok(Some(PrivateKeyDer::Pkcs8(k))) => Some((KeyKind::Pkcs8, k.secret_pkcs8_der().to_vec())),
        _ => None,
    }
}

/// `cert` and `key` are PEM text that the PEM readers take as one
/// certificate and one PKCS#8 private key.
pub open spec fn readable_pair(cert: Seq<char>, key: Seq<char>) -> bool {
    &&& match pem_certificates(encode_utf8(cert)) {
        Some(certs) => certs.len() == 1,
        None => false,
    }
    &&& match pem_private_key(encode_utf8(key)) {
        Some((kind, _)) => kind == KeyKind::Pkcs8,
        None => false,
    }
}

/// Calls `rcgen::generate_simple_self_signed` with `subject_alt_names` and
/// writes the certificate (`Certificate::pem`) and its key
/// (`KeyPair::serialize_pem`) as PEM. Claimed of every outcome: when it
/// succeeds, the certificate text is one `CERTIFICATE` section and the key
/// text one `PRIVATE KEY` (PKCS#8) section, which `rustls_pemfile` reads as
/// one certificate and one PKCS#8 key. The key is random, and generation may
/// fail (`None`); what the certificate says is left unsaid.
#[verifier::external_body]
fn self_signed_pem(subject_alt_names: Vec<String>) -> (r: Option<(String, String)>)
    ensures
        r matches Some((cert, key)) ==> readable_pair(cert@, key@),
{
    match rcgen::generate_simple_self_signed(subject_alt_names) {
        Ok(certified) => Some((certified.cert.pem(), certified.signing_key.serialize_pem())),
        Err(_) => None,
    }
}

/// The names a new certificate is made for: `psfsp` alone.
pub fn certificate_names() -> (v: Vec<String>)
    ensures
        v@.len() == 1,
        v@[0]@ == "psfsp"@,
{
    let mut names: Vec<String> = Vec::new();
    names.push(String::from_str("psfsp"));
    names
}

/// Whether a new certificate must be made: when the certificate file or
/// the key file is missing.
pub fn needs_new_certificate(cert_exists: bool, key_exists: bool) -> (b: bool)
    ensures
        b == (!cert_exists || !key_exists),
{
    !cert_exists || !key_exists
}

/// A new self-signed certificate for the names of `certificate_names` and
/// its private key, both as PEM text that reads back as one certificate and
/// one PKCS#8 key; `None` when generation failed.
pub fn new_certificate_pem() -> (r: Option<(String, String)>)
    ensures
        r matches Some((cert, key)) ==> readable_pair(cert@, key@),
{
    self_signed_pem(certificate_names())
}

/// The certificate chain and private key a server presents.
pub struct ServerIdentity {
    /// The certificates, each as DER bytes.
    pub certificates: Vec<Vec<u8>>,
    /// The encoding of the private key.
    pub key_kind: KeyKind,
    /// The private key, as DER bytes.
    pub key: Vec<u8>,
}

/// The identity read from the certificate PEM `cert_pem` and the key PEM
/// `key_pem`; `None` when the certificates cannot be read or no key is
/// found.
pub fn server_identity(cert_pem: &[u8], key_pem: &[u8]) -> (r: Option<ServerIdentity>)
    ensures
        r is Some <==> pem_certificates(cert_pem@) is Some && pem_private_key(key_pem@) is Some,
        r matches Some(id) ==> pem_certificates(cert_pem@) == Some(
            id.certificates@.map_values(|c: Vec<u8>| c@),
        ) && pem_private_key(key_pem@) == Some((id.key_kind, id.key@)),
{
    let certificates = match read_pem_certificates(cert_pem) {
        Some(c) => c,
        None => return None,
    };
    match read_pem_private_key(key_pem) {
        Some((key_kind, key)) => Some(ServerIdentity { certificates, key_kind, key }),
        None => None,
    }
}

} // verus!
