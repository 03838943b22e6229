//! TLS set-up from PEM texts: picking the private key and the certificate
//! chain, and building the server configuration with rustls.

use vstd::prelude::*;
use rustls::ServerConfig;

verus! {

#[verifier::external_type_specification]
#[verifier::external_body]
pub struct ExServerConfig(rustls::ServerConfig);

#[verifier::external_type_specification]
#[verifier::external_body]
pub struct ExTlsError(rustls::Error);

#[verifier::external_type_specification]
#[verifier::external_body]
pub struct ExIoError(std::io::Error);

/// What `rustls_pemfile::pkcs8_private_keys` reads from the PEM text `pem`:
/// the DER bytes of its PKCS#8 private keys in order, or nothing when the
/// text is malformed.
pub uninterp spec fn pem_pkcs8_keys(pem: Seq<u8>) -> Option<Seq<Seq<u8>>>;

/// What `rustls_pemfile::certs` reads from the PEM text `pem`: the DER bytes
/// of its certificates in order, or nothing when the text is malformed.
pub uninterp spec fn pem_certificates(pem: Seq<u8>) -> Option<Seq<Seq<u8>>>;

/// Whether the DER bytes `key` encode a private key of a kind rustls signs
/// with (RSA, ECDSA or Ed25519).
pub uninterp spec fn tls_key_usable(key: Seq<u8>) -> bool;

/// Calls `rustls_pemfile::pkcs8_private_keys` on the bytes of `pem`. Claims
/// that it succeeds exactly when the text is well formed and then gives the
/// keys that `pem_pkcs8_keys` names. The error, when there is one, is opaque here.
#[verifier::external_body]
fn read_pkcs8_keys(pem: &[u8]) -> (r: Result<Vec<Vec<u8>>, std::io::Error>)
    ensures
        (r is Ok) == (pem_pkcs8_keys(pem@) is Some),
        r matches Ok(keys) ==> keys@.map_values(|k: Vec<u8>| k@) == pem_pkcs8_keys(pem@).unwrap(),
{
    let mut reader: &[u8] = pem;
    rustls_pemfile::pkcs8_private_keys(&mut reader)
}

/// Calls `rustls_pemfile::certs` on the bytes of `pem`. Claims that it
/// succeeds exactly when the text is well formed and then gives the
/// certificates that `pem_certificates` names. The error is opaque here.
#[verifier::external_body]
fn read_certificates(pem: &[u8]) -> (r: Result<Vec<Vec<u8>>, std::io::Error>)
    ensures
        (r is Ok) == (pem_certificates(pem@) is Some),
        r matches Ok(certs) ==> certs@.map_values(|c: Vec<u8>| c@) == pem_certificates(pem@).unwrap(),
{
    let mut reader: &[u8] = pem;
    rustls_pemfile::certs(&mut reader)
}

/// Calls `ServerConfig::builder().with_safe_defaults().with_no_client_auth()
/// .with_single_cert(chain, key)` of rustls. Claims that it succeeds only for
/// a usable key (the chain is not examined there). Loading an ECDSA key also
/// draws from the system's random generator, so that it succeeds for every
/// usable key is left unsaid. The configuration it builds is opaque here:
/// that it serves `chain` with `key` is left unsaid too.
///
/// `cert_pem` is the PEM text the chain was read from. The call does not use
/// it; the precondition makes every caller hand over exactly the certificates
/// of that text, all of them and in their order.
#[verifier::external_body]
#[allow(unused_variables)]
fn build_server_config(cert_pem: &[u8], chain: Vec<Vec<u8>>, key: Vec<u8>) -> (r: Result<
    ServerConfig,
    rustls::Error,
>)
    requires
        pem_certificates(cert_pem@) is Some,
        chain@.map_values(|c: Vec<u8>| c@) == pem_certificates(cert_pem@).unwrap(),
    ensures
        r is Ok ==> tls_key_usable(key@),
{
    ServerConfig::builder().with_safe_defaults().with_no_client_auth().with_single_cert(
        chain.into_iter().map(rustls::Certificate).collect(),
        rustls::PrivateKey(key),
    )
}

/// Why the TLS set-up failed.
pub enum CertificateError {
    /// A PEM text could not be read.
    Io(std::io::Error),
    /// The key text holds no PKCS#8 private key.
    PrivateKeyNotFound,
    /// The certificate text holds no certificate.
    CertificateNotFound,
    /// rustls refused the key.
    Tls(rustls::Error),
}

impl CertificateError {
    /// The message of the failures that carry no error of their own.
    pub fn not_found_message(&self) -> (m: Option<&'static str>)
        ensures
            match self {
                CertificateError::PrivateKeyNotFound => m matches Some(s) && s@
                    == "Private key not found"@,
                CertificateError::CertificateNotFound => m matches Some(s) && s@
                    == "Certificate not found"@,
                _ => m is None,
            },
    {
        match self {
            CertificateError::PrivateKeyNotFound => Some("Private key not found"),
            CertificateError::CertificateNotFound => Some("Certificate not found"),
            _ => None,
        }
    }
}

/// The private key to serve with: the first PKCS#8 key of the PEM text `key_pem`.
pub fn first_private_key(key_pem: &[u8]) -> (r: Result<Vec<u8>, CertificateError>)
    ensures
        match pem_pkcs8_keys(key_pem@) {
            None => r matches Err(CertificateError::Io(_)),
            Some(keys) => if keys.len() == 0 {
                r matches Err(CertificateError::PrivateKeyNotFound)
            } else {
                r matches Ok(k) && k@ == keys[0]
            },
        },
{
    match read_pkcs8_keys(key_pem) {
        Err(e) => Err(CertificateError::Io(e)),
        Ok(keys) => {
            let mut keys = keys;
            if keys.len() == 0 {
                return Err(CertificateError::PrivateKeyNotFound);
            }
            let ghost all = keys@;
            let first = keys.swap_remove(0);
            assert(first == all[0]);
            Ok(first)
        },
    }
}

/// The server configuration that serves the certificates of the PEM text
/// `cert_pem` with the private key `key`. When the certificates are there,
/// the outcome is rustls's: a configuration, which it builds only for a
/// usable key, or its error.
pub fn server_config_from_pem(key: Vec<u8>, cert_pem: &[u8]) -> (r: Result<ServerConfig, CertificateError>)
    ensures
        match pem_certificates(cert_pem@) {
            None => r matches Err(CertificateError::Io(_)),
            Some(certs) => if certs.len() == 0 {
                r matches Err(CertificateError::CertificateNotFound)
            } else {
                (r is Ok ==> tls_key_usable(key@)) && (r is Err ==> r matches Err(
                    CertificateError::Tls(_),
                ))
            },
        },
{
    match read_certificates(cert_pem) {
        Err(e) => Err(CertificateError::Io(e)),
        Ok(chain) => {
            if chain.len() == 0 {
                return Err(CertificateError::CertificateNotFound);
            }
            match build_server_config(cert_pem, chain, key) {
                Ok(config) => Ok(config),
                Err(e) => Err(CertificateError::Tls(e)),
            }
        },
    }
}

} // verus!
