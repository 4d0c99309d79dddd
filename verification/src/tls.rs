//! The server's TLS identity from PEM text: the certificate chain, and a
//! private key in PKCS#8 form or, failing that, PKCS#1 (RSA) form.

use vstd::prelude::*;

verus! {

/// The DER bodies of the `CERTIFICATE` sections of a PEM text, in order, as
/// `rustls_pemfile::certs` reads them, or `Err` when it reports an error.
pub uninterp spec fn pem_certs(pem: Seq<u8>) -> Result<Seq<Seq<u8>>, ()>;

/// The DER bodies of the `PRIVATE KEY` (PKCS#8) sections of a PEM text, in
/// order, as `rustls_pemfile::pkcs8_private_keys` reads them, or `Err`.
pub uninterp spec fn pem_pkcs8_keys(pem: Seq<u8>) -> Result<Seq<Seq<u8>>, ()>;

/// The DER bodies of the `RSA PRIVATE KEY` (PKCS#1) sections of a PEM text,
/// in order, as `rustls_pemfile::rsa_private_keys` reads them, or `Err`.
pub uninterp spec fn pem_pkcs1_keys(pem: Seq<u8>) -> Result<Seq<Seq<u8>>, ()>;

/// The byte strings of a list of DER bodies.
pub open spec fn ders(v: Seq<Vec<u8>>) -> Seq<Seq<u8>> {
    v.map_values(|d: Vec<u8>| d@)
}

/// A parse result as byte strings.
pub open spec fn ders_result(r: Result<Vec<Vec<u8>>, ()>) -> Result<Seq<Seq<u8>>, ()> {
    match r {
        Ok(v) => Ok(ders(v@)),
        Err(()) => Err(()),
    }
}

/// Reads every certificate of a PEM text with `rustls_pemfile::certs`,
/// stopping at the first error. The contract names the result.
#[verifier::external_body]
fn parse_pem_certs(pem: &[u8]) -> (r: Result<Vec<Vec<u8>>, ()>)
    ensures
        ders_result(r) == pem_certs(pem@),
{
    let mut rd: &[u8] = pem;
    match rustls_pemfile::certs(&mut rd).collect::<Result<Vec<_>, _>>() {
        Ok(v) => Ok(v.iter().map(|c| c.as_ref().to_vec()).collect()),
        Err(_) => Err(()),
    }
}

/// Reads every PKCS#8 private key of a PEM text with
/// `rustls_pemfile::pkcs8_private_keys`, stopping at the first error. The
/// contract names the result.
#[verifier::external_body]
fn parse_pem_pkcs8_keys(pem: &[u8]) -> (r: Result<Vec<Vec<u8>>, ()>)
    ensures
        ders_result(r) == pem_pkcs8_keys(pem@),
{
    let mut rd: &[u8] = pem;
    match rustls_pemfile::pkcs8_private_keys(&mut rd).collect::<Result<Vec<_>, _>>() {
        Ok(v) => Ok(v.iter().map(|k| k.secret_pkcs8_der().to_vec()).collect()),
        Err(_) => Err(()),
    }
}

/// Reads every PKCS#1 (RSA) private key of a PEM text with
/// `rustls_pemfile::rsa_private_keys`, stopping at the first error. The
/// contract names the result.
#[verifier::external_body]
fn parse_pem_pkcs1_keys(pem: &[u8]) -> (r: Result<Vec<Vec<u8>>, ()>)
    ensures
        ders_result(r) == pem_pkcs1_keys(pem@),
{
    let mut rd: &[u8] = pem;
    match rustls_pemfile::rsa_private_keys(&mut rd).collect::<Result<Vec<_>, _>>() {
        Ok(v) => Ok(v.iter().map(|k| k.secret_pkcs1_der().to_vec()).collect()),
        Err(_) => Err(()),
    }
}

/// The private key of the identity, as DER.
pub enum TlsKey {
    Pkcs8(Vec<u8>),
    Pkcs1(Vec<u8>),
}

/// Why no identity could be had.
#[derive(Debug, Clone, Copy, PartialEq, Eq, Structural)]
pub enum TlsError {
    /// The certificate text could not be read.
    CertParse,
    /// The certificate text holds no certificate.
    NoCertificates,
    /// The key text could not be read for PKCS#8 keys.
    KeyParse,
    /// The key text could not be read for PKCS#1 keys.
    RsaKeyParse,
    /// The key text holds neither a PKCS#8 nor a PKCS#1 key.
    NoKey,
}

/// The certificate chain and the key of the server from the two PEM texts:
/// every certificate, in order (at least one); the first PKCS#8 key, or
/// else the first PKCS#1 key.
pub fn tls_identity(cert_pem: &[u8], key_pem: &[u8]) -> (r: Result<(Vec<Vec<u8>>, TlsKey), TlsError>)
    ensures
        match pem_certs(cert_pem@) {
            Err(()) => r == Err::<(Vec<Vec<u8>>, TlsKey), TlsError>(TlsError::CertParse),
            Ok(chain) => if chain.len() == 0 {
                r == Err::<(Vec<Vec<u8>>, TlsKey), TlsError>(TlsError::NoCertificates)
            } else {
                match pem_pkcs8_keys(key_pem@) {
                    Err(()) => r == Err::<(Vec<Vec<u8>>, TlsKey), TlsError>(TlsError::KeyParse),
                    Ok(k8) => if k8.len() > 0 {
                        r matches Ok((c, TlsKey::Pkcs8(k))) && ders(c@) == chain && k@ == k8[0]
                    } else {
                        match pem_pkcs1_keys(key_pem@) {
                            Err(()) => r == Err::<(Vec<Vec<u8>>, TlsKey), TlsError>(TlsError::RsaKeyParse),
                            Ok(k1) => if k1.len() > 0 {
                                r matches Ok((c, TlsKey::Pkcs1(k))) && ders(c@) == chain && k@ == k1[0]
                            } else {
                                r == Err::<(Vec<Vec<u8>>, TlsKey), TlsError>(TlsError::NoKey)
                            },
                        }
                    },
                }
            },
        },
{
    let chain = match parse_pem_certs(cert_pem) {
        Err(()) => return Err(TlsError::CertParse),
        Ok(c) => c,
    };
    if chain.len() == 0 {
        return Err(TlsError::NoCertificates);
    }
    let mut keys8 = match parse_pem_pkcs8_keys(key_pem) {
        Err(()) => return Err(TlsError::KeyParse),
        Ok(k) => k,
    };
    if keys8.len() > 0 {
        let k = keys8.swap_remove(0);
        return Ok((chain, TlsKey::Pkcs8(k)));
    }
    let mut keys1 = match parse_pem_pkcs1_keys(key_pem) {
        Err(()) => return Err(TlsError::RsaKeyParse),
        Ok(k) => k,
    };
    if keys1.len() > 0 {
        let k = keys1.swap_remove(0);
        return Ok((chain, TlsKey::Pkcs1(k)));
    }
    Err(TlsError::NoKey)
}

} // verus!
