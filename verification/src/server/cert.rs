//! Reads the server's certificate chain and private key out of PEM text.
use vstd::prelude::*;

verus! {

/// The encoding of a private key.
#[derive(Debug, Clone, Copy, PartialEq, Eq, Structural)]
pub enum KeyFormat {
    Pkcs1,
    Sec1,
    Pkcs8,
}

/// A private key: its DER bytes and the encoding that they are in.
#[derive(Debug)]
pub struct PrivateKey {
    pub format: KeyFormat,
    pub der: Vec<u8>,
}

/// Why PEM text gave no certificate chain with its key.
#[derive(Debug, Clone, Copy, PartialEq, Eq, Structural)]
pub enum CertError {
    /// The certificate text could not be parsed.
    CertificateParse,
    /// The certificate text holds no certificate.
    NoCertificates,
    /// The key text could not be parsed.
    PrivateKeyParse,
    /// The key text holds no private key.
    NoPrivateKey,
}

/// The certificates that `rustls_pemfile::certs` finds in PEM text, each as
/// its DER bytes and in the order of the text; `None` where it reports an
/// error.
pub uninterp spec fn pem_certificates(pem: Seq<u8>) -> Option<Seq<Seq<u8>>>;

/// The first private key that `rustls_pemfile::private_key` finds in PEM
/// text, as its encoding and its DER bytes; `Some(None)` where the text
/// holds no key, `None` where it reports an error or finds a key in an
/// encoding other than the three of `KeyFormat`.
pub uninterp spec fn pem_private_key(pem: Seq<u8>) -> Option<Option<(KeyFormat, Seq<u8>)>>;

/// A parsed chain as plain values.
pub open spec fn chain_model(chain: Option<Vec<Vec<u8>>>) -> Option<Seq<Seq<u8>>> {
    match chain {
        Some(chain) => Some(chain.deep_view()),
        None => None,
    }
}

/// A parsed key as plain values.
pub open spec fn key_model(key: Option<Option<PrivateKey>>) -> Option<Option<(KeyFormat, Seq<u8>)>> {
    match key {
        Some(Some(key)) => Some(Some((key.format, key.der@))),
        Some(None) => Some(None),
        None => None,
    }
}

/// `rustls_pemfile::certs`: the certificates of the PEM text, with the DER
/// bytes of each copied out. The result is what `pem_certificates` names.
#[verifier::external_body]
fn parse_certificates(pem: &[u8]) -> (chain: Option<Vec<Vec<u8>>>)
    ensures
        chain_model(chain) == pem_certificates(pem@),
{
    let mut reader = pem;
    rustls_pemfile::certs(&mut reader).map(|cert| cert.map(|der| der.as_ref().to_vec()).ok()).collect()
}

/// `rustls_pemfile::private_key`: the first private key of the PEM text,
/// with its DER bytes copied out. The result is what `pem_private_key`
/// names.
#[verifier::external_body]
fn parse_private_key(pem: &[u8]) -> (key: Option<Option<PrivateKey>>)
    ensures
        key_model(key) == pem_private_key(pem@),
{
    let mut reader = pem;
    match rustls_pemfile::private_key(&mut reader) {
        Ok(Some(rustls::pki_types::PrivateKeyDer::Pkcs1(key))) => Some(
            Some(PrivateKey { format: KeyFormat::Pkcs1, der: key.secret_pkcs1_der().to_vec() }),
        ),
        Ok(Some(rustls::pki_types::PrivateKeyDer::Sec1(key))) => Some(
            Some(PrivateKey { format: KeyFormat::Sec1, der: key.secret_sec1_der().to_vec() }),
        ),
        Ok(Some(rustls::pki_types::PrivateKeyDer::Pkcs8(key))) => Some(
            Some(PrivateKey { format: KeyFormat::Pkcs8, der: key.secret_pkcs8_der().to_vec() }),
        ),
        Ok(None) => Some(None),
        _ => None,
    }
}

/// The chain that parsed certificate text gives, or the reason why it gives
/// none: the text must have parsed and hold a certificate.
pub open spec fn checked_chain(chain: Option<Seq<Seq<u8>>>) -> Result<Seq<Seq<u8>>, CertError> {
    match chain {
        None => Err(CertError::CertificateParse),
        Some(chain) => if chain.len() == 0 {
            Err(CertError::NoCertificates)
        } else {
            Ok(chain)
        },
    }
}

/// The key that parsed key text gives, or the reason why it gives none: the
/// text must have parsed and hold a key.
pub open spec fn checked_key(key: Option<Option<(KeyFormat, Seq<u8>)>>) -> Result<
    (KeyFormat, Seq<u8>),
    CertError,
> {
    match key {
        None => Err(CertError::PrivateKeyParse),
        Some(None) => Err(CertError::NoPrivateKey),
        Some(Some(key)) => Ok(key),
    }
}

/// The chain and key that parsed PEM text gives, or the first reason why it
/// gives none, the chain being looked at before the key.
pub open spec fn checked_certificates(
    chain: Option<Seq<Seq<u8>>>,
    key: Option<Option<(KeyFormat, Seq<u8>)>>,
) -> Result<(Seq<Seq<u8>>, (KeyFormat, Seq<u8>)), CertError> {
    match checked_chain(chain) {
        Err(error) => Err(error),
        Ok(chain) => match checked_key(key) {
            Err(error) => Err(error),
            Ok(key) => Ok((chain, key)),
        },
    }
}

/// Checks what the parsing of the certificate text gave, and hands the
/// chain on as it came.
pub fn check_chain(chain: Option<Vec<Vec<u8>>>) -> (result: Result<Vec<Vec<u8>>, CertError>)
    ensures
        match result {
            Ok(certs) => checked_chain(chain_model(chain)) == Ok::<_, CertError>(
                certs.deep_view(),
            ) && chain == Some(certs),
            Err(error) => checked_chain(chain_model(chain)) == Err::<Seq<Seq<u8>>, _>(error),
        },
{
    let certs = match chain {
        Some(certs) => certs,
        None => {
            return Err(CertError::CertificateParse);
        },
    };
    if certs.len() == 0 {
        return Err(CertError::NoCertificates);
    }
    Ok(certs)
}

/// Checks what the parsing of the key text gave, and hands the key on as
/// it came.
pub fn check_key(key: Option<Option<PrivateKey>>) -> (result: Result<PrivateKey, CertError>)
    ensures
        match result {
            Ok(private_key) => checked_key(key_model(key)) == Ok::<_, CertError>(
                (private_key.format, private_key.der@),
            ) && key == Some(Some(private_key)),
            Err(error) => checked_key(key_model(key)) == Err::<(KeyFormat, Seq<u8>), _>(error),
        },
{
    match key {
        None => Err(CertError::PrivateKeyParse),
        Some(None) => Err(CertError::NoPrivateKey),
        Some(Some(private_key)) => Ok(private_key),
    }
}

/// Checks what the parsing of the certificate text and of the key text
/// gave, the chain first, and hands the chain and the key on as they came.
pub fn check_certificates(chain: Option<Vec<Vec<u8>>>, key: Option<Option<PrivateKey>>) -> (result:
    Result<(Vec<Vec<u8>>, PrivateKey), CertError>)
    ensures
        match result {
            Ok((certs, private_key)) => {
                &&& checked_certificates(chain_model(chain), key_model(key)) == Ok::<_, CertError>(
                    (certs.deep_view(), (private_key.format, private_key.der@)),
                )
                &&& chain == Some(certs)
                &&& key == Some(Some(private_key))
            },
            Err(error) => checked_certificates(chain_model(chain), key_model(key)) == Err::<
                (Seq<Seq<u8>>, (KeyFormat, Seq<u8>)),
                _,
            >(error),
        },
{
    let certs = match check_chain(chain) {
        Ok(certs) => certs,
        Err(error) => {
            return Err(error);
        },
    };
    match check_key(key) {
        Ok(private_key) => Ok((certs, private_key)),
        Err(error) => Err(error),
    }
}

/// Loads the certificate chain from the text of a PEM file.
pub fn load_certificate_chain(cert_pem: &[u8]) -> (result: Result<Vec<Vec<u8>>, CertError>)
    ensures
        match result {
            Ok(certs) => checked_chain(pem_certificates(cert_pem@)) == Ok::<_, CertError>(
                certs.deep_view(),
            ),
            Err(error) => checked_chain(pem_certificates(cert_pem@)) == Err::<Seq<Seq<u8>>, _>(
                error,
            ),
        },
{
    check_chain(parse_certificates(cert_pem))
}

/// Loads the private key from the text of a PEM file.
pub fn load_private_key(key_pem: &[u8]) -> (result: Result<PrivateKey, CertError>)
    ensures
        match result {
            Ok(private_key) => checked_key(pem_private_key(key_pem@)) == Ok::<_, CertError>(
                (private_key.format, private_key.der@),
            ),
            Err(error) => checked_key(pem_private_key(key_pem@)) == Err::<
                (KeyFormat, Seq<u8>),
                _,
            >(error),
        },
{
    check_key(parse_private_key(key_pem))
}

/// Loads the certificate chain and the private key from the text of two
/// PEM files. The certificates are looked at first: where both texts are
/// at fault, the fault of the certificate text is told.
pub fn load_certificates(cert_pem: &[u8], key_pem: &[u8]) -> (result: Result<
    (Vec<Vec<u8>>, PrivateKey),
    CertError,
>)
    ensures
        match result {
            Ok((certs, private_key)) => checked_certificates(
                pem_certificates(cert_pem@),
                pem_private_key(key_pem@),
            ) == Ok::<_, CertError>(
                (certs.deep_view(), (private_key.format, private_key.der@)),
            ),
            Err(error) => checked_certificates(
                pem_certificates(cert_pem@),
                pem_private_key(key_pem@),
            ) == Err::<(Seq<Seq<u8>>, (KeyFormat, Seq<u8>)), _>(error),
        },
{
    let certs = match load_certificate_chain(cert_pem) {
        Ok(certs) => certs,
        Err(error) => {
            return Err(error);
        },
    };
    match load_private_key(key_pem) {
        Ok(private_key) => Ok((certs, private_key)),
        Err(error) => Err(error),
    }
}

} // verus!
