//! The certificates and the private key in a PEM text.
use vstd::prelude::*;

verus! {

/// Why a PEM text does not give what is asked of it.
#[derive(Debug, Clone)]
pub enum PemError {
    /// The text is not well formed, with the message of `rustls_pemfile`.
    Unreadable(String),
    /// The text holds nothing of the kind.
    NothingFound,
}

/// Some byte strings.
pub open spec fn all_bytes(s: Seq<Vec<u8>>) -> Seq<Seq<u8>> {
    s.map_values(|v: Vec<u8>| v@)
}

/// The certificates that `rustls_pemfile` finds in a text, or its message.
pub uninterp spec fn pem_certificates(pem: Seq<char>) -> Result<Seq<Seq<u8>>, Seq<char>>;

/// Calls `rustls_pemfile::certs` and takes the bytes of each certificate, or the message of the
/// first error. The contract claims only that the outcome depends on nothing but the text.
#[verifier::external_body]
fn read_certificates(pem: &str) -> (r: Result<Vec<Vec<u8>>, String>)
    ensures
        match r {
            Ok(v) => pem_certificates(pem@) == Ok::<Seq<Seq<u8>>, Seq<char>>(all_bytes(v@)),
            Err(m) => pem_certificates(pem@) == Err::<Seq<Seq<u8>>, Seq<char>>(m@),
        },
{
    rustls_pemfile::certs(&mut pem.as_bytes())
        .map(|item| item.map(|der| der.to_vec()))
        .collect::<Result<Vec<Vec<u8>>, std::io::Error>>()
        .map_err(|e| e.to_string())
}

/// The first private key in PKCS #8 that `rustls_pemfile` finds in a text, if there is one, or its
/// message if it meets an error before one.
pub uninterp spec fn pem_private_key(pem: Seq<char>) -> Result<Option<Seq<u8>>, Seq<char>>;

/// Some bytes that may be there.
pub open spec fn opt_vec(o: Option<Vec<u8>>) -> Option<Seq<u8>> {
    match o {
        Some(v) => Some(v@),
        None => None,
    }
}

/// Calls `rustls_pemfile::pkcs8_private_keys` and takes the bytes of the first key, or the message
/// of an error before it. The contract claims only that the outcome depends on nothing but the
/// text.
#[verifier::external_body]
fn read_private_key(pem: &str) -> (r: Result<Option<Vec<u8>>, String>)
    ensures
        match r {
            Ok(k) => pem_private_key(pem@) == Ok::<Option<Seq<u8>>, Seq<char>>(opt_vec(k)),
            Err(m) => pem_private_key(pem@) == Err::<Option<Seq<u8>>, Seq<char>>(m@),
        },
{
    rustls_pemfile::pkcs8_private_keys(&mut pem.as_bytes())
        .next()
        .map(|item| item.map(|key| key.secret_pkcs8_der().to_vec()))
        .transpose()
        .map_err(|e| e.to_string())
}

/// Takes the certificates that were found, at least one of them.
pub fn some_certificates(found: Result<Vec<Vec<u8>>, String>) -> (r: Result<
    Vec<Vec<u8>>,
    PemError,
>)
    ensures
        r == match found {
            Err(m) => Err::<Vec<Vec<u8>>, PemError>(PemError::Unreadable(m)),
            Ok(certs) => if certs@.len() == 0 {
                Err(PemError::NothingFound)
            } else {
                Ok(certs)
            },
        },
{
    match found {
        Err(m) => Err(PemError::Unreadable(m)),
        Ok(certs) => {
            if certs.len() == 0 {
                Err(PemError::NothingFound)
            } else {
                Ok(certs)
            }
        },
    }
}

/// Takes the private key that was found.
pub fn some_key(found: Result<Option<Vec<u8>>, String>) -> (r: Result<Vec<u8>, PemError>)
    ensures
        r == match found {
            Err(m) => Err::<Vec<u8>, PemError>(PemError::Unreadable(m)),
            Ok(None) => Err(PemError::NothingFound),
            Ok(Some(key)) => Ok(key),
        },
{
    match found {
        Err(m) => Err(PemError::Unreadable(m)),
        Ok(None) => Err(PemError::NothingFound),
        Ok(Some(key)) => Ok(key),
    }
}

/// The certificates in a PEM text, at least one of them.
pub fn load_certs(pem: &str) -> (r: Result<Vec<Vec<u8>>, PemError>)
    ensures
        match pem_certificates(pem@) {
            Err(m) => r matches Err(PemError::Unreadable(x)) && x@ == m,
            Ok(certs) => if certs.len() == 0 {
                r matches Err(e) && e is NothingFound
            } else {
                r matches Ok(v) && all_bytes(v@) == certs
            },
        },
{
    some_certificates(read_certificates(pem))
}

/// The first private key in a PEM text.
pub fn load_private_key(pem: &str) -> (r: Result<Vec<u8>, PemError>)
    ensures
        match pem_private_key(pem@) {
            Err(m) => r matches Err(PemError::Unreadable(x)) && x@ == m,
            Ok(None) => r matches Err(e) && e is NothingFound,
            Ok(Some(key)) => r matches Ok(v) && v@ == key,
        },
{
    some_key(read_private_key(pem))
}

} // verus!
