//! The part of the proxy's settings that its logic reads.

use vstd::prelude::*;
use vstd::string::StringSliceAdditionalSpecFns;
use rustls::pki_types::PrivateKeyDer;

verus! {

/// Settings of the HTTP CONNECT proxy.
pub struct HttpProxyConfig {
    /// Hosts that the HTTP proxy will allow.
    pub allowed_hosts: Vec<String>,
}

impl HttpProxyConfig {
    /// True when `host` (its UTF-8 bytes) is one of the allowed hosts,
    /// exactly.
    pub open spec fn allows_host(&self, host: Seq<u8>) -> bool {
        exists|i: int|
            0 <= i < self.allowed_hosts@.len() && vstd::utf8::encode_utf8(
                #[trigger] self.allowed_hosts@[i]@,
            ) == host
    }

    /// True when the CONNECT proxy may reach `host`: it is one of the
    /// allowed hosts, exactly.
    pub fn allows(&self, host: &String) -> (r: bool)
        ensures
            r == self.allows_host(vstd::utf8::encode_utf8(host@)),
    {

        let mut i: usize = 0;
        while i < self.allowed_hosts.len()
            invariant
                i <= self.allowed_hosts@.len(),
                forall|k: int| 0 <= k < i ==> #[trigger] self.allowed_hosts@[k]@ != host@,
            decreases self.allowed_hosts@.len() - i,
        {
            if self.allowed_hosts[i] == *host {
                return true;
            }
            i = i + 1;
        }
        proof {
            assert forall|k: int| 0 <= k < self.allowed_hosts@.len() implies vstd::utf8::encode_utf8(
                #[trigger] self.allowed_hosts@[k]@,
            ) != vstd::utf8::encode_utf8(host@) by {
                vstd::utf8::encode_utf8_decode_utf8(self.allowed_hosts@[k]@);
                vstd::utf8::encode_utf8_decode_utf8(host@);
            }
        }
        false
    }
}

/// Where a TLS listener gets its certificate.
#[derive(Clone, Copy, Debug, PartialEq, Eq, Structural)]
pub enum CertSource {
    /// A self-signed certificate for `localhost`, made once per process.
    SelfSigned,
    /// The certificate chain and key files named in the settings.
    Files,
}

/// Why a TLS listener has no certificate.
#[derive(Clone, Copy, Debug, PartialEq, Eq, Structural)]
pub enum CertError {
    /// No certificate file is named.
    CertMissing,
    /// No key file is named.
    KeyMissing,
    /// The certificate file holds no certificate.
    EmptyChain,
    /// The certificate file is not PEM that its certificates can be read
    /// from.
    BadChain,
    /// The key file is not PEM that a key can be read from.
    BadKey,
    /// The key file holds no private key.
    NoKey,
    /// No self-signed certificate could be made.
    SelfSignFailed,
}

/// Where a listener's certificate comes from: self-signed when `tls_self`
/// is set and true, else the files, which must both be named.
pub fn cert_source(tls_self: Option<bool>, has_cert: bool, has_key: bool) -> (r: Result<
    CertSource,
    CertError,
>)
    ensures
        r == (if tls_self == Some(true) {
            Ok::<CertSource, CertError>(CertSource::SelfSigned)
        } else if !has_cert {
            Err(CertError::CertMissing)
        } else if !has_key {
            Err(CertError::KeyMissing)
        } else {
            Ok(CertSource::Files)
        }),
{
    if let Some(true) = tls_self {
        return Ok(CertSource::SelfSigned);
    }
    if !has_cert {
        return Err(CertError::CertMissing);
    }
    if !has_key {
        return Err(CertError::KeyMissing);
    }
    Ok(CertSource::Files)
}

/// A certificate chain read from a file must hold a certificate.
pub fn check_chain(certs: usize) -> (r: Result<(), CertError>)
    ensures
        r == (if certs == 0 {
            Err::<(), CertError>(CertError::EmptyChain)
        } else {
            Ok(())
        }),
{
    if certs == 0 {
        Err(CertError::EmptyChain)
    } else {
        Ok(())
    }
}

/// The protocols a listener can serve.
#[derive(Clone, Copy, Debug, PartialEq, Eq, Structural)]
pub enum ServeProtocol {
    /// `ws`: WebSocket.
    WebSocket,
    /// `wss`: WebSocket over TLS.
    SecureWebSocket,
    /// `wt`: WebTransport.
    WebTransport,
}

/// The protocol a `serve` directive names, or `None` for one the proxy
/// does not support.
pub fn parse_protocol(name: &str) -> (r: Option<ServeProtocol>)
    ensures
        r == (if name.spec_bytes() == seq![0x77u8, 0x73u8] {
            Some(ServeProtocol::WebSocket)
        } else if name.spec_bytes() == seq![0x77u8, 0x73u8, 0x73u8] {
            Some(ServeProtocol::SecureWebSocket)
        } else if name.spec_bytes() == seq![0x77u8, 0x74u8] {
            Some(ServeProtocol::WebTransport)
        } else {
            None
        }),
{
    let b = name.as_bytes();
    let ws: [u8; 2] = [0x77u8, 0x73u8];
    let wss: [u8; 3] = [0x77u8, 0x73u8, 0x73u8];
    let wt: [u8; 2] = [0x77u8, 0x74u8];
    assert(ws@ =~= seq![0x77u8, 0x73u8]);
    assert(wss@ =~= seq![0x77u8, 0x73u8, 0x73u8]);
    assert(wt@ =~= seq![0x77u8, 0x74u8]);
    if crate::text::bytes_eq(b, &ws) {
        Some(ServeProtocol::WebSocket)
    } else if crate::text::bytes_eq(b, &wss) {
        Some(ServeProtocol::SecureWebSocket)
    } else if crate::text::bytes_eq(b, &wt) {
        Some(ServeProtocol::WebTransport)
    } else {
        None
    }
}

/// How a private key is encoded.
#[derive(Clone, Copy, Debug, PartialEq, Eq, Structural)]
pub enum KeyFormat {
    /// An RSA key, PKCS#1.
    Pkcs1,
    /// An elliptic-curve key, SEC1.
    Sec1,
    /// Any key, PKCS#8.
    Pkcs8,
}

/// The DER certificates that `rustls_pemfile::certs` reads from the PEM
/// text `pem`, in order, or `None` when it reports an error.
pub uninterp spec fn pem_cert_ders(pem: Seq<u8>) -> Option<Seq<Seq<u8>>>;

/// What `rustls_pemfile::private_key` reads from the PEM text `pem`: `None`
/// when it reports an error, `Some(None)` when the text holds no key, else
/// the format and the DER bytes of the first key.
pub uninterp spec fn pem_private_key(pem: Seq<u8>) -> Option<Option<(KeyFormat, Seq<u8>)>>;

/// Calls `rustls_pemfile::certs` on the bytes `pem` and collects what it
/// yields, stopping at the first error as `collect` into a `Result` does.
/// Each certificate is handed back as its DER bytes. The result is named,
/// not stated: it is the certificates the crate's PEM reader finds.
#[verifier::external_body]
fn read_pem_certs(pem: &[u8]) -> (r: Option<Vec<Vec<u8>>>)
    ensures
        match r {
            None => pem_cert_ders(pem@) is None,
            Some(ders) => pem_cert_ders(pem@) == Some(ders.deep_view()),
        },
{
    let certs: Result<Vec<_>, _> = rustls_pemfile::certs(&mut &pem[..]).collect();
    certs.ok().map(|certs| certs.into_iter().map(|c| c.to_vec()).collect())
}

/// Calls `rustls_pemfile::private_key` on the bytes `pem`. Its source
/// yields the first PKCS#1, SEC1 or PKCS#8 key section, `None` when there
/// is none, or the error of a section it cannot read; each variant of the
/// key is told apart here. The result is named, not stated.
#[verifier::external_body]
fn read_pem_key(pem: &[u8]) -> (r: Option<Option<(KeyFormat, Vec<u8>)>>)
    ensures
        match r {
            None => pem_private_key(pem@) is None,
            Some(None) => pem_private_key(pem@) == Some(None::<(KeyFormat, Seq<u8>)>),
            Some(Some((format, der))) => pem_private_key(pem@) == Some(Some((format, der@))),
        },
{
    match rustls_pemfile::private_key(&mut &pem[..]) {
        Err(_) => None,
        Ok(None) => Some(None),
        Ok(Some(PrivateKeyDer::Pkcs1(k))) => Some(Some((KeyFormat::Pkcs1, k.secret_pkcs1_der().to_vec()))),
        Ok(Some(PrivateKeyDer::Sec1(k))) => Some(Some((KeyFormat::Sec1, k.secret_sec1_der().to_vec()))),
        Ok(Some(PrivateKeyDer::Pkcs8(k))) => Some(Some((KeyFormat::Pkcs8, k.secret_pkcs8_der().to_vec()))),
        Ok(Some(_)) => None,
    }
}

/// Calls `rcgen::generate_simple_self_signed` with the subject names
/// `names`, and hands back the certificate's DER bytes and the PKCS#8 DER
/// bytes of its freshly generated key, or `None` when the crate reports an
/// error. The key is drawn at random, so nothing is claimed of the bytes.
/// The proxy asks for one name only, `localhost`.
#[verifier::external_body]
fn generate_self_signed(names: Vec<String>) -> (r: Option<(Vec<u8>, Vec<u8>)>)
    requires
        names@.len() == 1,
        names@[0]@ == self_signed_name(),
{
    let made = rcgen::generate_simple_self_signed(names).ok()?;
    Some((made.cert.der().to_vec(), made.signing_key.serialize_der()))
}

/// A listener's TLS certificate chain and private key, as DER bytes.
pub struct TlsFiles {
    /// The certificates, leaf first.
    pub chain: Vec<Vec<u8>>,
    /// How the key is encoded.
    pub key_format: KeyFormat,
    /// The key.
    pub key: Vec<u8>,
}

/// What a listener's TLS settings give.
pub enum TlsMaterial {
    /// The self-signed certificate the process makes once.
    SelfSigned,
    /// A chain and key read from the PEM files named in the settings.
    Files(TlsFiles),
}

/// What a listener's TLS files give: `cert_pem` and `key_pem` are the
/// contents of the named files, `None` where no file is named.
pub open spec fn tls_material_spec(
    cert_pem: Option<Seq<u8>>,
    key_pem: Option<Seq<u8>>,
) -> Result<(Seq<Seq<u8>>, KeyFormat, Seq<u8>), CertError> {
    if cert_pem is None {
        Err(CertError::CertMissing)
    } else if key_pem is None {
        Err(CertError::KeyMissing)
    } else {
        match pem_cert_ders(cert_pem->Some_0) {
            None => Err(CertError::BadChain),
            Some(chain) => if chain.len() == 0 {
                Err(CertError::EmptyChain)
            } else {
                match pem_private_key(key_pem->Some_0) {
                    None => Err(CertError::BadKey),
                    Some(None) => Err(CertError::NoKey),
                    Some(Some((format, key))) => Ok((chain, format, key)),
                }
            },
        }
    }
}

/// The TLS material of a listener: self-signed when `tls_self` is set and
/// true; else the certificates of the named certificate file, of which
/// there must be at least one, and the first key of the named key file.
/// `cert_pem` and `key_pem` are the contents of those files, `None` where
/// the settings name none.
pub fn tls_material(tls_self: Option<bool>, cert_pem: Option<&[u8]>, key_pem: Option<&[u8]>) -> (r:
    Result<TlsMaterial, CertError>)
    ensures
        tls_self == Some(true) ==> r matches Ok(TlsMaterial::SelfSigned),
        tls_self != Some(true) ==> match tls_material_spec(
            match cert_pem {
                Some(c) => Some(c@),
                None => None,
            },
            match key_pem {
                Some(k) => Some(k@),
                None => None,
            },
        ) {
            Err(e) => r == Err::<TlsMaterial, CertError>(e),
            Ok((chain, format, key)) => r matches Ok(TlsMaterial::Files(files)) && files.chain.deep_view()
                == chain && files.key_format == format && files.key@ == key,
        },
{
    match cert_source(tls_self, cert_pem.is_some(), key_pem.is_some()) {
        Err(e) => {
            return Err(e);
        },
        Ok(CertSource::SelfSigned) => {
            return Ok(TlsMaterial::SelfSigned);
        },
        Ok(CertSource::Files) => {},
    }
    let cert_text = match cert_pem {
        Some(c) => c,
        None => {
            return Err(CertError::CertMissing);
        },
    };
    let key_text = match key_pem {
        Some(k) => k,
        None => {
            return Err(CertError::KeyMissing);
        },
    };
    let chain = match read_pem_certs(cert_text) {
        None => {
            return Err(CertError::BadChain);
        },
        Some(chain) => chain,
    };
    check_chain(chain.len())?;
    match read_pem_key(key_text) {
        None => Err(CertError::BadKey),
        Some(None) => Err(CertError::NoKey),
        Some(Some((key_format, key))) => Ok(TlsMaterial::Files(TlsFiles { chain, key_format, key })),
    }
}

/// The one subject name of the self-signed certificate: `localhost`.
pub open spec fn self_signed_name() -> Seq<char> {
    seq!['l', 'o', 'c', 'a', 'l', 'h', 'o', 's', 't']
}

/// The TLS files of a self-signed certificate: a chain of just `cert`,
/// and `key` as a PKCS#8 key.
pub fn self_signed_files(cert: Vec<u8>, key: Vec<u8>) -> (f: TlsFiles)
    ensures
        f.chain@.len() == 1,
        f.chain@[0]@ == cert@,
        f.key@ == key@,
        f.key_format == KeyFormat::Pkcs8,
{
    let mut chain: Vec<Vec<u8>> = Vec::new();
    chain.push(cert);
    TlsFiles { chain, key_format: KeyFormat::Pkcs8, key }
}

/// The self-signed certificate for `localhost` (and no other name), with
/// its PKCS#8 key, as `self_signed_files` lays out what the certificate
/// crate made. Making it draws a fresh key at random, so the bytes are not
/// stated; it fails only when the certificate crate reports an error.
pub fn make_self_cert() -> (r: Result<TlsFiles, CertError>)
    ensures
        r matches Ok(files) ==> files.chain@.len() == 1 && files.key_format == KeyFormat::Pkcs8,
        r matches Err(e) ==> e == CertError::SelfSignFailed,
{
    let mut names: Vec<String> = Vec::new();
    let name = "localhost";
    proof {
        reveal_strlit("localhost");
        assert(name@ =~= self_signed_name());
    }
    names.push(name.to_owned());
    match generate_self_signed(names) {
        None => Err(CertError::SelfSignFailed),
        Some((cert, key)) => Ok(self_signed_files(cert, key)),
    }
}

} // verus!
