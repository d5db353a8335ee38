use vstd::prelude::*;
use crate::certificate::{copy_bytes, bytes_equal, Certificate, CertificateView, KeyFamily};
use der::{Decode, Encode};

verus! {

/// The container a private key arrived in.
#[derive(PartialEq, Eq, Structural, Clone, Copy, Debug)]
pub enum KeyEncoding {
    Pkcs1,
    Sec1,
    Pkcs8,
}

/// A private key unwrapped from PKCS#8, by the algorithm its wrapper names.
#[derive(Debug)]
pub enum GenericPrivateKey {
    /// A DER-encoded PKCS#1 RSA private key.
    RsaKey(Vec<u8>),
    /// A DER-encoded SEC1 elliptic-curve private key.
    ECKey(Vec<u8>),
}

/// Why a PKCS#8 wrapper could not be unwrapped.
#[derive(Debug)]
pub enum ParsePkcs8Error {
    /// The identifier is known but the inner key does not parse as a key of
    /// that algorithm.
    MalformedKey,
    /// The algorithm identifier names neither RSA nor elliptic curves; the
    /// identifier's DER content bytes are kept.
    InvalidOid(Vec<u8>),
}

/// Why a private key could not be decoded.
#[derive(Debug)]
pub enum KeyDecodeError {
    /// The key's encoding does not parse.
    MalformedKey,
    /// A PKCS#8 wrapper names an algorithm other than RSA or elliptic curves.
    InvalidOid(Vec<u8>),
}

/// A decoded private key: where it came from, and the public component
/// derived from it.
#[derive(Debug)]
pub struct PrivateKey {
    pub encoding: KeyEncoding,
    /// The key's DER encoding as it arrived.
    pub der: Vec<u8>,
    /// `Rsa` or `Ec`.
    pub family: KeyFamily,
    /// The public component, encoded as a certificate encodes its subject
    /// public key; `None` when the key does not carry it.
    pub public_key: Option<Vec<u8>>,
}

pub struct PrivateKeyView {
    pub encoding: KeyEncoding,
    pub der: Seq<u8>,
    pub family: KeyFamily,
    pub public_key: Option<Seq<u8>>,
}

pub open spec fn opt_bytes_view(o: Option<Vec<u8>>) -> Option<Seq<u8>> {
    match o {
        Some(v) => Some(v@),
        None => None,
    }
}

impl View for PrivateKey {
    type V = PrivateKeyView;

    open spec fn view(&self) -> PrivateKeyView {
        PrivateKeyView {
            encoding: self.encoding,
            der: self.der@,
            family: self.family,
            public_key: opt_bytes_view(self.public_key),
        }
    }
}

impl PrivateKey {
    /// A copy of this key.
    pub fn copy(&self) -> (r: PrivateKey)
        ensures
            r@ == self@,
    {
        let public_key = match &self.public_key {
            Some(p) => Some(copy_bytes(p)),
            None => None,
        };
        PrivateKey { encoding: self.encoding, der: copy_bytes(&self.der), family: self.family, public_key }
    }
}

/// DER content bytes of the rsaEncryption identifier, 1.2.840.113549.1.1.1.
pub open spec fn rsa_algorithm_oid() -> Seq<u8> {
    seq![0x2au8, 0x86u8, 0x48u8, 0x86u8, 0xf7u8, 0x0du8, 0x01u8, 0x01u8, 0x01u8]
}

/// DER content bytes of the id-ecPublicKey identifier, 1.2.840.10045.2.1.
pub open spec fn ec_algorithm_oid() -> Seq<u8> {
    seq![0x2au8, 0x86u8, 0x48u8, 0xceu8, 0x3du8, 0x02u8, 0x01u8]
}

fn rsa_oid_bytes() -> (r: Vec<u8>)
    ensures
        r@ == rsa_algorithm_oid(),
{
    let r: Vec<u8> = vec![0x2au8, 0x86u8, 0x48u8, 0x86u8, 0xf7u8, 0x0du8, 0x01u8, 0x01u8, 0x01u8];
    assert(r@ =~= rsa_algorithm_oid());
    r
}

fn ec_oid_bytes() -> (r: Vec<u8>)
    ensures
        r@ == ec_algorithm_oid(),
{
    let r: Vec<u8> = vec![0x2au8, 0x86u8, 0x48u8, 0xceu8, 0x3du8, 0x02u8, 0x01u8];
    assert(r@ =~= ec_algorithm_oid());
    r
}

/// The public component of a PKCS#1 RSA private key, DER-encoded as an
/// RSAPublicKey; `None` where the key does not parse.
pub uninterp spec fn pkcs1_public_key(key: Seq<u8>) -> Option<Seq<u8>>;

/// The public point that a SEC1 key carries: `None` where the key does not
/// parse, `Some(None)` where it carries no public point.
pub uninterp spec fn sec1_public_key(key: Seq<u8>) -> Option<Option<Seq<u8>>>;

/// The algorithm identifier (DER content bytes) and the inner private key of
/// a PKCS#8 PrivateKeyInfo; `None` where it does not parse.
pub uninterp spec fn pkcs8_key_info(key: Seq<u8>) -> Option<(Seq<u8>, Seq<u8>)>;

/// Relies on pkcs1's `RsaPrivateKey::from_der`, `public_key` and der's
/// `Encode::to_der`: the modulus and public exponent re-encoded.
#[verifier::external_body]
fn read_pkcs1_public(key: &[u8]) -> (r: Option<Vec<u8>>)
    ensures
        opt_bytes_view(r) == pkcs1_public_key(key@),
{
    match pkcs1::RsaPrivateKey::from_der(key) {
        Ok(k) => k.public_key().to_der().ok(),
        Err(_) => None,
    }
}

/// Relies on sec1's `EcPrivateKey::from_der` and its `public_key` field.
#[verifier::external_body]
fn read_sec1_public(key: &[u8]) -> (r: Option<Option<Vec<u8>>>)
    ensures
        match r {
            Some(p) => sec1_public_key(key@) == Some(opt_bytes_view(p)),
            None => sec1_public_key(key@) is None,
        },
{
    match sec1::EcPrivateKey::from_der(key) {
        Ok(k) => Some(k.public_key.map(|p| p.to_vec())),
        Err(_) => None,
    }
}

/// Relies on pkcs8's `PrivateKeyInfo::from_der`, its `algorithm.oid` (read
/// with const-oid's `as_bytes`) and its `private_key` field.
#[verifier::external_body]
fn read_pkcs8_info(key: &[u8]) -> (r: Option<(Vec<u8>, Vec<u8>)>)
    ensures
        match r {
            Some((oid, inner)) => pkcs8_key_info(key@) == Some((oid@, inner@)),
            None => pkcs8_key_info(key@) is None,
        },
{
    match pkcs8::PrivateKeyInfo::from_der(key) {
        Ok(k) => Some((k.algorithm.oid.as_bytes().to_vec(), k.private_key.to_vec())),
        Err(_) => None,
    }
}

impl GenericPrivateKey {
    /// Picks the key type from a PKCS#8 algorithm identifier: RSA keys are
    /// PKCS#1, elliptic-curve keys SEC1; any other identifier is an error, and
    /// so is an inner key that does not parse as a key of its algorithm.
    pub fn form_private_key_info(oid: &Vec<u8>, private_key: &Vec<u8>) -> (r: Result<
        GenericPrivateKey,
        ParsePkcs8Error,
    >)
        ensures
            oid@ == rsa_algorithm_oid() && pkcs1_public_key(private_key@) is Some ==> (r matches Ok(
                GenericPrivateKey::RsaKey(k),
            ) && k@ == private_key@),
            oid@ == rsa_algorithm_oid() && pkcs1_public_key(private_key@) is None ==> (r matches Err(
                ParsePkcs8Error::MalformedKey,
            )),
            oid@ == ec_algorithm_oid() && sec1_public_key(private_key@) is Some ==> (r matches Ok(
                GenericPrivateKey::ECKey(k),
            ) && k@ == private_key@),
            oid@ == ec_algorithm_oid() && sec1_public_key(private_key@) is None ==> (r matches Err(
                ParsePkcs8Error::MalformedKey,
            )),
            oid@ != rsa_algorithm_oid() && oid@ != ec_algorithm_oid() ==> (r matches Err(
                ParsePkcs8Error::InvalidOid(o),
            ) && o@ == oid@),
    {
        let rsa = rsa_oid_bytes();
        let ec = ec_oid_bytes();
        if bytes_equal(oid.as_slice(), rsa.as_slice()) {
            match read_pkcs1_public(private_key.as_slice()) {
                Some(_) => Ok(GenericPrivateKey::RsaKey(copy_bytes(private_key))),
                None => Err(ParsePkcs8Error::MalformedKey),
            }
        } else if bytes_equal(oid.as_slice(), ec.as_slice()) {
            match read_sec1_public(private_key.as_slice()) {
                Some(_) => Ok(GenericPrivateKey::ECKey(copy_bytes(private_key))),
                None => Err(ParsePkcs8Error::MalformedKey),
            }
        } else {
            Err(ParsePkcs8Error::InvalidOid(copy_bytes(oid)))
        }
    }
}

/// The family and public component of a key, as the decoders read it.
pub open spec fn decoded_key(encoding: KeyEncoding, der: Seq<u8>) -> Result<
    PrivateKeyView,
    Option<Seq<u8>>,
> {
    let rsa = |inner: Seq<u8>|
        match pkcs1_public_key(inner) {
            Some(p) => Ok(
                PrivateKeyView { encoding, der, family: KeyFamily::Rsa, public_key: Some(p) },
            ),
            None => Err(None),
        };
    let ec = |inner: Seq<u8>|
        match sec1_public_key(inner) {
            Some(p) => Ok(PrivateKeyView { encoding, der, family: KeyFamily::Ec, public_key: p }),
            None => Err(None),
        };
    match encoding {
        KeyEncoding::Pkcs1 => rsa(der),
        KeyEncoding::Sec1 => ec(der),
        KeyEncoding::Pkcs8 => match pkcs8_key_info(der) {
            None => Err(None),
            Some((oid, inner)) => if oid == rsa_algorithm_oid() {
                rsa(inner)
            } else if oid == ec_algorithm_oid() {
                ec(inner)
            } else {
                Err(Some(oid))
            },
        },
    }
}

fn rsa_key(encoding: KeyEncoding, der: &Vec<u8>, inner: &Vec<u8>) -> (r: Result<
    PrivateKey,
    KeyDecodeError,
>)
    ensures
        match pkcs1_public_key(inner@) {
            Some(p) => r matches Ok(k) && k@ == (PrivateKeyView {
                encoding,
                der: der@,
                family: KeyFamily::Rsa,
                public_key: Some(p),
            }),
            None => r matches Err(KeyDecodeError::MalformedKey),
        },
{
    match read_pkcs1_public(inner.as_slice()) {
        Some(p) => Ok(
            PrivateKey { encoding, der: copy_bytes(der), family: KeyFamily::Rsa, public_key: Some(p) },
        ),
        None => Err(KeyDecodeError::MalformedKey),
    }
}

fn ec_key(encoding: KeyEncoding, der: &Vec<u8>, inner: &Vec<u8>) -> (r: Result<
    PrivateKey,
    KeyDecodeError,
>)
    ensures
        match sec1_public_key(inner@) {
            Some(p) => r matches Ok(k) && k@ == (PrivateKeyView {
                encoding,
                der: der@,
                family: KeyFamily::Ec,
                public_key: p,
            }),
            None => r matches Err(KeyDecodeError::MalformedKey),
        },
{
    match read_sec1_public(inner.as_slice()) {
        Some(p) => Ok(
            PrivateKey { encoding, der: copy_bytes(der), family: KeyFamily::Ec, public_key: p },
        ),
        None => Err(KeyDecodeError::MalformedKey),
    }
}

/// Decodes a private key and derives its public component. A PKCS#8 key is
/// unwrapped first and dispatched on its algorithm identifier.
pub fn decode_private_key(encoding: KeyEncoding, der: &Vec<u8>) -> (r: Result<
    PrivateKey,
    KeyDecodeError,
>)
    ensures
        match decoded_key(encoding, der@) {
            Ok(v) => r matches Ok(k) && k@ == v,
            Err(None) => r matches Err(KeyDecodeError::MalformedKey),
            Err(Some(oid)) => r matches Err(KeyDecodeError::InvalidOid(o)) && o@ == oid,
        },
{
    match encoding {
        KeyEncoding::Pkcs1 => rsa_key(encoding, der, der),
        KeyEncoding::Sec1 => ec_key(encoding, der, der),
        KeyEncoding::Pkcs8 => match read_pkcs8_info(der.as_slice()) {
            None => Err(KeyDecodeError::MalformedKey),
            Some((oid, inner)) => match GenericPrivateKey::form_private_key_info(&oid, &inner) {
                Ok(GenericPrivateKey::RsaKey(k)) => rsa_key(encoding, der, &k),
                Ok(GenericPrivateKey::ECKey(k)) => ec_key(encoding, der, &k),
                Err(ParsePkcs8Error::InvalidOid(o)) => Err(KeyDecodeError::InvalidOid(o)),
                Err(ParsePkcs8Error::MalformedKey) => Err(KeyDecodeError::MalformedKey),
            },
        },
    }
}

/// The key's public component is known, of the certificate's family (RSA or
/// EC), and byte for byte the certificate's encoded public key.
pub open spec fn key_matches(cert: CertificateView, key: PrivateKeyView) -> bool {
    &&& key.family != KeyFamily::Other
    &&& key.family == cert.key_family
    &&& key.public_key == Some(cert.public_key)
}

/// Whether `key` is the private key of `cert`: the public component derived
/// from the key must equal the certificate's encoded public key, within one
/// algorithm family.
pub fn check_for_certificate_private_key(cert: &Certificate, key: &PrivateKey) -> (r: bool)
    ensures
        r == key_matches(cert@, key@),
{
    if key.family == KeyFamily::Other || key.family != cert.key_family {
        return false;
    }
    match &key.public_key {
        Some(p) => bytes_equal(p.as_slice(), cert.public_key.as_slice()),
        None => false,
    }
}

} // verus!
