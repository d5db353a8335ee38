use vstd::prelude::*;
use x509_parser::certificate::X509Certificate;
use x509_parser::prelude::FromDer;
use x509_parser::public_key::PublicKey;

verus! {

/// The public-key algorithm family of a certificate or a private key.
#[derive(PartialEq, Eq, Structural, Clone, Copy, Debug)]
pub enum KeyFamily {
    Rsa,
    Ec,
    Other,
}

/// What the library reads of a decoded X.509 certificate.
#[derive(Debug)]
pub struct Certificate {
    /// The certificate's DER encoding.
    pub der: Vec<u8>,
    /// The DER encoding of the subject name.
    pub subject: Vec<u8>,
    /// The DER encoding of the issuer name.
    pub issuer: Vec<u8>,
    /// The server name derived from the subject: its first common name, or
    /// empty when it has none.
    pub server_name: String,
    /// Whether the basic-constraints extension marks a certificate authority.
    pub is_ca: bool,
    /// The algorithm family of the subject public key.
    pub key_family: KeyFamily,
    /// The encoded subject public key (the bits of the key's BIT STRING).
    pub public_key: Vec<u8>,
    /// Start of the validity interval, in seconds since the Unix epoch.
    pub not_before: i64,
    /// End of the validity interval, in seconds since the Unix epoch.
    pub not_after: i64,
}

#[verifier::ext_equal]
pub struct CertificateView {
    pub der: Seq<u8>,
    pub subject: Seq<u8>,
    pub issuer: Seq<u8>,
    pub server_name: Seq<char>,
    pub is_ca: bool,
    pub key_family: KeyFamily,
    pub public_key: Seq<u8>,
    pub not_before: i64,
    pub not_after: i64,
}

impl View for Certificate {
    type V = CertificateView;

    open spec fn view(&self) -> CertificateView {
        CertificateView {
            der: self.der@,
            subject: self.subject@,
            issuer: self.issuer@,
            server_name: self.server_name@,
            is_ca: self.is_ca,
            key_family: self.key_family,
            public_key: self.public_key@,
            not_before: self.not_before,
            not_after: self.not_after,
        }
    }
}

impl CertificateView {
    /// Subject and issuer are the same name.
    pub open spec fn is_self_issued(self) -> bool {
        self.subject == self.issuer
    }

    /// `now` lies outside the validity interval.
    pub open spec fn expired_at(self, now: i64) -> bool {
        now < self.not_before || now > self.not_after
    }
}

pub open spec fn certs_view(s: Seq<Certificate>) -> Seq<CertificateView> {
    s.map_values(|c: Certificate| c@)
}

/// Compares two byte strings.
pub fn bytes_equal(a: &[u8], b: &[u8]) -> (r: bool)
    ensures
        r == (a@ == b@),
{
    if a.len() != b.len() {
        return false;
    }
    let mut i: usize = 0;
    while i < a.len()
        invariant
            a@.len() == b@.len(),
            0 <= i <= a@.len(),
            a@.subrange(0, i as int) == b@.subrange(0, i as int),
        decreases a@.len() - i,
    {
        if a[i] != b[i] {
            assert(a@[i as int] != b@[i as int]);
            return false;
        }
        assert(a@.subrange(0, i + 1) =~= a@.subrange(0, i as int).push(a@[i as int]));
        assert(b@.subrange(0, i + 1) =~= b@.subrange(0, i as int).push(b@[i as int]));
        i = i + 1;
    }
    assert(a@ =~= a@.subrange(0, i as int));
    assert(b@ =~= b@.subrange(0, i as int));
    true
}

/// Copies a byte string.
pub fn copy_bytes(a: &Vec<u8>) -> (r: Vec<u8>)
    ensures
        r@ == a@,
{
    let mut r: Vec<u8> = Vec::new();
    let mut i: usize = 0;
    while i < a.len()
        invariant
            0 <= i <= a@.len(),
            r@ == a@.subrange(0, i as int),
        decreases a@.len() - i,
    {
        r.push(a[i]);
        assert(a@.subrange(0, i + 1) =~= a@.subrange(0, i as int).push(a@[i as int]));
        i = i + 1;
    }
    assert(a@ =~= a@.subrange(0, i as int));
    r
}

impl Certificate {
    /// A copy of this certificate.
    pub fn copy(&self) -> (r: Certificate)
        ensures
            r@ == self@,
    {
        Certificate {
            der: copy_bytes(&self.der),
            subject: copy_bytes(&self.subject),
            issuer: copy_bytes(&self.issuer),
            server_name: self.server_name.clone(),
            is_ca: self.is_ca,
            key_family: self.key_family,
            public_key: copy_bytes(&self.public_key),
            not_before: self.not_before,
            not_after: self.not_after,
        }
    }
}

/// Copies a sequence of certificates.
pub fn copy_certificates(certs: &Vec<Certificate>) -> (r: Vec<Certificate>)
    ensures
        certs_view(r@) == certs_view(certs@),
{
    let mut r: Vec<Certificate> = Vec::new();
    let mut i: usize = 0;
    while i < certs.len()
        invariant
            0 <= i <= certs@.len(),
            certs_view(r@) == certs_view(certs@.subrange(0, i as int)),
        decreases certs@.len() - i,
    {
        let c = certs[i].copy();
        let ghost prev = r@;
        r.push(c);
        assert(certs_view(r@) =~= certs_view(prev).push(c@));
        assert(certs_view(certs@.subrange(0, i + 1)) =~= certs_view(certs@.subrange(0, i as int)).push(
            certs@[i as int]@,
        ));
        i = i + 1;
    }
    assert(certs@ =~= certs@.subrange(0, i as int));
    r
}

/// The subject and issuer names, as DER, that x509-parser reads from a
/// certificate's encoding; `None` where it does not parse.
pub uninterp spec fn x509_names(der: Seq<u8>) -> Option<(Seq<u8>, Seq<u8>)>;

/// The CA marker of the basic-constraints extension as x509-parser reads it.
pub uninterp spec fn x509_is_ca(der: Seq<u8>) -> Option<bool>;

/// The subject's first common name as x509-parser reads it.
pub uninterp spec fn x509_common_name(der: Seq<u8>) -> Option<Seq<char>>;

/// The subject public key's family and encoded bits as x509-parser reads them.
pub uninterp spec fn x509_public_key(der: Seq<u8>) -> Option<(KeyFamily, Seq<u8>)>;

/// The validity interval as x509-parser reads it, in Unix seconds.
pub uninterp spec fn x509_validity(der: Seq<u8>) -> Option<(i64, i64)>;

/// Whether the certificate's signature verifies against its own public key.
pub uninterp spec fn x509_self_signature_valid(der: Seq<u8>) -> bool;

/// Relies on x509-parser's `X509Certificate::from_der`, `subject().as_raw()`
/// and `issuer().as_raw()`: the raw DER of both names.
#[verifier::external_body]
fn read_names(der: &[u8]) -> (r: Option<(Vec<u8>, Vec<u8>)>)
    ensures
        match r {
            Some((s, i)) => x509_names(der@) == Some((s@, i@)),
            None => x509_names(der@) is None,
        },
{
    match X509Certificate::from_der(der) {
        Ok((_, c)) => Some((c.subject().as_raw().to_vec(), c.issuer().as_raw().to_vec())),
        Err(_) => None,
    }
}

/// Relies on x509-parser's `X509Certificate::is_ca`: true when basic
/// constraints carry `CA:true`.
#[verifier::external_body]
fn read_is_ca(der: &[u8]) -> (r: Option<bool>)
    ensures
        r == x509_is_ca(der@),
{
    match X509Certificate::from_der(der) {
        Ok((_, c)) => Some(c.is_ca()),
        Err(_) => None,
    }
}

/// Relies on x509-parser's `X509Name::iter_common_name` and
/// `AttributeTypeAndValue::as_str`: the first common name, as text.
#[verifier::external_body]
fn read_common_name(der: &[u8]) -> (r: Option<String>)
    ensures
        match r {
            Some(s) => x509_common_name(der@) == Some(s@),
            None => x509_common_name(der@) is None,
        },
{
    match X509Certificate::from_der(der) {
        Ok((_, c)) => match c.subject().iter_common_name().next() {
            Some(n) => n.as_str().ok().map(String::from),
            None => None,
        },
        Err(_) => None,
    }
}

/// Relies on x509-parser's `SubjectPublicKeyInfo::parsed`, whose variant gives
/// the family, and on `subject_public_key.data`, the encoded key.
#[verifier::external_body]
fn read_public_key(der: &[u8]) -> (r: Option<(KeyFamily, Vec<u8>)>)
    ensures
        match r {
            Some((f, k)) => x509_public_key(der@) == Some((f, k@)),
            None => x509_public_key(der@) is None,
        },
{
    match X509Certificate::from_der(der) {
        Ok((_, c)) => Some((match c.public_key().parsed() {
            Ok(PublicKey::RSA(_)) => KeyFamily::Rsa,
            Ok(PublicKey::EC(_)) => KeyFamily::Ec,
            _ => KeyFamily::Other,
        }, c.public_key().subject_public_key.data.to_vec())),
        Err(_) => None,
    }
}

/// Relies on x509-parser's `Validity` and `ASN1Time::timestamp`: not-before
/// and not-after in Unix seconds.
#[verifier::external_body]
fn read_validity(der: &[u8]) -> (r: Option<(i64, i64)>)
    ensures
        r == x509_validity(der@),
{
    match X509Certificate::from_der(der) {
        Ok((_, c)) => Some((c.validity().not_before.timestamp(), c.validity().not_after.timestamp())),
        Err(_) => None,
    }
}

/// Relies on x509-parser's `X509Certificate::verify_signature(None)`, which
/// checks the signature against the certificate's own public key.
#[verifier::external_body]
pub(crate) fn self_signature_valid(der: &[u8]) -> (r: bool)
    ensures
        r == x509_self_signature_valid(der@),
{
    match X509Certificate::from_der(der) {
        Ok((_, c)) => c.verify_signature(None).is_ok(),
        Err(_) => false,
    }
}

/// The certificate that x509-parser's reading of `der` describes, when every
/// part of it could be read.
pub open spec fn decoded_certificate(der: Seq<u8>) -> Option<CertificateView> {
    if x509_names(der) is Some && x509_is_ca(der) is Some && x509_public_key(der) is Some
        && x509_validity(der) is Some {
        Some(
            CertificateView {
                der,
                subject: x509_names(der)->Some_0.0,
                issuer: x509_names(der)->Some_0.1,
                server_name: match x509_common_name(der) {
                    Some(n) => n,
                    None => Seq::empty(),
                },
                is_ca: x509_is_ca(der)->Some_0,
                key_family: x509_public_key(der)->Some_0.0,
                public_key: x509_public_key(der)->Some_0.1,
                not_before: x509_validity(der)->Some_0.0,
                not_after: x509_validity(der)->Some_0.1,
            },
        )
    } else {
        None
    }
}

/// Decodes a DER-encoded certificate into the fields that the resolver and
/// the validator read; `None` when x509-parser cannot read it.
pub fn decode_certificate(der: &Vec<u8>) -> (r: Option<Certificate>)
    ensures
        match r {
            Some(c) => decoded_certificate(der@) == Some(c@),
            None => decoded_certificate(der@) is None,
        },
{
    let names = read_names(der.as_slice());
    let is_ca = read_is_ca(der.as_slice());
    let key = read_public_key(der.as_slice());
    let validity = read_validity(der.as_slice());
    match (names, is_ca, key, validity) {
        (Some((subject, issuer)), Some(is_ca), Some((key_family, public_key)), Some((
            not_before,
            not_after,
        ))) => {
            let server_name = match read_common_name(der.as_slice()) {
                Some(n) => n,
                None => String::new(),
            };
            let c = Certificate {
                der: copy_bytes(der),
                subject,
                issuer,
                server_name,
                is_ca,
                key_family,
                public_key,
                not_before,
                not_after,
            };
            assert(decoded_certificate(der@)->Some_0 =~= c@);
            Some(c)
        },
        _ => None,
    }
}

} // verus!
