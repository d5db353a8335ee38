use vstd::prelude::*;
use std::sync::Arc;
use std::time::Duration;
use rustls::client::danger::ServerCertVerifier;
use rustls_pki_types::{CertificateDer, ServerName, UnixTime};
use rustls_platform_verifier::Verifier;
use crate::pki_data::blocks_view;
use crate::certificate::{
    bytes_equal, copy_bytes, certs_view, self_signature_valid, x509_self_signature_valid, Certificate,
    CertificateView,
};
use crate::identity::{Identity, IdentityView};
use crate::private_key::{check_for_certificate_private_key, key_matches, PrivateKey};

verus! {

#[verifier::external_type_specification]
#[verifier::external_body]
pub struct ExVerifier(Verifier);

/// Why a certificate or an identity failed validation.
#[derive(Debug)]
pub enum ValidateCertificateError {
    /// The certificate's server name (first field) is not the expected one
    /// (second field).
    NonMatchingServerName(String, String),
    /// The current time is outside the certificate's validity interval.
    CertificateHasExpired,
    /// The certificate is self-signed and the policy does not allow it.
    CertificateSelfSigned,
    /// The certificate's subject and issuer are the same name, but its
    /// signature does not verify against its own key.
    MalformedSelfSignedCertificate,
    /// The trust verifier rejected the chain.
    InvalidCertificateChain,
    /// The private key is not the leaf certificate's.
    InvalidCertificateSignature,
}

/// The kinds of validation failure, without their details.
#[derive(PartialEq, Eq, Structural, Clone, Copy, Debug)]
pub enum ValidationFailure {
    DomainMismatch,
    Expired,
    SelfSignedRejected,
    MalformedSelfSigned,
    UntrustedChain,
    InvalidSignature,
}

pub open spec fn failure_of(e: ValidateCertificateError) -> ValidationFailure {
    match e {
        ValidateCertificateError::NonMatchingServerName(_, _) => ValidationFailure::DomainMismatch,
        ValidateCertificateError::CertificateHasExpired => ValidationFailure::Expired,
        ValidateCertificateError::CertificateSelfSigned => ValidationFailure::SelfSignedRejected,
        ValidateCertificateError::MalformedSelfSignedCertificate => ValidationFailure::MalformedSelfSigned,
        ValidateCertificateError::InvalidCertificateChain => ValidationFailure::UntrustedChain,
        ValidateCertificateError::InvalidCertificateSignature => ValidationFailure::InvalidSignature,
    }
}

/// Whether a certificate is self-signed, given whether its signature
/// verifies against its own key: subject equal to issuer and a valid
/// signature. Equal names with a bad signature are reported, not masked.
pub open spec fn self_signed_verdict(cert: CertificateView, signature_valid: bool) -> Result<
    bool,
    ValidationFailure,
> {
    if cert.is_self_issued() {
        if signature_valid {
            Ok(true)
        } else {
            Err(ValidationFailure::MalformedSelfSigned)
        }
    } else {
        Ok(false)
    }
}

/// `self_signed_verdict` with the signature check that x509-parser makes.
pub open spec fn self_signed(cert: CertificateView) -> Result<bool, ValidationFailure> {
    self_signed_verdict(cert, x509_self_signature_valid(cert.der))
}

/// Decides self-signedness from the outcome of the signature check.
pub fn classify_self_signed(cert: &Certificate, signature_valid: bool) -> (r: Result<
    bool,
    ValidateCertificateError,
>)
    ensures
        match self_signed_verdict(cert@, signature_valid) {
            Ok(b) => r == Ok::<bool, ValidateCertificateError>(b),
            Err(k) => r matches Err(e) && failure_of(e) == k,
        },
{
    if bytes_equal(cert.subject.as_slice(), cert.issuer.as_slice()) {
        if signature_valid {
            Ok(true)
        } else {
            Err(ValidateCertificateError::MalformedSelfSignedCertificate)
        }
    } else {
        Ok(false)
    }
}

/// Whether `cert` is self-signed: its subject equals its issuer and its
/// signature verifies against its own public key. Equal names with a
/// signature that does not verify are an error.
pub fn is_self_signed(cert: &Certificate) -> (r: Result<bool, ValidateCertificateError>)
    ensures
        match self_signed(cert@) {
            Ok(b) => r == Ok::<bool, ValidateCertificateError>(b),
            Err(k) => r matches Err(e) && failure_of(e) == k,
        },
{
    if bytes_equal(cert.subject.as_slice(), cert.issuer.as_slice()) {
        let valid = self_signature_valid(cert.der.as_slice());
        classify_self_signed(cert, valid)
    } else {
        Ok(false)
    }
}

/// Whether `now` lies outside the certificate's validity interval.
pub fn is_certificate_expired(x509: &Certificate, now: i64) -> (r: bool)
    ensures
        r == x509@.expired_at(now),
{
    now < x509.not_before || now > x509.not_after
}

/// Whether the server name derived from the certificate's subject is exactly
/// `server_name`.
pub fn validate_certificate_domain(cert: &Certificate, server_name: &String) -> (r: bool)
    ensures
        r == (cert@.server_name == server_name@),
{
    cert.server_name == *server_name
}

/// Whether `private_key` is the key of `cert`: the public component derived
/// from the key equals the certificate's encoded public key.
pub fn validate_signature(cert: &Certificate, private_key: &PrivateKey) -> (r: bool)
    ensures
        r == key_matches(cert@, private_key@),
{
    check_for_certificate_private_key(cert, private_key)
}

/// Relies on x509-parser's `ASN1Time::now`: the current time in Unix
/// seconds. Nothing is promised of the value.
#[verifier::external_body]
fn current_unix_time() -> (r: i64) {
    x509_parser::time::ASN1Time::now().timestamp()
}

/// Relies on rustls-platform-verifier's `Verifier::new`, with rustls's ring
/// provider: a verifier backed by the platform's trust store, when one can
/// be made.
#[verifier::external_body]
fn platform_verifier() -> (r: Option<Verifier>) {
    Verifier::new(Arc::new(rustls::crypto::ring::default_provider())).ok()
}

/// Relies on rustls-platform-verifier's `verify_server_cert`: whether the
/// platform's trust store accepts the chain for `server_name` at `now` (Unix
/// seconds). The verdict depends on the platform; nothing is promised of it.
#[verifier::external_body]
fn validate_certificate_chain(
    verifier: &Verifier,
    end: &Vec<u8>,
    intermediates: &Vec<Vec<u8>>,
    server_name: &String,
    now: u64,
) -> (r: bool) {
    let end = CertificateDer::from(end.clone());
    let chain: Vec<CertificateDer> = intermediates.iter().map(|c| CertificateDer::from(c.clone())).collect();
    match ServerName::try_from(server_name.clone()) {
        Ok(name) => verifier.verify_server_cert(&end, &chain, &name, &[], UnixTime::since_unix_epoch(
            Duration::from_secs(now),
        )).is_ok(),
        Err(_) => false,
    }
}

/// Whether rustls-pki-types accepts `name` as a server name (a DNS name or
/// an IP address).
pub uninterp spec fn server_name_valid(name: Seq<char>) -> bool;

/// Relies on rustls-pki-types's `ServerName::try_from(&str)`.
#[verifier::external_body]
fn is_valid_server_name(name: &str) -> (r: bool)
    ensures
        r == server_name_valid(name@),
{
    ServerName::try_from(name).is_ok()
}

/// The DER encodings of a sequence of certificates, in order.
pub open spec fn ders_of(certs: Seq<CertificateView>) -> Seq<Seq<u8>> {
    certs.map_values(|c: CertificateView| c.der)
}

/// The intermediates handed to the trust verifier: the DER encoding of each
/// certificate, in leaf-to-root order.
pub fn chain_for_verifier(intermediates: &Vec<Certificate>) -> (r: Vec<Vec<u8>>)
    ensures
        blocks_view(r@) == ders_of(certs_view(intermediates@)),
{
    let ghost all = ders_of(certs_view(intermediates@));
    let mut chain: Vec<Vec<u8>> = Vec::new();
    let mut i: usize = 0;
    while i < intermediates.len()
        invariant
            0 <= i <= intermediates@.len(),
            all == ders_of(certs_view(intermediates@)),
            blocks_view(chain@) == all.subrange(0, i as int),
        decreases intermediates@.len() - i,
    {
        let der = copy_bytes(&intermediates[i].der);
        let ghost prev = chain@;
        chain.push(der);
        assert(blocks_view(chain@) =~= blocks_view(prev).push(intermediates@[i as int].der@));
        assert(all.subrange(0, i + 1) =~= all.subrange(0, i as int).push(all[i as int]));
        i = i + 1;
    }
    assert(all.subrange(0, i as int) =~= all);
    chain
}

/// Where a validation policy comes from.
pub trait PkiValidatorConfiguration {
    fn get_allow_self_signed_certificate(&self) -> bool;

    fn get_validate_expiration(&self) -> bool;

    fn get_validate_domain(&self) -> bool;

    fn get_validate_certificate_chain(&self) -> bool;

    fn get_domain(&self) -> String;
}

/// Why a validator could not be built.
#[derive(PartialEq, Eq, Structural, Clone, Copy, Debug)]
pub enum ValidatorConfigError {
    /// The expected domain is not a valid server name.
    InvalidServerName,
    /// Chain checking is asked for but no trust verifier could be made.
    VerifierUnavailable,
}

/// A validation policy: four independent switches and the expected domain.
pub struct PkiValidatorConfig {
    pub allow_self_signed: bool,
    pub validate_expiration: bool,
    pub validate_domain: bool,
    pub verify_certificate_chain: bool,
    pub server_name: String,
}

pub struct PolicyView {
    pub allow_self_signed: bool,
    pub validate_expiration: bool,
    pub validate_domain: bool,
    pub verify_certificate_chain: bool,
    pub server_name: Seq<char>,
}

impl View for PkiValidatorConfig {
    type V = PolicyView;

    open spec fn view(&self) -> PolicyView {
        PolicyView {
            allow_self_signed: self.allow_self_signed,
            validate_expiration: self.validate_expiration,
            validate_domain: self.validate_domain,
            verify_certificate_chain: self.verify_certificate_chain,
            server_name: self.server_name@,
        }
    }
}

impl PkiValidatorConfig {
    /// A policy from its parts; the domain must be a valid server name.
    pub fn from_parts(
        allow_self_signed: bool,
        validate_expiration: bool,
        validate_domain: bool,
        verify_certificate_chain: bool,
        domain: String,
    ) -> (r: Result<PkiValidatorConfig, ValidatorConfigError>)
        ensures
            server_name_valid(domain@) ==> (r matches Ok(c) && c@ == (PolicyView {
                allow_self_signed,
                validate_expiration,
                validate_domain,
                verify_certificate_chain,
                server_name: domain@,
            })),
            !server_name_valid(domain@) ==> r == Err::<PkiValidatorConfig, ValidatorConfigError>(
                ValidatorConfigError::InvalidServerName,
            ),
    {
        if !is_valid_server_name(domain.as_str()) {
            return Err(ValidatorConfigError::InvalidServerName);
        }
        Ok(
            PkiValidatorConfig {
                allow_self_signed,
                validate_expiration,
                validate_domain,
                verify_certificate_chain,
                server_name: domain,
            },
        )
    }

    /// A policy read from `config`; its domain must be a valid server name.
    pub fn new<C: PkiValidatorConfiguration>(config: &C) -> (r: Result<
        PkiValidatorConfig,
        ValidatorConfigError,
    >)
        ensures
            r matches Ok(c) ==> server_name_valid(c@.server_name),
            r matches Err(e) ==> e == ValidatorConfigError::InvalidServerName,
    {
        PkiValidatorConfig::from_parts(
            config.get_allow_self_signed_certificate(),
            config.get_validate_expiration(),
            config.get_validate_domain(),
            config.get_validate_certificate_chain(),
            config.get_domain(),
        )
    }
}

/// The outcome of validating a leaf under a policy, given the current time,
/// whether the leaf's signature verifies against its own key, and the trust
/// verifier's verdict. Checks run in a fixed order and the first failure is
/// reported: key match, domain, expiration, self-signature, chain trust.
/// `check_key` says whether the key-match check applies at all.
pub open spec fn verdict(
    p: PolicyView,
    leaf: CertificateView,
    key_ok: bool,
    check_key: bool,
    now: i64,
    signature_valid: bool,
    trusted: bool,
) -> Result<(), ValidationFailure> {
    if check_key && p.verify_certificate_chain && !key_ok {
        Err(ValidationFailure::InvalidSignature)
    } else if p.validate_domain && leaf.server_name != p.server_name {
        Err(ValidationFailure::DomainMismatch)
    } else if p.validate_expiration && leaf.expired_at(now) {
        Err(ValidationFailure::Expired)
    } else if !p.allow_self_signed && self_signed_verdict(leaf, signature_valid) is Err {
        Err(ValidationFailure::MalformedSelfSigned)
    } else if !p.allow_self_signed && self_signed_verdict(leaf, signature_valid) == Ok::<
        bool,
        ValidationFailure,
    >(true) {
        Err(ValidationFailure::SelfSignedRejected)
    } else if p.verify_certificate_chain && !trusted {
        Err(ValidationFailure::UntrustedChain)
    } else {
        Ok(())
    }
}

/// The outcome of validating an identity; see `verdict`.
pub open spec fn identity_verdict(
    p: PolicyView,
    id: IdentityView,
    now: i64,
    signature_valid: bool,
    trusted: bool,
) -> Result<(), ValidationFailure> {
    verdict(
        p,
        id.certificate,
        key_matches(id.certificate, id.private_key),
        true,
        now,
        signature_valid,
        trusted,
    )
}

/// With expiration checking on, an identity whose leaf is past its
/// not-after time fails as expired once the checks before it pass; a leaf
/// within its validity interval never fails as expired.
pub proof fn lemma_expiration_check(
    p: PolicyView,
    id: IdentityView,
    now: i64,
    signature_valid: bool,
    trusted: bool,
)
    requires
        p.validate_expiration,
        !p.verify_certificate_chain || key_matches(id.certificate, id.private_key),
        !p.validate_domain || id.certificate.server_name == p.server_name,
    ensures
        id.certificate.not_after < now ==> identity_verdict(p, id, now, signature_valid, trusted)
            == Err::<(), ValidationFailure>(ValidationFailure::Expired),
        id.certificate.not_before <= now <= id.certificate.not_after ==> identity_verdict(
            p,
            id,
            now,
            signature_valid,
            trusted,
        ) != Err::<(), ValidationFailure>(ValidationFailure::Expired),
{
}

/// `r` reports the failure kind `v`, and a domain mismatch names the
/// certificate's server name and the expected one.
pub open spec fn reports(
    r: Result<(), ValidateCertificateError>,
    v: Result<(), ValidationFailure>,
    leaf: CertificateView,
    p: PolicyView,
) -> bool {
    match v {
        Ok(()) => r is Ok,
        Err(k) => match r {
            Err(e) => failure_of(e) == k && match e {
                ValidateCertificateError::NonMatchingServerName(a, b) => a@ == leaf.server_name
                    && b@ == p.server_name,
                _ => true,
            },
            Ok(_) => false,
        },
    }
}

/// Validates certificates and identities against a fixed policy.
pub struct PkiValidator {
    config: PkiValidatorConfig,
    cert_chain_verifier: Option<Verifier>,
}

impl PkiValidator {
    /// A validator for `config`. A trust verifier is made only when chain
    /// checking is enabled, and failing to make one is an error.
    pub fn new(config: PkiValidatorConfig) -> (r: Result<PkiValidator, ValidatorConfigError>)
        ensures
            r matches Ok(v) ==> v.policy() == config@,
            r matches Err(e) ==> (config.verify_certificate_chain && e
                == ValidatorConfigError::VerifierUnavailable),
            !config.verify_certificate_chain ==> r is Ok,
    {
        if config.verify_certificate_chain {
            match platform_verifier() {
                Some(v) => Ok(PkiValidator { config, cert_chain_verifier: Some(v) }),
                None => Err(ValidatorConfigError::VerifierUnavailable),
            }
        } else {
            Ok(PkiValidator { config, cert_chain_verifier: None })
        }
    }

    /// The policy of this validator.
    pub closed spec fn policy(&self) -> PolicyView {
        self.config@
    }

    /// The policy, so that callers can see which checks are enabled without
    /// running them.
    pub fn config(&self) -> (r: &PkiValidatorConfig)
        ensures
            r@ == self.policy(),
    {
        &self.config
    }

    /// Validates a leaf given the outcomes of the outside checks; `check_key`
    /// and `key_ok` decide the key-match check.
    pub fn decide(
        &self,
        leaf: &Certificate,
        key_ok: bool,
        check_key: bool,
        now: i64,
        signature_valid: bool,
        trusted: bool,
    ) -> (r: Result<(), ValidateCertificateError>)
        ensures
            reports(
                r,
                verdict(self.policy(), leaf@, key_ok, check_key, now, signature_valid, trusted),
                leaf@,
                self.policy(),
            ),
    {
        let p = &self.config;
        if check_key && p.verify_certificate_chain && !key_ok {
            return Err(ValidateCertificateError::InvalidCertificateSignature);
        }
        if p.validate_domain && !validate_certificate_domain(leaf, &p.server_name) {
            return Err(
                ValidateCertificateError::NonMatchingServerName(
                    leaf.server_name.clone(),
                    p.server_name.clone(),
                ),
            );
        }
        if p.validate_expiration && is_certificate_expired(leaf, now) {
            return Err(ValidateCertificateError::CertificateHasExpired);
        }
        if !p.allow_self_signed {
            match classify_self_signed(leaf, signature_valid) {
                Err(e) => return Err(e),
                Ok(true) => return Err(ValidateCertificateError::CertificateSelfSigned),
                Ok(false) => {},
            }
        }
        if p.verify_certificate_chain && !trusted {
            return Err(ValidateCertificateError::InvalidCertificateChain);
        }
        Ok(())
    }

    /// Validates an identity given the current time, whether its leaf's
    /// signature verifies against the leaf's own key, and the trust
    /// verifier's verdict on its chain.
    pub fn verify_identity_with(
        &self,
        identity: &Identity,
        now: i64,
        signature_valid: bool,
        trusted: bool,
    ) -> (r: Result<(), ValidateCertificateError>)
        ensures
            reports(
                r,
                identity_verdict(
                self.policy(),
                identity@,
                now,
                signature_valid,
                trusted,
            ),
                identity@.certificate,
                self.policy(),
            ),
    {
        let key_ok = validate_signature(&identity.certificate, &identity.private_key);
        self.decide(&identity.certificate, key_ok, true, now, signature_valid, trusted)
    }

    fn chain_trusted(&self, leaf: &Certificate, chain: &Vec<Vec<u8>>, now: i64) -> (r: bool) {
        match &self.cert_chain_verifier {
            Some(v) => {
                let secs: u64 = if now >= 0 {
                    now as u64
                } else {
                    0
                };
                validate_certificate_chain(v, &leaf.der, chain, &self.config.server_name, secs)
            },
            None => false,
        }
    }

    /// Validates an identity against the policy at the current time. The
    /// trust verifier gets the leaf, the intermediates in leaf-to-root order
    /// (as `chain_for_verifier` builds them), the expected domain and the
    /// current time; it is consulted only when chain checking is enabled and
    /// every earlier check passed.
    pub fn verify_identity(&self, identity: &Identity) -> (r: Result<(), ValidateCertificateError>)
        ensures
            exists|now: i64, trusted: bool|
                reports(
                    r,
                    identity_verdict(
                        self.policy(),
                        identity@,
                        now,
                        x509_self_signature_valid(identity@.certificate.der),
                        trusted,
                    ),
                    identity@.certificate,
                    self.policy(),
                ),
    {
        let now = current_unix_time();
        let leaf = &identity.certificate;
        let signature_valid = self_signature_valid(leaf.der.as_slice());
        let pre = self.verify_identity_with(identity, now, signature_valid, true);
        if pre.is_err() || !self.config.verify_certificate_chain {
            assert(reports(
                pre,
                identity_verdict(
                    self.policy(),
                    identity@,
                    now,
                    x509_self_signature_valid(identity@.certificate.der),
                    true,
                ),
                identity@.certificate,
                self.policy(),
            ));
            return pre;
        }
        let chain = chain_for_verifier(&identity.intermediate);
        let trusted = self.chain_trusted(leaf, &chain, now);
        let r = self.verify_identity_with(identity, now, signature_valid, trusted);
        assert(reports(
            r,
            identity_verdict(
                self.policy(),
                identity@,
                now,
                x509_self_signature_valid(identity@.certificate.der),
                trusted,
            ),
            identity@.certificate,
            self.policy(),
        ));
        r
    }

    /// Validates a bare certificate against the policy at the current time;
    /// the key-match check does not apply. The trust verifier gets the
    /// certificate and `intermediate`, as `chain_for_verifier` builds them.
    pub fn verify_certificate(&self, certificate: &Certificate, intermediate: &Vec<Certificate>) -> (r:
        Result<(), ValidateCertificateError>)
        ensures
            exists|now: i64, trusted: bool|
                reports(
                    r,
                    verdict(
                        self.policy(),
                        certificate@,
                        false,
                        false,
                        now,
                        x509_self_signature_valid(certificate@.der),
                        trusted,
                    ),
                    certificate@,
                    self.policy(),
                ),
    {
        let now = current_unix_time();
        let signature_valid = self_signature_valid(certificate.der.as_slice());
        let pre = self.decide(certificate, false, false, now, signature_valid, true);
        if pre.is_err() || !self.config.verify_certificate_chain {
            assert(reports(
                pre,
                verdict(
                    self.policy(),
                    certificate@,
                    false,
                    false,
                    now,
                    x509_self_signature_valid(certificate@.der),
                    true,
                ),
                certificate@,
                self.policy(),
            ));
            return pre;
        }
        let chain = chain_for_verifier(intermediate);
        let trusted = self.chain_trusted(certificate, &chain, now);
        let r = self.decide(certificate, false, false, now, signature_valid, trusted);
        assert(reports(
            r,
            verdict(
                self.policy(),
                certificate@,
                false,
                false,
                now,
                x509_self_signature_valid(certificate@.der),
                trusted,
            ),
            certificate@,
            self.policy(),
        ));
        r
    }
}

/// The first verdict along `chain` that is not "not self-signed": `Ok(true)`
/// at the first self-signed certificate, an error at the first malformed
/// one, `Ok(false)` when there is neither.
pub open spec fn any_self_signed(chain: Seq<CertificateView>) -> Result<bool, ValidationFailure>
    decreases chain.len(),
{
    if chain.len() == 0 {
        Ok(false)
    } else {
        match self_signed(chain[0]) {
            Ok(false) => any_self_signed(chain.drop_first()),
            other => other,
        }
    }
}

impl Identity {
    /// Whether a certificate of the chain is self-signed; a certificate with
    /// equal names and a bad signature met first is an error.
    pub fn is_any_self_signed(&self) -> (r: Result<bool, ValidateCertificateError>)
        ensures
            match any_self_signed(self@.chain()) {
                Ok(b) => r == Ok::<bool, ValidateCertificateError>(b),
                Err(k) => r matches Err(e) && failure_of(e) == k,
            },
    {
        let chain = self.get_certificate_chain();
        let ghost cv = certs_view(chain@);
        let mut i: usize = 0;
        assert(cv.subrange(0, cv.len() as int) =~= cv);
        while i < chain.len()
            invariant
                0 <= i <= chain@.len(),
                cv == certs_view(chain@),
                cv == self@.chain(),
                any_self_signed(cv) == any_self_signed(cv.subrange(i as int, cv.len() as int)),
            decreases chain@.len() - i,
        {
            let ghost rest = cv.subrange(i as int, cv.len() as int);
            assert(rest[0] == chain@[i as int]@);
            assert(rest.drop_first() =~= cv.subrange(i + 1, cv.len() as int));
            match is_self_signed(&chain[i]) {
                Ok(false) => {},
                other => return other,
            }
            i = i + 1;
        }
        Ok(false)
    }

    /// Whether `now` is outside the validity of some certificate of the
    /// chain.
    pub fn is_any_expired(&self, now: i64) -> (r: bool)
        ensures
            r == exists|i: int| 0 <= i < self@.chain().len() && #[trigger] self@.chain()[i].expired_at(now),
    {
        let chain = self.get_certificate_chain();
        let ghost cv = certs_view(chain@);
        let mut i: usize = 0;
        while i < chain.len()
            invariant
                0 <= i <= chain@.len(),
                cv == certs_view(chain@),
                cv == self@.chain(),
                forall|j: int| 0 <= j < i ==> !(#[trigger] cv[j]).expired_at(now),
            decreases chain@.len() - i,
        {
            assert(cv[i as int] == chain@[i as int]@);
            if is_certificate_expired(&chain[i], now) {
                return true;
            }
            i = i + 1;
        }
        false
    }
}

} // verus!
