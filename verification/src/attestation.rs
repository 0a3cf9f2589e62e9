//! Checking the identity service's attestation before trusting it.
//!
//! The service answers with the digest of the container image it runs and a
//! Google Cloud Attestation (GCA) token. The client accepts it when the digest
//! is one it trusts, and the token's claims say that the machine is an AMD SEV
//! confidential VM with secure boot on and debugging off since boot, and its
//! nonce names the hash of the TLS key the connection uses. The token's RS256
//! signature is checked against the GCA signer's key set, which the caller
//! fetches from the network and hands over as JSON text; the caller also reads
//! the verified claims from their JSON text into `GcaClaims`.
use vstd::prelude::*;
use crate::crypto;
use crate::proto::gossamer::AttestationResponse;

verus! {

/// The hardware model a trusted service runs on.
pub open spec fn trusted_hwmodel() -> Seq<char> {
    "GCP_AMD_SEV"@
}

/// The debug status of a trusted service.
pub open spec fn trusted_dbgstat() -> Seq<char> {
    "disabled-since-boot"@
}

/// Why an attestation was refused.
#[derive(Debug, Clone)]
pub enum AttestationError {
    /// A field of the response is absent.
    MissingField(&'static str),
    /// The container image digest is not a trusted one.
    UntrustedContainer(Vec<u8>),
    /// The TLS key the token binds is not the one the connection uses.
    TlsBindingMismatch { expected: Vec<u8>, actual: Vec<u8> },
    /// The token's signature or issuer did not verify.
    TokenVerification(String),
    /// The machine is not the trusted hardware model.
    InvalidHardware(String),
    /// Secure boot is off.
    InsecureBoot,
    /// Debugging was enabled on the confidential VM.
    DebugEnabled(String),
    /// The token signer's keys could not be fetched.
    JwksFetch(String),
}

/// The claims of a GCA token that the client reads.
#[derive(Debug, Clone)]
pub struct GcaClaims {
    pub iss: String,
    pub sub: String,
    pub aud: String,
    pub exp: u64,
    pub iat: u64,
    pub eat_nonce: Vec<String>,
    pub secboot: bool,
    pub hwmodel: String,
    pub swname: Option<String>,
    pub dbgstat: String,
    pub google_service_accounts: Option<Vec<String>>,
}

/// The container image digests of the identity service builds that clients trust.
pub open spec fn trusted_digests() -> Seq<Seq<u8>> {
    seq![Seq::new(32, |i: int| 0xAAu8)]
}

/// The container image digests of the identity service builds that clients trust.
pub fn trusted_identity_image_digests() -> (res: Vec<Vec<u8>>)
    ensures
        res@.map_values(|d: Vec<u8>| d@) == trusted_digests(),
{
    let mut digest: Vec<u8> = Vec::new();
    let mut i: usize = 0;
    while i < 32
        invariant
            i <= 32,
            digest@ == Seq::new(i as nat, |j: int| 0xAAu8),
        decreases 32 - i,
    {
        digest.push(0xAA);
        i = i + 1;
        assert(digest@ =~= Seq::new(i as nat, |j: int| 0xAAu8));
    }
    let mut res: Vec<Vec<u8>> = Vec::new();
    res.push(digest);
    assert(res@.map_values(|d: Vec<u8>| d@) =~= trusted_digests());
    res
}

/// The SHA-256 digest of a server certificate, which the attestation binds.
pub fn compute_pubkey_hash(cert_der: &[u8]) -> (res: Vec<u8>)
    ensures
        res@ == crypto::sha256(cert_der@),
{
    let digest = crypto::sha256_digest(cert_der);
    crate::bytes::to_vec(&digest)
}

/// The issuer of GCA tokens.
pub open spec fn gca_issuer() -> Seq<char> {
    "https://confidentialcomputing.googleapis.com"@
}

/// How long past its `exp` a token is still accepted, in seconds.
pub const EXPIRY_LEEWAY_SECS: u64 = 60;

/// The outcome of checking the GCA token `token` against the signer's key set
/// `jwks`: the token's claims as JSON text when its RS256 signature verifies
/// under the key its header names and its issuer is the GCA issuer, otherwise
/// the reason it is refused.
pub open spec fn token_check(token: Seq<char>, jwks: Seq<char>) -> Result<Seq<char>, Seq<char>> {
    match crypto::jwt_header_kid(token) {
        Err(e) => Err(e),
        Ok(None) => Err("missing kid in JWT header"@),
        Ok(Some(kid)) => match crypto::jwt_rs256_payload(token, jwks, kid, gca_issuer()) {
            Err(e) => Err(e),
            Ok(None) => Err("kid "@ + kid + " not found in JWKS"@),
            Ok(Some(p)) => Ok(p),
        },
    }
}

/// The verifier of the identity service's attestation.
pub struct AttestationVerifier;

/// Whether `eat_nonce` names the TLS key hash, in hex or in base64.
pub open spec fn nonce_binds(eat_nonce: Seq<String>, hash: Seq<u8>) -> bool {
    exists|i: int|
        0 <= i < eat_nonce.len() && ((#[trigger] eat_nonce[i])@ == crypto::hex_lower(hash) || eat_nonce[i]@
            == crypto::base64_standard(hash))
}

impl AttestationVerifier {
    /// The first check: the response names a trusted container image and
    /// carries a token. Answers the token, whose signature the caller checks next.
    pub fn check_image<'a>(&self, response: &'a AttestationResponse) -> (res: Result<&'a String, AttestationError>)
        ensures
            match response.container_image_digest {
                None => res matches Err(AttestationError::MissingField(f)) && f@ == "container_image_digest"@,
                Some(d) => if !trusted_digests().contains(d@) {
                    res matches Err(AttestationError::UntrustedContainer(got)) && got@ == d@
                } else {
                    match response.gca_token {
                        None => res matches Err(AttestationError::MissingField(f)) && f@ == "gca_token"@,
                        Some(t) => res matches Ok(r) && *r == t,
                    }
                },
            },
    {
        proof {
            reveal_strlit("container_image_digest");
            reveal_strlit("gca_token");
        }
        let digest = match &response.container_image_digest {
            Some(d) => d,
            None => return Err(AttestationError::MissingField("container_image_digest")),
        };
        let trusted = trusted_identity_image_digests();
        let n = trusted.len();
        let mut found = false;
        let mut i: usize = 0;
        while i < n && !found
            invariant
                n == trusted@.len(),
                trusted@.map_values(|d: Vec<u8>| d@) == trusted_digests(),
                i <= n,
                found ==> trusted_digests().contains(digest@),
                !found ==> forall|j: int| 0 <= j < i ==> trusted_digests()[j] != digest@,
            decreases n - i + (if found { 0int } else { 1int }),
        {
            assert(trusted_digests()[i as int] == trusted@[i as int]@);
            if crate::bytes::bytes_eq(trusted[i].as_slice(), digest.as_slice()) {
                found = true;
            } else {
                i = i + 1;
            }
        }
        if !found {
            proof {
                if trusted_digests().contains(digest@) {
                    let j = choose|j: int| 0 <= j < trusted_digests().len() && trusted_digests()[j] == digest@;
                    assert(j < i);
                }
            }
            return Err(AttestationError::UntrustedContainer(crate::bytes::to_vec(digest.as_slice())));
        }
        match &response.gca_token {
            Some(t) => Ok(t),
            None => Err(AttestationError::MissingField("gca_token")),
        }
    }

    /// The first two steps: the response names a trusted container image and
    /// carries a token, and the token's signature verifies under the key set
    /// `jwks_json` of the GCA signer (the key its header names) with the GCA
    /// issuer. Answers the token's claims as JSON text, which the caller reads
    /// into `GcaClaims` for `check_token_claims`.
    pub fn verify_token(&self, response: &AttestationResponse, jwks_json: &str) -> (res: Result<String, AttestationError>)
        ensures
            match response.container_image_digest {
                None => res matches Err(AttestationError::MissingField(f)) && f@ == "container_image_digest"@,
                Some(d) => if !trusted_digests().contains(d@) {
                    res matches Err(AttestationError::UntrustedContainer(got)) && got@ == d@
                } else {
                    match response.gca_token {
                        None => res matches Err(AttestationError::MissingField(f)) && f@ == "gca_token"@,
                        Some(t) => match token_check(t@, jwks_json@) {
                            Ok(p) => res matches Ok(r) && r@ == p,
                            Err(e) => res matches Err(AttestationError::TokenVerification(m)) && m@ == e,
                        },
                    }
                },
            },
    {
        let token = match self.check_image(response) {
            Ok(t) => t,
            Err(e) => return Err(e),
        };
        let kid = match crypto::jwt_kid(token.as_str()) {
            Ok(Some(k)) => k,
            Ok(None) => return Err(AttestationError::TokenVerification("missing kid in JWT header".to_owned())),
            Err(e) => return Err(AttestationError::TokenVerification(e)),
        };
        let issuer = "https://confidentialcomputing.googleapis.com";
        match crypto::jwt_decode_rs256(token.as_str(), jwks_json, kid.as_str(), issuer) {
            Ok(Some(payload)) => Ok(payload),
            Ok(None) => {
                let mut text = "kid ".to_owned();
                text.append(kid.as_str());
                text.append(" not found in JWKS");
                Err(AttestationError::TokenVerification(text))
            },
            Err(e) => Err(AttestationError::TokenVerification(e)),
        }
    }

    /// The checks on the claims of a token whose signature verified, at the
    /// time `now` (seconds since the Unix epoch): a token whose `exp` lies
    /// more than the leeway before `now` is refused as expired; the other
    /// claims are checked as `check_claims` checks them.
    pub fn check_token_claims(&self, claims: &GcaClaims, actual_tls_pubkey_hash: &[u8], now: u64) -> (res: Result<
        (),
        AttestationError,
    >)
        ensures
            now >= EXPIRY_LEEWAY_SECS && claims.exp < now - EXPIRY_LEEWAY_SECS ==> (res matches Err(
                AttestationError::TokenVerification(m),
            ) && m@ == "ExpiredSignature"@),
            res is Ok <==> !(now >= EXPIRY_LEEWAY_SECS && claims.exp < now - EXPIRY_LEEWAY_SECS)
                && claims.hwmodel@ == trusted_hwmodel() && claims.secboot && claims.dbgstat@ == trusted_dbgstat()
                && nonce_binds(claims.eat_nonce@, actual_tls_pubkey_hash@),
            !(now >= EXPIRY_LEEWAY_SECS && claims.exp < now - EXPIRY_LEEWAY_SECS) ==> {
                &&& claims.hwmodel@ != trusted_hwmodel() ==> (res matches Err(AttestationError::InvalidHardware(h))
                    && h@ == claims.hwmodel@)
                &&& claims.hwmodel@ == trusted_hwmodel() && !claims.secboot ==> (res matches Err(
                    AttestationError::InsecureBoot,
                ))
                &&& claims.hwmodel@ == trusted_hwmodel() && claims.secboot && claims.dbgstat@ != trusted_dbgstat() ==> (
                res matches Err(AttestationError::DebugEnabled(d)) && d@ == claims.dbgstat@)
                &&& claims.hwmodel@ == trusted_hwmodel() && claims.secboot && claims.dbgstat@ == trusted_dbgstat()
                    && !nonce_binds(claims.eat_nonce@, actual_tls_pubkey_hash@) ==> (res matches Err(
                    AttestationError::TlsBindingMismatch { expected, actual },
                ) && expected@ == actual_tls_pubkey_hash@ && actual@.len() == 0)
            },
    {
        if now >= EXPIRY_LEEWAY_SECS && claims.exp < now - EXPIRY_LEEWAY_SECS {
            return Err(AttestationError::TokenVerification("ExpiredSignature".to_owned()));
        }
        self.check_claims(claims, actual_tls_pubkey_hash)
    }

    /// The last check, on the claims of a token whose signature verified: the
    /// trusted hardware model, secure boot, debugging off since boot, and a
    /// nonce that names the hash of the connection's TLS key (in hex or base64),
    /// checked in that order. A missing binding is reported with the hash that
    /// was looked for as `expected` and nothing matching as `actual`.
    pub fn check_claims(&self, claims: &GcaClaims, actual_tls_pubkey_hash: &[u8]) -> (res: Result<(), AttestationError>)
        ensures
            claims.hwmodel@ != trusted_hwmodel() ==> (res matches Err(AttestationError::InvalidHardware(h))
                && h@ == claims.hwmodel@),
            claims.hwmodel@ == trusted_hwmodel() && !claims.secboot ==> (res matches Err(
                AttestationError::InsecureBoot,
            )),
            claims.hwmodel@ == trusted_hwmodel() && claims.secboot && claims.dbgstat@ != trusted_dbgstat() ==> (
            res matches Err(AttestationError::DebugEnabled(d)) && d@ == claims.dbgstat@),
            claims.hwmodel@ == trusted_hwmodel() && claims.secboot && claims.dbgstat@ == trusted_dbgstat()
                && !nonce_binds(claims.eat_nonce@, actual_tls_pubkey_hash@) ==> (res matches Err(
                AttestationError::TlsBindingMismatch { expected, actual },
            ) && expected@ == actual_tls_pubkey_hash@ && actual@.len() == 0),
            res is Ok <==> claims.hwmodel@ == trusted_hwmodel() && claims.secboot && claims.dbgstat@ == trusted_dbgstat()
                && nonce_binds(claims.eat_nonce@, actual_tls_pubkey_hash@),
    {
        let hwmodel = "GCP_AMD_SEV".to_owned();
        if claims.hwmodel != hwmodel {
            return Err(AttestationError::InvalidHardware(claims.hwmodel.clone()));
        }
        if !claims.secboot {
            return Err(AttestationError::InsecureBoot);
        }
        let dbgstat = "disabled-since-boot".to_owned();
        if claims.dbgstat != dbgstat {
            return Err(AttestationError::DebugEnabled(claims.dbgstat.clone()));
        }
        if !eat_nonce_binds(&claims.eat_nonce, actual_tls_pubkey_hash) {
            return Err(AttestationError::TlsBindingMismatch {
                expected: crate::bytes::to_vec(actual_tls_pubkey_hash),
                actual: Vec::new(),
            });
        }
        Ok(())
    }
}

/// Whether the token's nonce names the TLS key hash, in hex or in base64.
pub fn eat_nonce_binds(eat_nonce: &Vec<String>, hash: &[u8]) -> (res: bool)
    ensures
        res == nonce_binds(eat_nonce@, hash@),
{
    let hex = crypto::hex_encode(hash);
    let b64 = crypto::base64_encode(hash);
    let n = eat_nonce.len();
    let mut i: usize = 0;
    while i < n
        invariant
            n == eat_nonce@.len(),
            i <= n,
            hex@ == crypto::hex_lower(hash@),
            b64@ == crypto::base64_standard(hash@),
            forall|j: int|
                0 <= j < i ==> (#[trigger] eat_nonce@[j])@ != crypto::hex_lower(hash@) && eat_nonce@[j]@
                    != crypto::base64_standard(hash@),
        decreases n - i,
    {
        if eat_nonce[i] == hex || eat_nonce[i] == b64 {
            assert(eat_nonce@[i as int]@ == crypto::hex_lower(hash@) || eat_nonce@[i as int]@ == crypto::base64_standard(
                hash@,
            ));
            return true;
        }
        i = i + 1;
    }
    false
}

} // verus!
