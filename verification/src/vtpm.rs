//! The launcher's measured-boot helpers: image measurement, the (mocked) ACME
//! certificate request and the virtual TPM that records measurements.
use vstd::prelude::*;
use crate::crypto;

verus! {

/// A quote over the PCRs together with its signature.
#[derive(Clone, Debug)]
pub struct VtpmQuote {
    pub quote: Vec<u8>,
    pub signature: Vec<u8>,
    pub pcrs: Vec<u8>,
}

/// Why a vTPM operation failed.
#[derive(Debug, PartialEq, Eq, Structural, Clone, Copy)]
pub enum VtpmError {
    /// The hardware vTPM is not supported yet.
    NotImplemented,
}

/// Extend a vTPM PCR with a measurement.
/// On real hardware this goes to the platform's TPM; in tests a mock records
/// the extensions.
pub trait Vtpm {
    fn extend_pcr(&mut self, pcr: u32, digest: &[u8; 32]) -> Result<(), VtpmError>;

    fn get_quote(&self, nonce: &[u8]) -> Result<VtpmQuote, VtpmError>;
}

/// The hardware vTPM, which is not supported yet: every operation fails.
pub struct RealVtpm;

impl RealVtpm {
    pub fn new() -> (res: Self) {
        RealVtpm
    }
}

impl Vtpm for RealVtpm {
    fn extend_pcr(&mut self, _pcr: u32, _digest: &[u8; 32]) -> (res: Result<(), VtpmError>)
        ensures
            res == Err::<(), VtpmError>(VtpmError::NotImplemented),
    {
        Err(VtpmError::NotImplemented)
    }

    fn get_quote(&self, _nonce: &[u8]) -> (res: Result<VtpmQuote, VtpmError>)
        ensures
            res matches Err(e) && e == VtpmError::NotImplemented,
    {
        Err(VtpmError::NotImplemented)
    }
}

/// A vTPM that records every extension in order.
pub struct MockVtpm {
    pub extensions: Vec<(u32, [u8; 32])>,
}

impl MockVtpm {
    pub fn new() -> (res: Self)
        ensures
            res.extensions@.len() == 0,
    {
        MockVtpm { extensions: Vec::new() }
    }
}

/// The mock quote: 100 bytes of 0x02.
pub open spec fn mock_quote() -> Seq<u8> {
    Seq::new(100, |i: int| 0x02u8)
}

/// The mock quote signature: 64 bytes of 0x03.
pub open spec fn mock_signature() -> Seq<u8> {
    Seq::new(64, |i: int| 0x03u8)
}

/// The mock PCR values: 256 bytes of 0x04.
pub open spec fn mock_pcrs() -> Seq<u8> {
    Seq::new(256, |i: int| 0x04u8)
}

fn filled(byte: u8, n: usize) -> (res: Vec<u8>)
    ensures
        res@ == Seq::new(n as nat, |i: int| byte),
{
    let mut v: Vec<u8> = Vec::new();
    let mut i: usize = 0;
    while i < n
        invariant
            i <= n,
            v@ == Seq::new(i as nat, |j: int| byte),
        decreases n - i,
    {
        v.push(byte);
        i = i + 1;
        assert(v@ =~= Seq::new(i as nat, |j: int| byte));
    }
    v
}

impl Vtpm for MockVtpm {
    fn extend_pcr(&mut self, pcr: u32, digest: &[u8; 32]) -> (res: Result<(), VtpmError>)
        ensures
            res is Ok,
            final(self).extensions@ == old(self).extensions@.push((pcr, *digest)),
    {
        self.extensions.push((pcr, *digest));
        Ok(())
    }

    fn get_quote(&self, _nonce: &[u8]) -> (res: Result<VtpmQuote, VtpmError>)
        ensures
            res matches Ok(q) && q.quote@ == mock_quote() && q.signature@ == mock_signature() && q.pcrs@ == mock_pcrs(),
    {
        Ok(VtpmQuote { quote: filled(0x02, 100), signature: filled(0x03, 64), pcrs: filled(0x04, 256) })
    }
}

/// Computes the SHA-256 digest of an OCI image manifest or arbitrary bytes: the
/// content-addressable hash that identifies the container.
pub fn measure_image(manifest_bytes: &[u8]) -> (res: [u8; 32])
    ensures
        res@ == crypto::sha256(manifest_bytes@),
{
    crypto::sha256_digest(manifest_bytes)
}

/// The manifest that stands for a remote image while registry access is mocked:
/// the bytes of `"mock_container_manifest"`.
pub open spec fn mock_manifest() -> Seq<u8> {
    seq![109u8, 111u8, 99u8, 107u8, 95u8, 99u8, 111u8, 110u8, 116u8, 97u8, 105u8, 110u8, 101u8, 114u8, 95u8,
        109u8, 97u8, 110u8, 105u8, 102u8, 101u8, 115u8, 116u8]
}

/// The digest of a remote image. Registry access is mocked for local
/// development: every reference measures the mock manifest.
pub fn measure_remote_image(_image_ref: &str) -> (res: [u8; 32])
    ensures
        res@ == crypto::sha256(mock_manifest()),
{
    let manifest: [u8; 23] = [109u8, 111u8, 99u8, 107u8, 95u8, 99u8, 111u8, 110u8, 116u8, 97u8, 105u8, 110u8, 101u8, 114u8, 95u8,
        109u8, 97u8, 110u8, 105u8, 102u8, 101u8, 115u8, 116u8];
    assert(manifest@ =~= mock_manifest());
    measure_image(&manifest)
}

/// The bytes of `"mock_key"`.
pub open spec fn mock_private_key() -> Seq<u8> {
    seq![109u8, 111u8, 99u8, 107u8, 95u8, 107u8, 101u8, 121u8]
}

/// Requests a TLS certificate chain and private key (both PEM) for `domain`.
/// The ACME exchange is mocked for local development: the chain is 32 bytes of
/// 0xBB and the key is `"mock_key"`.
pub fn obtain_certificate(_domain: &str, _eab_kid: &str, _eab_hmac: &str, _dns_project: &str) -> (res: (Vec<u8>, Vec<u8>))
    ensures
        res.0@ == Seq::new(32, |i: int| 0xBBu8),
        res.1@ == mock_private_key(),
{
    let cert_chain_pem = filled(0xBB, 32);
    let key: [u8; 8] = [109u8, 111u8, 99u8, 107u8, 95u8, 107u8, 101u8, 121u8];
    let private_key_pem = crate::bytes::to_vec(&key);
    assert(key@ =~= mock_private_key());
    (cert_chain_pem, private_key_pem)
}

/// The PCR that the launcher extends with its measurements.
pub const LAUNCH_PCR: u32 = 14;

/// What the launcher's measured boot produces: the vTPM quote and the TLS
/// certificate chain, for the caller to write out.
pub struct BootArtifacts {
    pub quote: VtpmQuote,
    pub tls_cert: Vec<u8>,
}

/// The launcher's measured boot: measures the container image and the TLS
/// certificate, extends PCR 14 with both digests in that order, and takes a
/// quote.
pub fn measure_boot(vtpm: &mut MockVtpm) -> (res: Result<BootArtifacts, VtpmError>)
    ensures
        res matches Ok(a) && a.quote.quote@ == mock_quote() && a.quote.signature@ == mock_signature()
            && a.tls_cert@ == Seq::new(32, |i: int| 0xBBu8),
        final(vtpm).extensions@.len() == old(vtpm).extensions@.len() + 2,
        final(vtpm).extensions@.subrange(0, old(vtpm).extensions@.len() as int) == old(vtpm).extensions@,
        final(vtpm).extensions@[old(vtpm).extensions@.len() as int].0 == LAUNCH_PCR,
        final(vtpm).extensions@[old(vtpm).extensions@.len() as int].1@ == crypto::sha256(mock_manifest()),
        final(vtpm).extensions@[old(vtpm).extensions@.len() + 1int].0 == LAUNCH_PCR,
        final(vtpm).extensions@[old(vtpm).extensions@.len() + 1int].1@ == crypto::sha256(Seq::new(32, |i: int| 0xBBu8)),
{
    let manifest: [u8; 23] = [109u8, 111u8, 99u8, 107u8, 95u8, 99u8, 111u8, 110u8, 116u8, 97u8, 105u8, 110u8, 101u8, 114u8, 95u8,
        109u8, 97u8, 110u8, 105u8, 102u8, 101u8, 115u8, 116u8];
    assert(manifest@ =~= mock_manifest());
    let container_digest = measure_image(&manifest);
    let (tls_cert, _tls_key) = obtain_certificate("gossamer.brongan.com", "mock_kid", "mock_hmac", "mock_proj");
    let tls_pubkey_hash = measure_image(tls_cert.as_slice());
    match vtpm.extend_pcr(LAUNCH_PCR, &container_digest) {
        Ok(()) => {},
        Err(e) => return Err(e),
    }
    match vtpm.extend_pcr(LAUNCH_PCR, &tls_pubkey_hash) {
        Ok(()) => {},
        Err(e) => return Err(e),
    }
    let nonce: [u8; 5] = [110u8, 111u8, 110u8, 99u8, 101u8];
    let quote = match vtpm.get_quote(&nonce) {
        Ok(q) => q,
        Err(e) => return Err(e),
    };
    Ok(BootArtifacts { quote, tls_cert })
}

} // verus!
