//! What a provider signs with: every provider-signed artifact names the
//! capability it is signed under and its author, and is signed over its
//! statement digest with the provider's current Ed25519 key. A malformed
//! artifact is never signed.

use vstd::prelude::*;

use crate::artifacts::{CreditDecision, DefaultAttestation, FundingQuote, GuaranteeCommitment, GuaranteeRelease};
use crate::provider::{
    find_provider, provider_index, signature_error, ProviderCapability, ProviderDefinition,
    ProviderError, RotateProviderKey,
};
use crate::receivable::AethelError;
use crate::servicing::PaymentEvidence;
use crate::stream::{RegisterStream, StreamTransition};
use crate::types::{spec_verify_key_signature, Commitment, Identifier};

verus! {

/// The Ed25519 signature that the secret key's holder makes over `message`,
/// as computed by `ed25519-dalek`.
pub uninterp spec fn ed25519_signature(secret_key: Seq<u8>, message: Seq<u8>) -> Seq<u8>;

/// `ed25519_dalek::SigningKey::from_bytes` and `Signer::sign`: the
/// deterministic Ed25519 signature over `message` with the key derived from
/// the 32 secret bytes. The contract names the 64 bytes it returns; it
/// claims only that they depend on the two byte strings alone.
#[verifier::external_body]
fn ed25519_sign(secret_key: &[u8; 32], message: &[u8; 32]) -> (r: [u8; 64])
    ensures
        r@ == ed25519_signature(secret_key@, message@),
{
    let key = ed25519_dalek::SigningKey::from_bytes(secret_key);
    ed25519_dalek::Signer::sign(&key, message).to_bytes()
}

/// The signature bytes as a vector.
fn signature_bytes(signature: &[u8; 64]) -> (r: Vec<u8>)
    ensures
        r@ == signature@,
{
    let mut out: Vec<u8> = Vec::new();
    let mut i: usize = 0;
    while i < 64
        invariant
            i <= 64,
            out@ == signature@.subrange(0, i as int),
        decreases 64 - i,
    {
        out.push(signature[i]);
        assert(out@ =~= signature@.subrange(0, i + 1));
        i = i + 1;
    }
    assert(signature@.subrange(0, 64) =~= signature@);
    out
}

/// The provider error for a stream request that cannot be signed.
pub open spec fn stream_signing_error(e: AethelError) -> ProviderError {
    if e == AethelError::InvalidStreamTransition {
        ProviderError::InvalidStreamTransition
    } else {
        ProviderError::InvalidStream
    }
}

fn to_stream_signing_error(e: AethelError) -> (r: ProviderError)
    ensures
        r == stream_signing_error(e),
{
    match e {
        AethelError::InvalidStreamTransition => ProviderError::InvalidStreamTransition,
        _ => ProviderError::InvalidStream,
    }
}

/// An artifact one provider signs under one capability.
pub trait SignedArtifact: Sized {
    /// The statement the provider signs, or why the artifact cannot be
    /// signed.
    spec fn statement_result(&self) -> Result<Seq<u8>, ProviderError>;

    /// The signature the artifact carries.
    spec fn spec_signature(&self) -> Seq<u8>;

    /// Whether `other` is this artifact with only its signature changed.
    spec fn same_but_signature(&self, other: Self) -> bool;

    /// The capability the signing provider must hold for this artifact.
    spec fn spec_capability(&self) -> ProviderCapability;

    /// The provider the artifact names as its author.
    spec fn author(&self) -> Identifier;

    /// The capability the signing provider must hold for this artifact.
    fn capability(&self) -> (r: ProviderCapability)
        ensures
            r == self.spec_capability(),
    ;

    /// The provider the artifact names as its author.
    fn provider_id(&self) -> (r: Identifier)
        ensures
            r == self.author(),
    ;

    /// Digest of the unsigned artifact; fails when the artifact is malformed.
    fn statement(&self) -> (r: Result<Commitment, ProviderError>)
        ensures
            match r {
                Ok(d) => self.statement_result() == Ok::<Seq<u8>, ProviderError>(d@),
                Err(e) => self.statement_result() == Err::<Seq<u8>, ProviderError>(e),
            },
    ;

    /// The signature the artifact carries.
    fn signature(&self) -> (r: &[u8])
        ensures
            r@ == self.spec_signature(),
    ;

    /// Replaces the signature, and nothing else.
    fn set_signature(&mut self, signature: Vec<u8>)
        ensures
            final(self).spec_signature() == signature@,
            old(self).same_but_signature(*final(self)),
    ;
}

/// Signs `artifact` with a provider's current Ed25519 key, given as its 32
/// secret bytes, and returns the statement that was signed. The artifact is
/// checked first, so a malformed artifact is never signed.
pub fn sign_artifact<A: SignedArtifact>(artifact: &mut A, secret_key: &[u8; 32]) -> (r: Result<
    Commitment,
    ProviderError,
>)
    ensures
        match old(artifact).statement_result() {
            Err(e) => r == Err::<Commitment, ProviderError>(e) && *final(artifact) == *old(artifact),
            Ok(s) => r matches Ok(d) && d@ == s && final(artifact).spec_signature() == ed25519_signature(
                secret_key@,
                s,
            ) && old(artifact).same_but_signature(*final(artifact)),
        },
{
    let statement = match artifact.statement() {
        Ok(d) => d,
        Err(e) => return Err(e),
    };
    let signature = ed25519_sign(secret_key, &statement);
    artifact.set_signature(signature_bytes(&signature));
    Ok(statement)
}

impl SignedArtifact for CreditDecision {
    open spec fn statement_result(&self) -> Result<Seq<u8>, ProviderError> {
        if self.well_formed() {
            Ok(self.spec_statement())
        } else {
            Err(ProviderError::InvalidCreditDecision)
        }
    }

    open spec fn spec_signature(&self) -> Seq<u8> {
        self.signature@
    }

    open spec fn same_but_signature(&self, other: Self) -> bool {
        other == (CreditDecision { signature: other.signature, ..*self })
    }

    open spec fn spec_capability(&self) -> ProviderCapability {
        ProviderCapability::CreditAssessor
    }

    fn capability(&self) -> (r: ProviderCapability) {
        ProviderCapability::CreditAssessor
    }

    open spec fn author(&self) -> Identifier {
        self.provider_id
    }

    fn provider_id(&self) -> (r: Identifier) {
        self.provider_id
    }

    fn statement(&self) -> (r: Result<Commitment, ProviderError>) {
        CreditDecision::statement(self)
    }

    fn signature(&self) -> (r: &[u8]) {
        self.signature.as_slice()
    }

    fn set_signature(&mut self, signature: Vec<u8>) {
        self.signature = signature;
    }
}


impl SignedArtifact for GuaranteeCommitment {
    open spec fn statement_result(&self) -> Result<Seq<u8>, ProviderError> {
        if self.well_formed() {
            Ok(self.spec_statement())
        } else {
            Err(ProviderError::InvalidGuarantee)
        }
    }

    open spec fn spec_signature(&self) -> Seq<u8> {
        self.signature@
    }

    open spec fn same_but_signature(&self, other: Self) -> bool {
        other == (GuaranteeCommitment { signature: other.signature, ..*self })
    }

    open spec fn spec_capability(&self) -> ProviderCapability {
        ProviderCapability::Guarantor
    }

    fn capability(&self) -> (r: ProviderCapability) {
        ProviderCapability::Guarantor
    }

    open spec fn author(&self) -> Identifier {
        self.provider_id
    }

    fn provider_id(&self) -> (r: Identifier) {
        self.provider_id
    }

    fn statement(&self) -> (r: Result<Commitment, ProviderError>) {
        GuaranteeCommitment::statement(self)
    }

    fn signature(&self) -> (r: &[u8]) {
        self.signature.as_slice()
    }

    fn set_signature(&mut self, signature: Vec<u8>) {
        self.signature = signature;
    }
}

impl SignedArtifact for GuaranteeRelease {
    open spec fn statement_result(&self) -> Result<Seq<u8>, ProviderError> {
        if self.well_formed() {
            Ok(self.spec_statement())
        } else {
            Err(ProviderError::InvalidGuaranteeRelease)
        }
    }

    open spec fn spec_signature(&self) -> Seq<u8> {
        self.signature@
    }

    open spec fn same_but_signature(&self, other: Self) -> bool {
        other == (GuaranteeRelease { signature: other.signature, ..*self })
    }

    open spec fn spec_capability(&self) -> ProviderCapability {
        ProviderCapability::Guarantor
    }

    fn capability(&self) -> (r: ProviderCapability) {
        ProviderCapability::Guarantor
    }

    open spec fn author(&self) -> Identifier {
        self.provider_id
    }

    fn provider_id(&self) -> (r: Identifier) {
        self.provider_id
    }

    fn statement(&self) -> (r: Result<Commitment, ProviderError>) {
        GuaranteeRelease::statement(self)
    }

    fn signature(&self) -> (r: &[u8]) {
        self.signature.as_slice()
    }

    fn set_signature(&mut self, signature: Vec<u8>) {
        self.signature = signature;
    }
}

impl SignedArtifact for FundingQuote {
    open spec fn statement_result(&self) -> Result<Seq<u8>, ProviderError> {
        if self.well_formed() {
            Ok(self.spec_statement())
        } else {
            Err(ProviderError::InvalidFundingQuote)
        }
    }

    open spec fn spec_signature(&self) -> Seq<u8> {
        self.signature@
    }

    open spec fn same_but_signature(&self, other: Self) -> bool {
        other == (FundingQuote { signature: other.signature, ..*self })
    }

    open spec fn spec_capability(&self) -> ProviderCapability {
        ProviderCapability::LiquidityProvider
    }

    fn capability(&self) -> (r: ProviderCapability) {
        ProviderCapability::LiquidityProvider
    }

    open spec fn author(&self) -> Identifier {
        self.provider_id
    }

    fn provider_id(&self) -> (r: Identifier) {
        self.provider_id
    }

    fn statement(&self) -> (r: Result<Commitment, ProviderError>) {
        FundingQuote::statement(self)
    }

    fn signature(&self) -> (r: &[u8]) {
        self.signature.as_slice()
    }

    fn set_signature(&mut self, signature: Vec<u8>) {
        self.signature = signature;
    }
}

impl SignedArtifact for DefaultAttestation {
    open spec fn statement_result(&self) -> Result<Seq<u8>, ProviderError> {
        if self.well_formed() {
            Ok(self.spec_statement())
        } else {
            Err(ProviderError::InvalidDefaultAttestation)
        }
    }

    open spec fn spec_signature(&self) -> Seq<u8> {
        self.signature@
    }

    open spec fn same_but_signature(&self, other: Self) -> bool {
        other == (DefaultAttestation { signature: other.signature, ..*self })
    }

    open spec fn spec_capability(&self) -> ProviderCapability {
        ProviderCapability::Servicer
    }

    fn capability(&self) -> (r: ProviderCapability) {
        ProviderCapability::Servicer
    }

    open spec fn author(&self) -> Identifier {
        self.provider_id
    }

    fn provider_id(&self) -> (r: Identifier) {
        self.provider_id
    }

    fn statement(&self) -> (r: Result<Commitment, ProviderError>) {
        DefaultAttestation::statement(self)
    }

    fn signature(&self) -> (r: &[u8]) {
        self.signature.as_slice()
    }

    fn set_signature(&mut self, signature: Vec<u8>) {
        self.signature = signature;
    }
}

impl SignedArtifact for RegisterStream {
    open spec fn statement_result(&self) -> Result<Seq<u8>, ProviderError> {
        if self.well_formed() {
            Ok(self.spec_statement())
        } else {
            Err(stream_signing_error(AethelError::InvalidStream))
        }
    }

    open spec fn spec_signature(&self) -> Seq<u8> {
        self.signature@
    }

    open spec fn same_but_signature(&self, other: Self) -> bool {
        other == (RegisterStream { signature: other.signature, ..*self })
    }

    open spec fn spec_capability(&self) -> ProviderCapability {
        ProviderCapability::StreamAttestor
    }

    fn capability(&self) -> (r: ProviderCapability) {
        ProviderCapability::StreamAttestor
    }

    open spec fn author(&self) -> Identifier {
        self.attestor_provider_id
    }

    fn provider_id(&self) -> (r: Identifier) {
        self.attestor_provider_id
    }

    fn statement(&self) -> (r: Result<Commitment, ProviderError>) {
        match RegisterStream::statement(self) {
            Ok(d) => Ok(d),
            Err(e) => Err(to_stream_signing_error(e)),
        }
    }

    fn signature(&self) -> (r: &[u8]) {
        self.signature.as_slice()
    }

    fn set_signature(&mut self, signature: Vec<u8>) {
        self.signature = signature;
    }
}

impl SignedArtifact for StreamTransition {
    open spec fn statement_result(&self) -> Result<Seq<u8>, ProviderError> {
        if self.well_formed() {
            Ok(self.spec_statement())
        } else {
            Err(stream_signing_error(self.malformed_error()))
        }
    }

    open spec fn spec_signature(&self) -> Seq<u8> {
        self.signature@
    }

    open spec fn same_but_signature(&self, other: Self) -> bool {
        other == (StreamTransition { signature: other.signature, ..*self })
    }

    open spec fn spec_capability(&self) -> ProviderCapability {
        ProviderCapability::StreamAttestor
    }

    fn capability(&self) -> (r: ProviderCapability) {
        ProviderCapability::StreamAttestor
    }

    open spec fn author(&self) -> Identifier {
        self.attestor_provider_id
    }

    fn provider_id(&self) -> (r: Identifier) {
        self.attestor_provider_id
    }

    fn statement(&self) -> (r: Result<Commitment, ProviderError>) {
        match StreamTransition::statement(self) {
            Ok(d) => Ok(d),
            Err(e) => Err(to_stream_signing_error(e)),
        }
    }

    fn signature(&self) -> (r: &[u8]) {
        self.signature.as_slice()
    }

    fn set_signature(&mut self, signature: Vec<u8>) {
        self.signature = signature;
    }
}

/// Payment evidence is signed under the servicer capability; a stream
/// attestor's evidence is accepted through the explicit second check in
/// [`crate::servicing::ServicingBook::record_payment_evidence`].
impl SignedArtifact for PaymentEvidence {
    open spec fn statement_result(&self) -> Result<Seq<u8>, ProviderError> {
        if self.well_formed() {
            Ok(self.spec_statement())
        } else {
            Err(ProviderError::InvalidDefaultAttestation)
        }
    }

    open spec fn spec_signature(&self) -> Seq<u8> {
        self.signature@
    }

    open spec fn same_but_signature(&self, other: Self) -> bool {
        other == (PaymentEvidence { signature: other.signature, ..*self })
    }

    open spec fn spec_capability(&self) -> ProviderCapability {
        ProviderCapability::Servicer
    }

    fn capability(&self) -> (r: ProviderCapability) {
        ProviderCapability::Servicer
    }

    open spec fn author(&self) -> Identifier {
        self.provider_id
    }

    fn provider_id(&self) -> (r: Identifier) {
        self.provider_id
    }

    fn statement(&self) -> (r: Result<Commitment, ProviderError>) {
        match PaymentEvidence::statement(self) {
            Ok(d) => Ok(d),
            Err(_) => Err(ProviderError::InvalidDefaultAttestation),
        }
    }

    fn signature(&self) -> (r: &[u8]) {
        self.signature.as_slice()
    }

    fn set_signature(&mut self, signature: Vec<u8>) {
        self.signature = signature;
    }
}

/// Signs a key rotation with the next key, given as its 32 secret bytes,
/// proving possession of it, and returns the statement that was signed. A
/// malformed request is never signed.
pub fn sign_possession(request: &mut RotateProviderKey, next: &[u8; 32]) -> (r: Result<
    Commitment,
    ProviderError,
>)
    ensures
        match old(request).statement_result() {
            Err(e) => r == Err::<Commitment, ProviderError>(e) && *final(request) == *old(request),
            Ok(s) => r matches Ok(d) && d@ == s && final(request).signature@ == ed25519_signature(
                next@,
                s,
            ) && *final(request) == (RotateProviderKey {
                signature: final(request).signature,
                ..*old(request)
            }),
        },
{
    let statement = match request.statement() {
        Ok(d) => d,
        Err(e) => return Err(e),
    };
    let signature = ed25519_sign(next, &statement);
    request.signature = signature_bytes(&signature);
    Ok(statement)
}


/// Why the provider cannot sign under `capability` at `now`, if it cannot:
/// it is not registered, or does not hold the capability active then.
pub open spec fn active_provider_error(
    registry: Seq<ProviderDefinition>,
    provider_id: Identifier,
    capability: ProviderCapability,
    now: u64,
) -> Option<ProviderError> {
    let pi = provider_index(registry, provider_id);
    if pi < 0 {
        Some(ProviderError::UnknownProvider)
    } else if !registry[pi].spec_has(capability, now) {
        Some(ProviderError::MissingProviderCapability)
    } else {
        None
    }
}

/// The provider, if it is registered and holds `capability` active at
/// `now`. A registered provider without the capability is refused with
/// [`ProviderError::MissingProviderCapability`], never silently upgraded.
pub fn active_provider<'a>(
    registry: &'a [ProviderDefinition],
    provider_id: &Identifier,
    capability: ProviderCapability,
    now: u64,
) -> (r: Result<&'a ProviderDefinition, ProviderError>)
    ensures
        match active_provider_error(registry@, *provider_id, capability, now) {
            Some(e) => r == Err::<&ProviderDefinition, ProviderError>(e),
            None => r matches Ok(p) && *p == registry@[provider_index(registry@, *provider_id)],
        },
{
    let provider = match find_provider(registry, provider_id) {
        Some(p) => p,
        None => return Err(ProviderError::UnknownProvider),
    };
    if !provider.has(capability, now) {
        return Err(ProviderError::MissingProviderCapability);
    }
    Ok(provider)
}

/// What [`verify_artifact`] answers: the artifact's own error, then its
/// author's, then the check of the signature under the author's current key;
/// otherwise the verified statement.
pub open spec fn verify_artifact_result<A: SignedArtifact>(
    registry: Seq<ProviderDefinition>,
    artifact: A,
    now: u64,
) -> Result<Seq<u8>, ProviderError> {
    match artifact.statement_result() {
        Err(e) => Err(e),
        Ok(s) => match active_provider_error(registry, artifact.author(), artifact.spec_capability(), now) {
            Some(e) => Err(e),
            None => match spec_verify_key_signature(
                registry[provider_index(registry, artifact.author())].public_key@,
                s,
                artifact.spec_signature(),
            ) {
                Ok(()) => Ok(s),
                Err(e) => Err(signature_error(e)),
            },
        },
    }
}

/// Validates `artifact`, checks that its author holds the capability it
/// needs at `now`, and verifies the signature under the author's current
/// key. Returns the verified statement.
pub fn verify_artifact<A: SignedArtifact>(registry: &[ProviderDefinition], artifact: &A, now: u64) -> (r:
    Result<Commitment, ProviderError>)
    ensures
        match verify_artifact_result(registry@, *artifact, now) {
            Ok(s) => r matches Ok(d) && d@ == s,
            Err(e) => r == Err::<Commitment, ProviderError>(e),
        },
{
    let statement = match artifact.statement() {
        Ok(d) => d,
        Err(e) => return Err(e),
    };
    let provider = match active_provider(registry, &artifact.provider_id(), artifact.capability(), now) {
        Ok(p) => p,
        Err(e) => return Err(e),
    };
    match provider.verify_new_signature(&statement, artifact.signature()) {
        Ok(()) => Ok(statement),
        Err(e) => Err(e),
    }
}

} // verus!
