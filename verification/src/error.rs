//! Why the store turned a request down.
use vstd::prelude::*;

verus! {

/// The rule that a rejected request broke.
#[derive(Clone, Copy, Debug, PartialEq, Eq, Structural)]
pub enum Rejection {
    /// The batch id is already stored.
    BatchExists,
    /// No committee is stored for the round.
    MissingCommittee,
    /// The author is not a member of the round's committee.
    AuthorNotInCommittee,
    /// The author's timestamp is outside the liveness window.
    TimestampNotLive,
    /// A transmission is neither stored nor provided.
    MissingTransmission,
    /// No committee is stored for the previous round.
    MissingPreviousCommittee,
    /// No certificate is stored for the previous round.
    MissingPreviousRound,
    /// More previous certificates are named than the previous committee has members.
    TooManyPreviousCertificates,
    /// A previous certificate is not stored.
    MissingPreviousCertificate,
    /// A previous certificate is not of the previous round.
    PreviousCertificateWrongRound,
    /// Two previous certificates have the same author.
    DuplicatePreviousAuthor,
    /// The authors of the previous certificates hold no quorum.
    PreviousQuorumNotReached,
    /// The certificate id is already stored.
    CertificateExists,
    /// The author already has a certificate in the round.
    AuthorAlreadyCertified,
    /// A signer's timestamp is outside the liveness window.
    SignerTimestampNotLive,
    /// A signer is not a member of the round's committee.
    SignerNotInCommittee,
    /// The author and the signers hold no quorum.
    SignerQuorumNotReached,
    /// The certificate's round is at or below the garbage-collection round.
    RoundNotAboveGc,
    /// The next round already holds certificates.
    NextRoundNotEmpty,
}

/// What a rejection says, in words.
pub open spec fn rejection_text(reason: Rejection) -> Seq<char> {
    match reason {
        Rejection::BatchExists => "batch already exists in storage"@,
        Rejection::MissingCommittee => "storage failed to retrieve the committee for the round"@,
        Rejection::AuthorNotInCommittee => "author is not in the committee for the round"@,
        Rejection::TimestampNotLive => "timestamp is outside the liveness window"@,
        Rejection::MissingTransmission => "failed to provide a transmission"@,
        Rejection::MissingPreviousCommittee => "missing committee for the previous round in storage"@,
        Rejection::MissingPreviousRound => "missing certificates for the previous round in storage"@,
        Rejection::TooManyPreviousCertificates => "too many previous certificates"@,
        Rejection::MissingPreviousCertificate => "missing previous certificate in storage"@,
        Rejection::PreviousCertificateWrongRound => "previous certificate is not of the previous round"@,
        Rejection::DuplicatePreviousAuthor => "previous certificates contain a duplicate author"@,
        Rejection::PreviousQuorumNotReached => "previous certificates did not reach quorum threshold"@,
        Rejection::CertificateExists => "certificate already exists in storage"@,
        Rejection::AuthorAlreadyCertified => "certificate with this author for the round already exists in storage"@,
        Rejection::SignerTimestampNotLive => "signer timestamp is outside the liveness window"@,
        Rejection::SignerNotInCommittee => "signer is not in the committee for the round"@,
        Rejection::SignerQuorumNotReached => "signatures did not reach quorum threshold"@,
        Rejection::RoundNotAboveGc => "certificate round is at or below the GC round"@,
        Rejection::NextRoundNotEmpty => "certificates for the next round cannot exist yet"@,
    }
}

impl Rejection {
    /// The rejection in words, without the rounds that it concerns.
    pub fn text(&self) -> (text: &'static str)
        ensures
            text@ == rejection_text(*self),
    {
        match self {
            Rejection::BatchExists => "batch already exists in storage",
            Rejection::MissingCommittee => "storage failed to retrieve the committee for the round",
            Rejection::AuthorNotInCommittee => "author is not in the committee for the round",
            Rejection::TimestampNotLive => "timestamp is outside the liveness window",
            Rejection::MissingTransmission => "failed to provide a transmission",
            Rejection::MissingPreviousCommittee => "missing committee for the previous round in storage",
            Rejection::MissingPreviousRound => "missing certificates for the previous round in storage",
            Rejection::TooManyPreviousCertificates => "too many previous certificates",
            Rejection::MissingPreviousCertificate => "missing previous certificate in storage",
            Rejection::PreviousCertificateWrongRound => "previous certificate is not of the previous round",
            Rejection::DuplicatePreviousAuthor => "previous certificates contain a duplicate author",
            Rejection::PreviousQuorumNotReached => "previous certificates did not reach quorum threshold",
            Rejection::CertificateExists => "certificate already exists in storage",
            Rejection::AuthorAlreadyCertified => "certificate with this author for the round already exists in storage",
            Rejection::SignerTimestampNotLive => "signer timestamp is outside the liveness window",
            Rejection::SignerNotInCommittee => "signer is not in the committee for the round",
            Rejection::SignerQuorumNotReached => "signatures did not reach quorum threshold",
            Rejection::RoundNotAboveGc => "certificate round is at or below the GC round",
            Rejection::NextRoundNotEmpty => "certificates for the next round cannot exist yet",
        }
    }
}

/// A rejection, with the round it concerns and the garbage-collection
/// round at the time.
#[derive(Clone, Copy, Debug, PartialEq, Eq, Structural)]
pub struct StorageError {
    pub reason: Rejection,
    pub round: u64,
    pub gc_round: u64,
}

} // verus!
