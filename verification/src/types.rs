//! The values that the store indexes: transmissions, batch headers and
//! batch certificates.
//!
//! Identifiers (certificate ids, batch ids, author addresses, transmission
//! ids) are 64-bit handles; rounds are `u64`, timestamps are unix seconds.
use vstd::prelude::*;
use std::collections::HashSet;

verus! {

/// The kind of payload that a transmission carries.
#[derive(Clone, Copy, Debug, PartialEq, Eq, Structural)]
pub enum TransmissionKind {
    Ratification,
    Solution,
    Transaction,
}

/// An opaque payload referenced by batches.
#[derive(Debug, PartialEq, Eq)]
pub struct Transmission {
    pub kind: TransmissionKind,
    pub payload: Vec<u8>,
}

/// What a transmission is: its kind and its bytes.
pub struct TransmissionView {
    pub kind: TransmissionKind,
    pub payload: Seq<u8>,
}

impl View for Transmission {
    type V = TransmissionView;

    open spec fn view(&self) -> TransmissionView {
        TransmissionView { kind: self.kind, payload: self.payload@ }
    }
}

impl Clone for Transmission {
    fn clone(&self) -> (copy: Self)
        ensures
            copy@ == self@,
    {
        Transmission { kind: self.kind, payload: self.payload.clone() }
    }
}

/// Whether some value occurs twice in `ids`.
pub fn has_duplicates(ids: &Vec<u64>) -> (found: bool)
    ensures
        found == !ids@.no_duplicates(),
{
    let mut seen: HashSet<u64> = HashSet::new();
    let mut i: usize = 0;
    while i < ids.len()
        invariant
            i <= ids.len(),
            ids@.take(i as int).no_duplicates(),
            seen@ == ids@.take(i as int).to_set(),
        decreases ids.len() - i,
    {
        let id = ids[i];
        proof {
            assert(ids@.take(i as int + 1) == ids@.take(i as int).push(id));
        }
        if seen.contains(&id) {
            proof {
                let j = ids@.take(i as int).index_of(id);
                assert(ids@.take(i as int)[j] == id);
                assert(ids@[j] == ids@[i as int]);
            }
            return true;
        }
        seen.insert(id);
        proof {
            let before = ids@.take(i as int);
            let after = before.push(id);
            assert forall|a: int, b: int|
                0 <= a < after.len() && 0 <= b < after.len() && a != b implies after[a]
                != after[b] by {
                if a < before.len() && b < before.len() {
                } else if a < before.len() {
                    assert(before.contains(before[a]));
                } else {
                    assert(before.contains(before[b]));
                }
            }
            assert(after.to_set() =~= before.to_set().insert(id)) by {
                assert forall|x: u64| after.to_set().contains(x) <==> before.to_set().insert(
                    id,
                ).contains(x) by {
                    if after.contains(x) {
                        let j = after.index_of(x);
                        if j < before.len() {
                            assert(before[j] == x);
                        }
                    }
                    if before.contains(x) {
                        let j = before.index_of(x);
                        assert(after[j] == x);
                    }
                    if x == id {
                        assert(after[before.len() as int] == x);
                    }
                }
            }
        }
        i += 1;
    }
    proof {
        assert(ids@.take(ids.len() as int) == ids@);
    }
    false
}

/// The authenticated descriptor of a batch.
#[derive(Debug, PartialEq, Eq)]
pub struct BatchHeader {
    batch_id: u64,
    author: u64,
    round: u64,
    timestamp: i64,
    transmission_ids: Vec<u64>,
    previous_certificate_ids: Vec<u64>,
}

/// What a batch header says.
pub struct BatchHeaderView {
    pub batch_id: u64,
    pub author: u64,
    pub round: u64,
    pub timestamp: i64,
    pub transmission_ids: Seq<u64>,
    pub previous_certificate_ids: Seq<u64>,
}

impl BatchHeaderView {
    /// The transmission ids form a set: none is listed twice.
    pub open spec fn wf(self) -> bool {
        self.transmission_ids.no_duplicates()
    }
}

impl View for BatchHeader {
    type V = BatchHeaderView;

    closed spec fn view(&self) -> BatchHeaderView {
        BatchHeaderView {
            batch_id: self.batch_id,
            author: self.author,
            round: self.round,
            timestamp: self.timestamp,
            transmission_ids: self.transmission_ids@,
            previous_certificate_ids: self.previous_certificate_ids@,
        }
    }
}

impl BatchHeader {
    #[verifier::type_invariant]
    spec fn inv(self) -> bool {
        self.transmission_ids@.no_duplicates()
    }

    /// Builds a header; the transmission ids must be pairwise distinct.
    pub fn new(
        batch_id: u64,
        author: u64,
        round: u64,
        timestamp: i64,
        transmission_ids: Vec<u64>,
        previous_certificate_ids: Vec<u64>,
    ) -> (header: Option<BatchHeader>)
        ensures
            header is Some <==> transmission_ids@.no_duplicates(),
            header matches Some(h) ==> h@ == (BatchHeaderView {
                batch_id,
                author,
                round,
                timestamp,
                transmission_ids: transmission_ids@,
                previous_certificate_ids: previous_certificate_ids@,
            }),
    {
        if has_duplicates(&transmission_ids) {
            None
        } else {
            Some(
                BatchHeader {
                    batch_id,
                    author,
                    round,
                    timestamp,
                    transmission_ids,
                    previous_certificate_ids,
                },
            )
        }
    }

    pub fn batch_id(&self) -> (id: u64)
        ensures
            id == self@.batch_id,
    {
        self.batch_id
    }

    pub fn author(&self) -> (author: u64)
        ensures
            author == self@.author,
    {
        self.author
    }

    pub fn round(&self) -> (round: u64)
        ensures
            round == self@.round,
    {
        self.round
    }

    pub fn timestamp(&self) -> (timestamp: i64)
        ensures
            timestamp == self@.timestamp,
    {
        self.timestamp
    }

    pub fn transmission_ids(&self) -> (ids: &Vec<u64>)
        ensures
            ids@ == self@.transmission_ids,
            ids@.no_duplicates(),
    {
        proof {
            use_type_invariant(self);
        }
        &self.transmission_ids
    }

    pub fn previous_certificate_ids(&self) -> (ids: &Vec<u64>)
        ensures
            ids@ == self@.previous_certificate_ids,
    {
        &self.previous_certificate_ids
    }
}

impl Clone for BatchHeader {
    fn clone(&self) -> (copy: Self)
        ensures
            copy@ == self@,
    {
        proof {
            use_type_invariant(self);
        }
        BatchHeader {
            batch_id: self.batch_id,
            author: self.author,
            round: self.round,
            timestamp: self.timestamp,
            transmission_ids: self.transmission_ids.clone(),
            previous_certificate_ids: self.previous_certificate_ids.clone(),
        }
    }
}

/// A batch header together with the co-signers that certified it.
#[derive(Debug, PartialEq, Eq)]
pub struct BatchCertificate {
    certificate_id: u64,
    batch_header: BatchHeader,
    signatures: Vec<(u64, i64)>,
}

/// What a batch certificate says. Each signature is the signer's address
/// with the time of signing.
pub struct BatchCertificateView {
    pub certificate_id: u64,
    pub batch_header: BatchHeaderView,
    pub signatures: Seq<(u64, i64)>,
}

impl BatchCertificateView {
    pub open spec fn wf(self) -> bool {
        self.batch_header.wf()
    }

    pub open spec fn round(self) -> u64 {
        self.batch_header.round
    }

    pub open spec fn author(self) -> u64 {
        self.batch_header.author
    }

    pub open spec fn batch_id(self) -> u64 {
        self.batch_header.batch_id
    }

    pub open spec fn transmission_ids(self) -> Seq<u64> {
        self.batch_header.transmission_ids
    }

    /// The entry that the round index keeps for this certificate.
    pub open spec fn descriptor(self) -> (u64, u64, u64) {
        (self.certificate_id, self.batch_header.batch_id, self.batch_header.author)
    }

    /// The author's timestamp, then each signer's.
    pub open spec fn timestamps(self) -> Seq<i64> {
        seq![self.batch_header.timestamp] + self.signatures.map_values(|s: (u64, i64)| s.1)
    }

    /// The author, then each signer.
    pub open spec fn signers(self) -> Set<u64> {
        self.signatures.map_values(|s: (u64, i64)| s.0).to_set().insert(self.batch_header.author)
    }
}

impl View for BatchCertificate {
    type V = BatchCertificateView;

    closed spec fn view(&self) -> BatchCertificateView {
        BatchCertificateView {
            certificate_id: self.certificate_id,
            batch_header: self.batch_header@,
            signatures: self.signatures@,
        }
    }
}

impl BatchCertificate {
    pub fn new(certificate_id: u64, batch_header: BatchHeader, signatures: Vec<(u64, i64)>) -> (
        certificate: BatchCertificate
    )
        ensures
            certificate@ == (BatchCertificateView {
                certificate_id,
                batch_header: batch_header@,
                signatures: signatures@,
            }),
    {
        BatchCertificate { certificate_id, batch_header, signatures }
    }

    pub fn certificate_id(&self) -> (id: u64)
        ensures
            id == self@.certificate_id,
    {
        self.certificate_id
    }

    pub fn batch_header(&self) -> (header: &BatchHeader)
        ensures
            header@ == self@.batch_header,
    {
        &self.batch_header
    }

    pub fn batch_id(&self) -> (id: u64)
        ensures
            id == self@.batch_id(),
    {
        self.batch_header.batch_id()
    }

    pub fn author(&self) -> (author: u64)
        ensures
            author == self@.author(),
    {
        self.batch_header.author()
    }

    pub fn round(&self) -> (round: u64)
        ensures
            round == self@.round(),
    {
        self.batch_header.round()
    }

    pub fn transmission_ids(&self) -> (ids: &Vec<u64>)
        ensures
            ids@ == self@.transmission_ids(),
            ids@.no_duplicates(),
    {
        self.batch_header.transmission_ids()
    }

    pub fn previous_certificate_ids(&self) -> (ids: &Vec<u64>)
        ensures
            ids@ == self@.batch_header.previous_certificate_ids,
    {
        self.batch_header.previous_certificate_ids()
    }

    pub fn signatures(&self) -> (signatures: &Vec<(u64, i64)>)
        ensures
            signatures@ == self@.signatures,
    {
        &self.signatures
    }

    /// The author's timestamp followed by each signer's.
    pub fn timestamps(&self) -> (timestamps: Vec<i64>)
        ensures
            timestamps@ == self@.timestamps(),
    {
        let mut out: Vec<i64> = Vec::new();
        out.push(self.batch_header.timestamp());
        let mut i: usize = 0;
        while i < self.signatures.len()
            invariant
                i <= self.signatures.len(),
                out@ == seq![self@.batch_header.timestamp] + self.signatures@.take(
                    i as int,
                ).map_values(|s: (u64, i64)| s.1),
            decreases self.signatures.len() - i,
        {
            out.push(self.signatures[i].1);
            proof {
                assert(self.signatures@.take(i as int + 1) == self.signatures@.take(
                    i as int,
                ).push(self.signatures@[i as int]));
                assert(out@ =~= seq![self@.batch_header.timestamp] + self.signatures@.take(
                    i as int + 1,
                ).map_values(|s: (u64, i64)| s.1));
            }
            i += 1;
        }
        proof {
            assert(self.signatures@.take(self.signatures.len() as int) == self.signatures@);
        }
        out
    }
}

impl Clone for BatchCertificate {
    fn clone(&self) -> (copy: Self)
        ensures
            copy@ == self@,
    {
        let mut signatures: Vec<(u64, i64)> = Vec::new();
        let mut i: usize = 0;
        while i < self.signatures.len()
            invariant
                i <= self.signatures.len(),
                signatures@ == self.signatures@.take(i as int),
            decreases self.signatures.len() - i,
        {
            let signature = self.signatures[i];
            signatures.push((signature.0, signature.1));
            proof {
                assert(self.signatures@.take(i as int + 1) == self.signatures@.take(
                    i as int,
                ).push(self.signatures@[i as int]));
            }
            i += 1;
        }
        proof {
            assert(self.signatures@.take(self.signatures.len() as int) == self.signatures@);
        }
        BatchCertificate {
            certificate_id: self.certificate_id,
            batch_header: self.batch_header.clone(),
            signatures,
        }
    }
}

} // verus!
