//! The mathematical state of the store, its invariant, and what each
//! operation does to it.
use vstd::prelude::*;
use crate::committee::CommitteeView;
use crate::error::Rejection;
use crate::liveness::LivenessWindow;
use crate::ordered::{as_map, del, keys_distinct, lookup, put, with_item, without_item};
use crate::types::{BatchCertificateView, BatchHeaderView, TransmissionView};

verus! {

/// The round before `round`; round 0 is its own predecessor.
pub open spec fn round_before(round: u64) -> u64 {
    if round == 0 {
        0
    } else {
        (round - 1) as u64
    }
}

/// `a - b`, or 0 where that would be negative.
pub open spec fn minus_or_zero(a: u64, b: u64) -> u64 {
    if a >= b {
        (a - b) as u64
    } else {
        0
    }
}

/// Makes `cid` reference the transmission `tid`: a transmission that is not
/// stored yet is taken from `missing` and becomes the last entry.
pub open spec fn attach_one(
    transmissions: Seq<(u64, (TransmissionView, Seq<u64>))>,
    tid: u64,
    cid: u64,
    missing: Map<u64, TransmissionView>,
) -> Seq<(u64, (TransmissionView, Seq<u64>))> {
    match lookup(transmissions, tid) {
        Some(entry) => put(transmissions, tid, (entry.0, with_item(entry.1, cid))),
        None => put(transmissions, tid, (missing[tid], seq![cid])),
    }
}

/// Makes `cid` reference each transmission of `tids`, in their order.
pub open spec fn attach(
    transmissions: Seq<(u64, (TransmissionView, Seq<u64>))>,
    tids: Seq<u64>,
    cid: u64,
    missing: Map<u64, TransmissionView>,
) -> Seq<(u64, (TransmissionView, Seq<u64>))>
    decreases tids.len(),
{
    if tids.len() == 0 {
        transmissions
    } else {
        attach_one(attach(transmissions, tids.drop_last(), cid, missing), tids.last(), cid, missing)
    }
}

/// Ends the reference of `cid` to the transmission `tid`: a transmission
/// that no certificate references any more leaves the index.
pub open spec fn detach_one(
    transmissions: Seq<(u64, (TransmissionView, Seq<u64>))>,
    tid: u64,
    cid: u64,
) -> Seq<(u64, (TransmissionView, Seq<u64>))> {
    match lookup(transmissions, tid) {
        Some(entry) => if without_item(entry.1, cid).len() == 0 {
            del(transmissions, tid)
        } else {
            put(transmissions, tid, (entry.0, without_item(entry.1, cid)))
        },
        None => transmissions,
    }
}

/// Ends the references of `cid` to each transmission of `tids`, in their order.
pub open spec fn detach(
    transmissions: Seq<(u64, (TransmissionView, Seq<u64>))>,
    tids: Seq<u64>,
    cid: u64,
) -> Seq<(u64, (TransmissionView, Seq<u64>))>
    decreases tids.len(),
{
    if tids.len() == 0 {
        transmissions
    } else {
        detach_one(detach(transmissions, tids.drop_last(), cid), tids.last(), cid)
    }
}

/// Lists `descriptor` under `round`; a round that is not listed yet becomes
/// the last entry.
pub open spec fn enlist(
    rounds: Seq<(u64, Seq<(u64, u64, u64)>)>,
    round: u64,
    descriptor: (u64, u64, u64),
) -> Seq<(u64, Seq<(u64, u64, u64)>)> {
    match lookup(rounds, round) {
        Some(descriptors) => put(rounds, round, with_item(descriptors, descriptor)),
        None => put(rounds, round, seq![descriptor]),
    }
}

/// Strikes `descriptor` from `round`; a round left without descriptors
/// leaves the index.
pub open spec fn delist(
    rounds: Seq<(u64, Seq<(u64, u64, u64)>)>,
    round: u64,
    descriptor: (u64, u64, u64),
) -> Seq<(u64, Seq<(u64, u64, u64)>)> {
    match lookup(rounds, round) {
        Some(descriptors) => if without_item(descriptors, descriptor).len() == 0 {
            del(rounds, round)
        } else {
            put(rounds, round, without_item(descriptors, descriptor))
        },
        None => rounds,
    }
}

/// The state of the store: two watermarks, the retention depth, and five
/// indices, each with its entries in insertion order.
pub struct StorageView {
    pub current_round: u64,
    pub gc_round: u64,
    pub max_gc_rounds: u64,
    /// round -> committee
    pub committees: Seq<(u64, CommitteeView)>,
    /// round -> descriptors `(certificate id, batch id, author)`
    pub rounds: Seq<(u64, Seq<(u64, u64, u64)>)>,
    /// certificate id -> certificate
    pub certificates: Seq<(u64, BatchCertificateView)>,
    /// batch id -> round
    pub batch_ids: Seq<(u64, u64)>,
    /// transmission id -> (transmission, ids of the referencing certificates)
    pub transmissions: Seq<(u64, (TransmissionView, Seq<u64>))>,
}

impl StorageView {
    // ----- the indices as finite maps -----
    pub open spec fn committee_map(self) -> Map<u64, CommitteeView> {
        as_map(self.committees)
    }

    pub open spec fn round_map(self) -> Map<u64, Seq<(u64, u64, u64)>> {
        as_map(self.rounds)
    }

    pub open spec fn certificate_map(self) -> Map<u64, BatchCertificateView> {
        as_map(self.certificates)
    }

    pub open spec fn batch_map(self) -> Map<u64, u64> {
        as_map(self.batch_ids)
    }

    pub open spec fn transmission_map(self) -> Map<u64, (TransmissionView, Seq<u64>)> {
        as_map(self.transmissions)
    }

    /// The committee of `round` is stored.
    pub open spec fn has_committee(self, round: u64) -> bool {
        self.committee_map().dom().contains(round)
    }

    /// The round index has an entry for `round`.
    pub open spec fn has_round(self, round: u64) -> bool {
        self.round_map().dom().contains(round)
    }

    /// The certificate `cid` is stored.
    pub open spec fn has_certificate(self, cid: u64) -> bool {
        self.certificate_map().dom().contains(cid)
    }

    /// The batch `bid` is stored.
    pub open spec fn has_batch(self, bid: u64) -> bool {
        self.batch_map().dom().contains(bid)
    }

    /// The transmission `tid` is stored.
    pub open spec fn has_transmission(self, tid: u64) -> bool {
        self.transmission_map().dom().contains(tid)
    }

    /// Some certificate of `round` has `author` as its author.
    pub open spec fn has_certificate_in_round_from(self, round: u64, author: u64) -> bool {
        self.has_round(round) && exists|i: int|
            0 <= i < self.round_map()[round].len() && (#[trigger] self.round_map()[round][i]).2
                == author
    }

    /// The certificate `cid` is stored and lists the transmission `tid`.
    pub open spec fn references(self, cid: u64, tid: u64) -> bool {
        self.has_certificate(cid) && self.certificate_map()[cid].transmission_ids().contains(tid)
    }

    /// The certificate `cid` is stored and carries the batch `bid`.
    pub open spec fn certifies(self, cid: u64, bid: u64) -> bool {
        self.has_certificate(cid) && self.certificate_map()[cid].batch_id() == bid
    }

    /// The certificates of `round`, in the order of the round's
    /// descriptors; none for round 0 and for a round without entry. A
    /// descriptor whose certificate is not stored is passed over; a
    /// well-formed store has none.
    pub open spec fn certificates_for_round(self, round: u64) -> Seq<BatchCertificateView> {
        if round == 0 || !self.has_round(round) {
            Seq::empty()
        } else {
            self.round_map()[round].filter(|d: (u64, u64, u64)| self.has_certificate(d.0)).map_values(
                |d: (u64, u64, u64)| self.certificate_map()[d.0],
            )
        }
    }

    // ----- the invariant -----
    /// No index holds a key twice.
    pub open spec fn wf_order(self) -> bool {
        &&& keys_distinct(self.committees)
        &&& keys_distinct(self.rounds)
        &&& keys_distinct(self.certificates)
        &&& keys_distinct(self.batch_ids)
        &&& keys_distinct(self.transmissions)
    }

    /// The watermarks: garbage collection trails the current round by at
    /// least the retention depth once it has started, and the committee of
    /// the current round is stored.
    pub open spec fn wf_watermarks(self) -> bool {
        &&& self.gc_round <= self.current_round
        &&& self.gc_round == 0 || self.gc_round + self.max_gc_rounds <= self.current_round
        &&& self.has_committee(self.current_round)
    }

    /// The committee stored under `round` is that round's, and the round is
    /// neither collected nor ahead of the current one.
    pub open spec fn committee_ok(self, round: u64) -> bool {
        &&& self.committee_map()[round].round == round
        &&& self.committee_map()[round].wf()
        &&& self.gc_round <= round <= self.current_round
    }

    /// The descriptor `d`, listed under `round`, is that of a stored
    /// certificate of that round.
    pub open spec fn descriptor_ok(self, round: u64, d: (u64, u64, u64)) -> bool {
        &&& self.has_certificate(d.0)
        &&& self.certificate_map()[d.0].descriptor() == d
        &&& self.certificate_map()[d.0].round() == round
    }

    /// The entry of `round` in the round index: it is not empty, lists
    /// stored certificates of that round, each author once, and the
    /// round's committee is stored.
    pub open spec fn round_ok(self, round: u64) -> bool {
        let descriptors = self.round_map()[round];
        &&& self.has_committee(round)
        &&& descriptors.len() > 0
        &&& descriptors.no_duplicates()
        &&& forall|i: int|
            0 <= i < descriptors.len() ==> self.descriptor_ok(round, #[trigger] descriptors[i])
        &&& forall|i: int, j: int|
            0 <= i < j < descriptors.len() ==> (#[trigger] descriptors[i]).2 != (
            #[trigger] descriptors[j]).2
    }

    /// The certificate stored under `cid`: it has that id, its round lists
    /// it, the batch index maps its batch (which no other certificate
    /// carries) to its round, and each of its transmissions is stored and
    /// refers back to it.
    pub open spec fn certificate_ok(self, cid: u64) -> bool {
        let c = self.certificate_map()[cid];
        &&& c.certificate_id == cid
        &&& c.wf()
        &&& self.has_round(c.round())
        &&& self.round_map()[c.round()].contains(c.descriptor())
        &&& self.has_batch(c.batch_id())
        &&& self.batch_map()[c.batch_id()] == c.round()
        &&& forall|other: u64| #[trigger] self.certifies(other, c.batch_id()) ==> other == cid
        &&& forall|i: int|
            0 <= i < c.transmission_ids().len() ==> self.has_transmission(
                #[trigger] c.transmission_ids()[i],
            ) && self.transmission_map()[c.transmission_ids()[i]].1.contains(cid)
    }

    /// The batch `bid` of the batch index belongs to a stored certificate.
    pub open spec fn batch_ok(self, bid: u64) -> bool {
        exists|cid: u64| #[trigger] self.certifies(cid, bid)
    }

    /// The entry of `tid` in the transmission index: its certificate ids
    /// are those of stored certificates that list `tid`, and there is one
    /// at least.
    pub open spec fn transmission_ok(self, tid: u64) -> bool {
        let cids = self.transmission_map()[tid].1;
        &&& cids.len() > 0
        &&& cids.no_duplicates()
        &&& forall|i: int| 0 <= i < cids.len() ==> self.references(#[trigger] cids[i], tid)
    }

    /// The invariant of the store: the indices agree with one another.
    pub open spec fn wf(self) -> bool {
        &&& self.wf_order()
        &&& self.wf_watermarks()
        &&& forall|round: u64| self.has_committee(round) ==> #[trigger] self.committee_ok(round)
        &&& forall|round: u64| self.has_round(round) ==> #[trigger] self.round_ok(round)
        &&& forall|cid: u64| self.has_certificate(cid) ==> #[trigger] self.certificate_ok(cid)
        &&& forall|bid: u64| self.has_batch(bid) ==> #[trigger] self.batch_ok(bid)
        &&& forall|tid: u64| self.has_transmission(tid) ==> #[trigger] self.transmission_ok(tid)
    }

    // ----- the operations -----
    /// The store that holds the single committee `committee`, of the
    /// current round, and nothing else.
    pub open spec fn initial(committee: CommitteeView, max_gc_rounds: u64) -> StorageView {
        StorageView {
            current_round: committee.round,
            gc_round: 0,
            max_gc_rounds,
            committees: seq![(committee.round, committee)],
            rounds: Seq::empty(),
            certificates: Seq::empty(),
            batch_ids: Seq::empty(),
            transmissions: Seq::empty(),
        }
    }

    /// The store after the certificate `c` has been written to the four
    /// data indices; transmissions that were not stored come from `missing`.
    pub open spec fn with_certificate(
        self,
        c: BatchCertificateView,
        missing: Map<u64, TransmissionView>,
    ) -> StorageView {
        StorageView {
            rounds: enlist(self.rounds, c.round(), c.descriptor()),
            certificates: put(self.certificates, c.certificate_id, c),
            batch_ids: put(self.batch_ids, c.batch_id(), c.round()),
            transmissions: attach(
                self.transmissions,
                c.transmission_ids(),
                c.certificate_id,
                missing,
            ),
            ..self
        }
    }

    /// The store after the certificate `cid` has been taken out of the four
    /// data indices; the same store when `cid` is not stored.
    pub open spec fn without_certificate(self, cid: u64) -> StorageView {
        if self.has_certificate(cid) {
            let c = self.certificate_map()[cid];
            StorageView {
                rounds: delist(self.rounds, c.round(), c.descriptor()),
                certificates: del(self.certificates, cid),
                batch_ids: del(self.batch_ids, c.batch_id()),
                transmissions: detach(self.transmissions, c.transmission_ids(), cid),
                ..self
            }
        } else {
            self
        }
    }

    /// The store after the certificates `cids` have been taken out, one
    /// after the other.
    pub open spec fn without_certificates(self, cids: Seq<u64>) -> StorageView
        decreases cids.len(),
    {
        if cids.len() == 0 {
            self
        } else {
            self.without_certificates(cids.drop_last()).without_certificate(cids.last())
        }
    }

    /// The ids of the certificates of `round`, in the order of the round's
    /// descriptors.
    pub open spec fn certificate_ids_for_round(self, round: u64) -> Seq<u64> {
        self.certificates_for_round(round).map_values(|c: BatchCertificateView| c.certificate_id)
    }

    /// The store after `round` has been collected: its certificates are
    /// taken out and its committee is dropped.
    pub open spec fn without_round(self, round: u64) -> StorageView {
        let cleared = self.without_certificates(self.certificate_ids_for_round(round));
        StorageView { committees: del(cleared.committees, round), ..cleared }
    }

    /// The store after the rounds from `from` up to, not including, `to`
    /// have been collected, in ascending order.
    pub open spec fn without_rounds(self, from: u64, to: u64) -> StorageView
        decreases to,
    {
        if to <= from {
            self
        } else {
            self.without_rounds(from, (to - 1) as u64).without_round((to - 1) as u64)
        }
    }

    /// The round that follows the current one.
    pub open spec fn next_round(self) -> u64 {
        (self.current_round + 1) as u64
    }

    /// The garbage-collection round that goes with the next round.
    pub open spec fn next_gc_round(self) -> u64 {
        minus_or_zero(self.next_round(), self.max_gc_rounds)
    }

    /// The store after the committee has moved on to the next round: the
    /// next committee is stored, the current round is the next round, and
    /// the rounds from the old garbage-collection round up to, not
    /// including, the new one are collected.
    pub open spec fn advanced(self) -> StorageView {
        let promoted = StorageView {
            current_round: self.next_round(),
            committees: put(
                self.committees,
                self.next_round(),
                self.committee_map()[self.current_round].next(),
            ),
            ..self
        };
        if self.next_gc_round() > self.gc_round {
            StorageView {
                gc_round: self.next_gc_round(),
                ..promoted.without_rounds(self.gc_round, self.next_gc_round())
            }
        } else {
            promoted
        }
    }

    // ----- admission -----
    /// The transmissions of `h` that are not stored.
    pub open spec fn needed(self, h: BatchHeaderView) -> Set<u64> {
        Set::new(|tid: u64| h.transmission_ids.contains(tid) && !self.has_transmission(tid))
    }

    /// What is wrong with the previous certificate at position `i` of
    /// `ids`, if anything: it is not stored, or not of the round `previous`,
    /// or its author is that of an earlier one.
    pub open spec fn previous_fault_at(self, ids: Seq<u64>, previous: u64, i: int) -> Option<
        Rejection,
    > {
        if !self.has_certificate(ids[i]) {
            Some(Rejection::MissingPreviousCertificate)
        } else if self.certificate_map()[ids[i]].round() != previous {
            Some(Rejection::PreviousCertificateWrongRound)
        } else if exists|j: int|
            0 <= j < i && self.certificate_map()[#[trigger] ids[j]].author()
                == self.certificate_map()[ids[i]].author() {
            Some(Rejection::DuplicatePreviousAuthor)
        } else {
            None
        }
    }

    /// The first fault among the first `n` previous certificates of `ids`.
    pub open spec fn previous_fault(self, ids: Seq<u64>, previous: u64, n: int) -> Option<
        Rejection,
    >
        decreases n,
    {
        if n <= 0 {
            None
        } else {
            match self.previous_fault(ids, previous, n - 1) {
                Some(r) => Some(r),
                None => self.previous_fault_at(ids, previous, n - 1),
            }
        }
    }

    /// The authors of the first `n` certificates of `ids`.
    pub open spec fn authors_of(self, ids: Seq<u64>, n: int) -> Set<u64> {
        Set::new(
            |a: u64|
                exists|j: int|
                    0 <= j < n && self.certificate_map()[#[trigger] ids[j]].author() == a,
        )
    }

    /// The first rule that the header `h` breaks, if any. `provided` holds
    /// the ids of the transmissions that come with the header.
    pub open spec fn header_rejection(
        self,
        h: BatchHeaderView,
        window: LivenessWindow,
        provided: Set<u64>,
    ) -> Option<Rejection> {
        let previous = round_before(h.round);
        if self.has_batch(h.batch_id) {
            Some(Rejection::BatchExists)
        } else if !self.has_committee(h.round) {
            Some(Rejection::MissingCommittee)
        } else if !self.committee_map()[h.round].is_member(h.author) {
            Some(Rejection::AuthorNotInCommittee)
        } else if !window.admits(h.timestamp) {
            Some(Rejection::TimestampNotLive)
        } else if !self.needed(h).subset_of(provided) {
            Some(Rejection::MissingTransmission)
        } else if previous <= self.gc_round {
            None
        } else if !self.has_committee(previous) {
            Some(Rejection::MissingPreviousCommittee)
        } else if !self.has_round(previous) {
            Some(Rejection::MissingPreviousRound)
        } else if h.previous_certificate_ids.len() > self.committee_map()[previous].members.len() {
            Some(Rejection::TooManyPreviousCertificates)
        } else if self.previous_fault(
            h.previous_certificate_ids,
            previous,
            h.previous_certificate_ids.len() as int,
        ) is Some {
            self.previous_fault(
                h.previous_certificate_ids,
                previous,
                h.previous_certificate_ids.len() as int,
            )
        } else if !self.committee_map()[previous].quorum_reached(
            self.authors_of(h.previous_certificate_ids, h.previous_certificate_ids.len() as int),
        ) {
            Some(Rejection::PreviousQuorumNotReached)
        } else {
            None
        }
    }

    /// Every signer of `c` is a member of the committee of the round of `c`.
    pub open spec fn signers_are_members(self, c: BatchCertificateView) -> bool {
        forall|i: int|
            0 <= i < c.signatures.len() ==> self.committee_map()[c.round()].is_member(
                (#[trigger] c.signatures[i]).0,
            )
    }

    /// The first rule that the certificate `c` breaks, if any.
    pub open spec fn certificate_rejection(
        self,
        c: BatchCertificateView,
        window: LivenessWindow,
        provided: Set<u64>,
    ) -> Option<Rejection> {
        if self.has_certificate(c.certificate_id) {
            Some(Rejection::CertificateExists)
        } else if self.has_certificate_in_round_from(c.round(), c.author()) {
            Some(Rejection::AuthorAlreadyCertified)
        } else if self.header_rejection(c.batch_header, window, provided) is Some {
            self.header_rejection(c.batch_header, window, provided)
        } else if !window.admits_all(c.timestamps()) {
            Some(Rejection::SignerTimestampNotLive)
        } else if !self.signers_are_members(c) {
            Some(Rejection::SignerNotInCommittee)
        } else if !self.committee_map()[c.round()].quorum_reached(c.signers()) {
            Some(Rejection::SignerQuorumNotReached)
        } else {
            None
        }
    }

    /// The first rule that inserting the certificate `c` breaks, if any.
    pub open spec fn insertion_rejection(
        self,
        c: BatchCertificateView,
        window: LivenessWindow,
        provided: Set<u64>,
    ) -> Option<Rejection> {
        if c.round() <= self.gc_round {
            Some(Rejection::RoundNotAboveGc)
        } else {
            self.certificate_rejection(c, window, provided)
        }
    }

    /// The certificate `c` can be written without breaking the invariant:
    /// each of its transmissions is stored or comes with it, and either the
    /// certificate is stored already, or it is new, its batch is new, its
    /// author has no certificate in its round yet and the round's
    /// committee is stored.
    pub open spec fn admits(self, c: BatchCertificateView, missing: Set<u64>) -> bool {
        &&& self.needed(c.batch_header).subset_of(missing)
        &&& {
            ||| self.has_certificate(c.certificate_id) && self.certificate_map()[c.certificate_id]
                == c
            ||| {
                &&& !self.has_certificate(c.certificate_id)
                &&& !self.has_batch(c.batch_id())
                &&& !self.has_certificate_in_round_from(c.round(), c.author())
                &&& self.has_committee(c.round())
            }
        }
    }
}

} // verus!
