//! The store: the committee of each round, the certified batches and the
//! transmissions that they carry, kept in five indices that agree with one
//! another.
use vstd::prelude::*;
use indexmap::IndexMap;
use indexmap::IndexSet;
use std::collections::HashMap;
use std::collections::HashSet;
use crate::committee::{Committee, CommitteeView};
use crate::error::{Rejection, StorageError};
use crate::index::{
    batch_entries, batch_index_get, batch_index_insert, batch_index_new, batch_index_remove,
    batch_index_to_vec, certificate_entries, certificate_index_get, certificate_index_insert,
    certificate_index_new, certificate_index_remove, certificate_index_to_vec, committee_entries,
    committee_index_get, committee_index_insert, committee_index_new, committee_index_remove,
    committee_index_to_vec, descriptor_items, descriptor_set_insert, descriptor_set_is_empty,
    descriptor_set_new, descriptor_set_remove, descriptor_set_to_vec, id_items, id_set_insert,
    id_set_is_empty, id_set_new, id_set_remove, round_entries, round_index_get,
    round_index_get_mut, round_index_insert, round_index_new, round_index_remove,
    round_index_to_vec, transmission_entries, transmission_index_get, transmission_index_get_mut,
    transmission_index_insert, transmission_index_new, transmission_index_remove,
    transmission_index_to_vec, certificate_entry_view, committee_entry_view, round_entry_view,
    transmission_entry_view,
};
use crate::liveness::LivenessWindow;
use crate::model::{attach, attach_one, delist, detach, detach_one, enlist, round_before, StorageView};
use crate::ordered::{
    as_map, del, has_key, keys_distinct, lemma_empty, lemma_filter_step, lemma_put,
    lemma_put_del, put, without_item,
};
use crate::preservation::{
    lemma_advanced_wf, lemma_attach, lemma_attach_agree, lemma_detach, lemma_previous_fault_found,
    lemma_promoted_wf, lemma_round_prefix_removed, lemma_with_certificate_maps,
    lemma_with_certificate_wf, lemma_without_certificate_maps, lemma_without_certificate_wf,
    lemma_without_committee_wf, lemma_without_rounds_wf,
};
use crate::types::{BatchCertificate, BatchCertificateView, BatchHeader, Transmission, TransmissionView};

verus! {

/// The storage of the memory pool.
///
/// It holds
/// - the committee of each round,
/// - for each round, the descriptors `(certificate id, batch id, author)`
///   of the round's certificates,
/// - the certificate of each certificate id,
/// - the round of each batch id,
/// - for each transmission id, the transmission and the ids of the
///   certificates that reference it.
#[derive(Debug)]
pub struct Storage {
    current_round: u64,
    gc_round: u64,
    max_gc_rounds: u64,
    committees: IndexMap<u64, Committee>,
    rounds: IndexMap<u64, IndexSet<(u64, u64, u64)>>,
    certificates: IndexMap<u64, BatchCertificate>,
    batch_ids: IndexMap<u64, u64>,
    transmissions: IndexMap<u64, (Transmission, IndexSet<u64>)>,
}

impl View for Storage {
    type V = StorageView;

    closed spec fn view(&self) -> StorageView {
        StorageView {
            current_round: self.current_round,
            gc_round: self.gc_round,
            max_gc_rounds: self.max_gc_rounds,
            committees: committee_entries(self.committees),
            rounds: round_entries(self.rounds),
            certificates: certificate_entries(self.certificates),
            batch_ids: batch_entries(self.batch_ids),
            transmissions: transmission_entries(self.transmissions),
        }
    }
}

/// The round before `round`; round 0 is its own predecessor.
pub fn previous_round(round: u64) -> (previous: u64)
    ensures
        previous == round_before(round),
{
    if round == 0 {
        0
    } else {
        round - 1
    }
}

/// The transmissions of `m`, each by what it is.
pub open spec fn payloads(m: Map<u64, Transmission>) -> Map<u64, TransmissionView> {
    m.map_values(|t: Transmission| t@)
}

impl Storage {
    /// The indices agree with one another.
    pub open spec fn wf(&self) -> bool {
        self@.wf()
    }

    /// Initializes the storage with the committee of the current round.
    pub fn new(committee: Committee, max_gc_rounds: u64) -> (storage: Storage)
        ensures
            storage@ == StorageView::initial(committee@, max_gc_rounds),
            storage.wf(),
    {
        let current_round = committee.round();
        let mut committees = committee_index_new();
        let ghost view = committee@;
        committee_index_insert(&mut committees, current_round, committee);
        let storage = Storage {
            current_round,
            gc_round: 0,
            max_gc_rounds,
            committees,
            rounds: round_index_new(),
            certificates: certificate_index_new(),
            batch_ids: batch_index_new(),
            transmissions: transmission_index_new(),
        };
        proof {
            let s = storage@;
            lemma_empty::<u64, CommitteeView>();
            lemma_empty::<u64, Seq<(u64, u64, u64)>>();
            lemma_empty::<u64, BatchCertificateView>();
            lemma_empty::<u64, u64>();
            lemma_empty::<u64, (TransmissionView, Seq<u64>)>();
            lemma_put(Seq::<(u64, CommitteeView)>::empty(), current_round, view);
            assert(s.committees == seq![(current_round, view)]);
            assert(s == StorageView::initial(view, max_gc_rounds));
            assert forall|round: u64| s.has_committee(round) implies #[trigger] s.committee_ok(
                round,
            ) by {}
        }
        storage
    }

    /// Returns the `(round, committee)` entries, in insertion order.
    pub fn committees_iter(&self) -> (entries: Vec<(u64, Committee)>)
        ensures
            entries@.map_values(|e: (u64, Committee)| committee_entry_view(e))
                == self@.committees,
    {
        committee_index_to_vec(&self.committees)
    }

    /// Returns the `(round, descriptors)` entries, in insertion order; a
    /// descriptor is `(certificate id, batch id, author)`.
    pub fn rounds_iter(&self) -> (entries: Vec<(u64, Vec<(u64, u64, u64)>)>)
        ensures
            entries@.map_values(|e: (u64, Vec<(u64, u64, u64)>)| round_entry_view(e))
                == self@.rounds,
    {
        round_index_to_vec(&self.rounds)
    }

    /// Returns the `(certificate id, certificate)` entries, in insertion order.
    pub fn certificates_iter(&self) -> (entries: Vec<(u64, BatchCertificate)>)
        ensures
            entries@.map_values(|e: (u64, BatchCertificate)| certificate_entry_view(e))
                == self@.certificates,
    {
        certificate_index_to_vec(&self.certificates)
    }

    /// Returns the `(batch id, round)` entries, in insertion order.
    pub fn batch_ids_iter(&self) -> (entries: Vec<(u64, u64)>)
        ensures
            entries@ == self@.batch_ids,
    {
        batch_index_to_vec(&self.batch_ids)
    }

    /// Returns the `(transmission id, (transmission, certificate ids))`
    /// entries, in insertion order.
    pub fn transmissions_iter(&self) -> (entries: Vec<(u64, (Transmission, Vec<u64>))>)
        ensures
            entries@.map_values(|e: (u64, (Transmission, Vec<u64>))| transmission_entry_view(e))
                == self@.transmissions,
    {
        transmission_index_to_vec(&self.transmissions)
    }

    /// Returns the current round.
    pub fn current_round(&self) -> (round: u64)
        ensures
            round == self@.current_round,
    {
        self.current_round
    }

    /// Returns the round that garbage collection has reached.
    pub fn gc_round(&self) -> (round: u64)
        ensures
            round == self@.gc_round,
    {
        self.gc_round
    }

    /// Returns the maximum number of rounds to keep in storage.
    pub fn max_gc_rounds(&self) -> (rounds: u64)
        ensures
            rounds == self@.max_gc_rounds,
    {
        self.max_gc_rounds
    }

    /// Returns the committee of the given round, if it is stored.
    pub fn get_committee(&self, round: u64) -> (committee: Option<Committee>)
        ensures
            committee is Some <==> self@.has_committee(round),
            committee matches Some(c) ==> c@ == self@.committee_map()[round],
    {
        match committee_index_get(&self.committees, round) {
            Some(committee) => Some(committee.clone()),
            None => None,
        }
    }

    /// Returns the committee of the current round.
    pub fn current_committee(&self) -> (committee: Committee)
        requires
            self.wf(),
        ensures
            committee@ == self@.committee_map()[self@.current_round],
    {
        match committee_index_get(&self.committees, self.current_round) {
            Some(committee) => committee.clone(),
            None => {
                proof {
                    assert(false);
                }
                vstd::pervasive::unreached()
            },
        }
    }

    /// Returns `true` if the storage holds certificates of the given round.
    pub fn contains_certificates_for_round(&self, round: u64) -> (found: bool)
        ensures
            found == self@.has_round(round),
    {
        round_index_get(&self.rounds, round).is_some()
    }

    /// Returns `true` if the storage holds the given certificate id.
    pub fn contains_certificate(&self, certificate_id: u64) -> (found: bool)
        ensures
            found == self@.has_certificate(certificate_id),
    {
        certificate_index_get(&self.certificates, certificate_id).is_some()
    }

    /// Returns `true` if the storage holds a certificate of the given
    /// round from the given author.
    pub fn contains_certificate_in_round_from(&self, round: u64, author: u64) -> (found: bool)
        ensures
            found == self@.has_certificate_in_round_from(round, author),
    {
        match round_index_get(&self.rounds, round) {
            None => false,
            Some(set) => {
                let descriptors = descriptor_set_to_vec(set);
                let mut i: usize = 0;
                while i < descriptors.len()
                    invariant
                        i <= descriptors.len(),
                        self@.has_round(round),
                        descriptors@ == self@.round_map()[round],
                        forall|j: int| 0 <= j < i ==> (#[trigger] descriptors@[j]).2 != author,
                    decreases descriptors.len() - i,
                {
                    if descriptors[i].2 == author {
                        return true;
                    }
                    i += 1;
                }
                false
            },
        }
    }

    /// Returns `true` if the storage holds the given batch id.
    pub fn contains_batch(&self, batch_id: u64) -> (found: bool)
        ensures
            found == self@.has_batch(batch_id),
    {
        batch_index_get(&self.batch_ids, batch_id).is_some()
    }

    /// Returns `true` if the storage holds the given transmission id.
    pub fn contains_transmission(&self, transmission_id: u64) -> (found: bool)
        ensures
            found == self@.has_transmission(transmission_id),
    {
        transmission_index_get(&self.transmissions, transmission_id).is_some()
    }

    /// Returns the transmission of the given id, if it is stored.
    pub fn get_transmission(&self, transmission_id: u64) -> (transmission: Option<Transmission>)
        ensures
            transmission is Some <==> self@.has_transmission(transmission_id),
            transmission matches Some(t) ==> t@ == self@.transmission_map()[transmission_id].0,
    {
        match transmission_index_get(&self.transmissions, transmission_id) {
            Some(entry) => Some(entry.0.clone()),
            None => None,
        }
    }

    /// Returns the round of the given certificate, if it is stored.
    pub fn get_round_for_certificate(&self, certificate_id: u64) -> (round: Option<u64>)
        ensures
            round is Some <==> self@.has_certificate(certificate_id),
            round matches Some(r) ==> r == self@.certificate_map()[certificate_id].round(),
    {
        match certificate_index_get(&self.certificates, certificate_id) {
            Some(certificate) => Some(certificate.round()),
            None => None,
        }
    }

    /// Returns the round of the given batch, if it is stored.
    pub fn get_round_for_batch(&self, batch_id: u64) -> (round: Option<u64>)
        ensures
            round is Some <==> self@.has_batch(batch_id),
            round matches Some(r) ==> r == self@.batch_map()[batch_id],
    {
        batch_index_get(&self.batch_ids, batch_id)
    }

    /// Returns the round of the given certificate, if it is stored.
    pub fn get_certificate_round(&self, certificate_id: u64) -> (round: Option<u64>)
        ensures
            round is Some <==> self@.has_certificate(certificate_id),
            round matches Some(r) ==> r == self@.certificate_map()[certificate_id].round(),
    {
        self.get_round_for_certificate(certificate_id)
    }

    /// Returns the certificate of the given id, if it is stored.
    pub fn get_certificate(&self, certificate_id: u64) -> (certificate: Option<BatchCertificate>)
        ensures
            certificate is Some <==> self@.has_certificate(certificate_id),
            certificate matches Some(c) ==> c@ == self@.certificate_map()[certificate_id],
    {
        match certificate_index_get(&self.certificates, certificate_id) {
            Some(certificate) => Some(certificate.clone()),
            None => None,
        }
    }

    /// Returns the certificates of the given round, in the order in which
    /// they were inserted; none for round 0 and for a round without entry.
    pub fn get_certificates_for_round(&self, round: u64) -> (certificates: Vec<BatchCertificate>)
        ensures
            certificates@.map_values(|c: BatchCertificate| c@) == self@.certificates_for_round(
                round,
            ),
    {
        let mut certificates: Vec<BatchCertificate> = Vec::new();
        if round == 0 {
            proof {
                assert(certificates@.map_values(|c: BatchCertificate| c@)
                    =~= self@.certificates_for_round(round));
            }
            return certificates;
        }
        match round_index_get(&self.rounds, round) {
            None => {
                proof {
                    assert(certificates@.map_values(|c: BatchCertificate| c@)
                        =~= self@.certificates_for_round(round));
                }
            },
            Some(set) => {
                let descriptors = descriptor_set_to_vec(set);
                let ghost stored = |d: (u64, u64, u64)| self@.has_certificate(d.0);
                let ghost certificate_of = |d: (u64, u64, u64)| self@.certificate_map()[d.0];
                proof {
                    reveal(Seq::filter);
                    assert(descriptors@.take(0).filter(stored) =~= Seq::<(u64, u64, u64)>::empty());
                }
                let mut i: usize = 0;
                while i < descriptors.len()
                    invariant
                        i <= descriptors.len(),
                        self@.has_round(round),
                        descriptors@ == self@.round_map()[round],
                        stored == |d: (u64, u64, u64)| self@.has_certificate(d.0),
                        certificate_of == |d: (u64, u64, u64)| self@.certificate_map()[d.0],
                        certificates@.map_values(|c: BatchCertificate| c@) == descriptors@.take(
                            i as int,
                        ).filter(stored).map_values(certificate_of),
                    decreases descriptors.len() - i,
                {
                    proof {
                        lemma_filter_step(descriptors@, stored, i as int);
                    }
                    let ghost before = certificates@;
                    match certificate_index_get(&self.certificates, descriptors[i].0) {
                        Some(certificate) => {
                            certificates.push(certificate.clone());
                            proof {
                                let kept = descriptors@.take(i as int).filter(stored);
                                assert(certificates@.map_values(|c: BatchCertificate| c@)
                                    =~= before.map_values(|c: BatchCertificate| c@).push(
                                    certificates@[before.len() as int]@,
                                ));
                                assert(kept.push(descriptors@[i as int]).map_values(certificate_of)
                                    =~= kept.map_values(certificate_of).push(
                                    certificate_of(descriptors@[i as int]),
                                ));
                            }
                        },
                        None => {},
                    }
                    i += 1;
                }
                proof {
                    assert(descriptors@.take(descriptors.len() as int) == descriptors@);
                }
            },
        }
        certificates
    }

    /// Writes the given certificate to the four data indices, without
    /// checking it against the admission rules.
    ///
    /// `missing_transmissions` holds the transmissions of the certificate
    /// that are not stored yet. A certificate that is stored already
    /// leaves the storage as it is.
    pub fn insert_certificate_atomic(
        &mut self,
        certificate: BatchCertificate,
        missing_transmissions: HashMap<u64, Transmission>,
    )
        requires
            old(self).wf(),
            old(self)@.admits(certificate@, missing_transmissions@.dom()),
        ensures
            final(self)@ == old(self)@.with_certificate(
                certificate@,
                payloads(missing_transmissions@),
            ),
            final(self)@.certificate_map() == old(self)@.certificate_map().insert(
                certificate@.certificate_id,
                certificate@,
            ),
            final(self)@.batch_map() == old(self)@.batch_map().insert(
                certificate@.batch_id(),
                certificate@.round(),
            ),
            final(self).wf(),
    {
        let round = certificate.round();
        let certificate_id = certificate.certificate_id();
        let batch_id = certificate.batch_id();
        let author = certificate.author();
        let descriptor = (certificate_id, batch_id, author);
        let ghost before = self@;
        let ghost c = certificate@;
        let ghost given = payloads(missing_transmissions@);
        let mut missing = missing_transmissions;

        // The round index.
        match round_index_get_mut(&mut self.rounds, round) {
            Some(descriptors) => {
                descriptor_set_insert(descriptors, descriptor);
            },
            None => {
                let mut descriptors = descriptor_set_new();
                descriptor_set_insert(&mut descriptors, descriptor);
                proof {
                    assert(descriptor_items(descriptors) =~= seq![descriptor]);
                }
                round_index_insert(&mut self.rounds, round, descriptors);
            },
        }
        assert(round_entries(self.rounds) == enlist(before.rounds, round, descriptor));
        let transmission_ids = certificate.transmission_ids().clone();
        assert(transmission_ids@ == c.transmission_ids());
        assert(c.wf());
        // The certificate index and the batch index.
        certificate_index_insert(&mut self.certificates, certificate_id, certificate);
        batch_index_insert(&mut self.batch_ids, batch_id, round);
        // The transmission index.
        let mut i: usize = 0;
        while i < transmission_ids.len()
            invariant
                i <= transmission_ids.len(),
                transmission_ids@ == c.transmission_ids(),
                transmission_ids@.no_duplicates(),
                certificate_id == c.certificate_id,
                keys_distinct(before.transmissions),
                self.current_round == before.current_round,
                self.gc_round == before.gc_round,
                self.max_gc_rounds == before.max_gc_rounds,
                committee_entries(self.committees) == before.committees,
                round_entries(self.rounds) == enlist(before.rounds, c.round(), c.descriptor()),
                certificate_entries(self.certificates) == put(
                    before.certificates,
                    c.certificate_id,
                    c,
                ),
                batch_entries(self.batch_ids) == put(before.batch_ids, c.batch_id(), c.round()),
                transmission_entries(self.transmissions) == attach(
                    before.transmissions,
                    transmission_ids@.take(i as int),
                    certificate_id,
                    given,
                ),
                forall|j: int|
                    i <= j < transmission_ids.len() && !has_key(
                        before.transmissions,
                        #[trigger] transmission_ids@[j],
                    ) ==> missing@.contains_key(transmission_ids@[j])
                        && missing@[transmission_ids@[j]]@ == given[transmission_ids@[j]],
            decreases transmission_ids.len() - i,
        {
            let transmission_id = transmission_ids[i];
            let ghost done = transmission_ids@.take(i as int);
            let ghost current = transmission_entries(self.transmissions);
            proof {
                assert(transmission_ids@.take(i as int + 1) == done.push(transmission_id));
                assert(transmission_ids@.take(i as int + 1).drop_last() == done);
                assert(done.no_duplicates());
                lemma_attach(
                    before.transmissions,
                    done,
                    certificate_id,
                    given,
                );
                if done.contains(transmission_id) {
                    let j = done.index_of(transmission_id);
                    assert(done[j] == transmission_id);
                    assert(transmission_ids@[j] == transmission_ids@[i as int]);
                    assert(false);
                }
                assert(as_map(current).dom().contains(transmission_id) == as_map(
                    before.transmissions,
                ).dom().contains(transmission_id));
                assert(has_key(current, transmission_id) == has_key(
                    before.transmissions,
                    transmission_id,
                ));
            }
            match transmission_index_get_mut(&mut self.transmissions, transmission_id) {
                Some(entry) => {
                    id_set_insert(&mut entry.1, certificate_id);
                },
                None => {
                    let transmission = match missing.remove(&transmission_id) {
                        Some(transmission) => transmission,
                        None => {
                            proof {
                                assert(false);
                            }
                            vstd::pervasive::unreached()
                        },
                    };
                    let mut certificate_ids = id_set_new();
                    id_set_insert(&mut certificate_ids, certificate_id);
                    proof {
                        assert(id_items(certificate_ids) =~= seq![certificate_id]);
                    }
                    transmission_index_insert(
                        &mut self.transmissions,
                        transmission_id,
                        (transmission, certificate_ids),
                    );
                },
            }
            proof {
                assert(transmission_entries(self.transmissions) == attach_one(
                    current,
                    transmission_id,
                    certificate_id,
                    given,
                ));
                assert forall|j: int|
                    i + 1 <= j < transmission_ids.len() && !has_key(
                        before.transmissions,
                        #[trigger] transmission_ids@[j],
                    ) implies missing@.contains_key(transmission_ids@[j])
                    && missing@[transmission_ids@[j]]@ == given[transmission_ids@[j]] by {
                    assert(transmission_ids@[j] != transmission_ids@[i as int]);
                }
            }
            i += 1;
        }
        proof {
            assert(transmission_ids@.take(transmission_ids.len() as int) == transmission_ids@);
            assert(self@ == before.with_certificate(c, given));
            lemma_with_certificate_wf(before, c, given);
            lemma_with_certificate_maps(before, c, given);
        }
    }

    /// Removes the given certificate from the four data indices.
    ///
    /// Returns `true` if the certificate was stored, and `false`, with the
    /// storage unchanged, if it was not.
    pub fn remove_certificate(&mut self, certificate_id: u64) -> (removed: bool)
        requires
            old(self).wf(),
        ensures
            removed == old(self)@.has_certificate(certificate_id),
            final(self)@ == old(self)@.without_certificate(certificate_id),
            final(self)@.certificate_map() == old(self)@.certificate_map().remove(certificate_id),
            final(self).wf(),
    {
        let certificate = match self.get_certificate(certificate_id) {
            Some(certificate) => certificate,
            None => {
                proof {
                    assert(self@.certificate_map().remove(certificate_id)
                        =~= self@.certificate_map());
                }
                return false;
            },
        };
        let round = certificate.round();
        let batch_id = certificate.batch_id();
        let author = certificate.author();
        let descriptor = (certificate_id, batch_id, author);
        let ghost before = self@;
        let ghost c = certificate@;
        proof {
            assert(before.certificate_ok(certificate_id));
        }

        // The round index.
        let mut emptied = false;
        match round_index_get_mut(&mut self.rounds, round) {
            Some(descriptors) => {
                descriptor_set_remove(descriptors, descriptor);
                emptied = descriptor_set_is_empty(descriptors);
            },
            None => {},
        }
        if emptied {
            proof {
                lemma_put_del(
                    before.rounds,
                    round,
                    without_item(as_map(before.rounds)[round], descriptor),
                );
            }
            round_index_remove(&mut self.rounds, round);
        }
        assert(round_entries(self.rounds) == delist(before.rounds, round, descriptor));
        // The certificate index and the batch index.
        certificate_index_remove(&mut self.certificates, certificate_id);
        batch_index_remove(&mut self.batch_ids, batch_id);
        // The transmission index.
        let transmission_ids = certificate.transmission_ids();
        let mut i: usize = 0;
        while i < transmission_ids.len()
            invariant
                i <= transmission_ids.len(),
                transmission_ids@ == c.transmission_ids(),
                transmission_ids@.no_duplicates(),
                keys_distinct(before.transmissions),
                self.current_round == before.current_round,
                self.gc_round == before.gc_round,
                self.max_gc_rounds == before.max_gc_rounds,
                committee_entries(self.committees) == before.committees,
                round_entries(self.rounds) == delist(before.rounds, c.round(), c.descriptor()),
                certificate_entries(self.certificates) == del(before.certificates, certificate_id),
                batch_entries(self.batch_ids) == del(before.batch_ids, c.batch_id()),
                transmission_entries(self.transmissions) == detach(
                    before.transmissions,
                    transmission_ids@.take(i as int),
                    certificate_id,
                ),
            decreases transmission_ids.len() - i,
        {
            let transmission_id = transmission_ids[i];
            let ghost done = transmission_ids@.take(i as int);
            let ghost current = transmission_entries(self.transmissions);
            proof {
                assert(transmission_ids@.take(i as int + 1) == done.push(transmission_id));
                assert(transmission_ids@.take(i as int + 1).drop_last() == done);
                assert(done.no_duplicates());
                lemma_detach(before.transmissions, done, certificate_id);
            }
            let mut emptied = false;
            match transmission_index_get_mut(&mut self.transmissions, transmission_id) {
                Some(entry) => {
                    id_set_remove(&mut entry.1, certificate_id);
                    emptied = id_set_is_empty(&entry.1);
                },
                None => {},
            }
            if emptied {
                proof {
                    lemma_put_del(
                        current,
                        transmission_id,
                        (
                            as_map(current)[transmission_id].0,
                            without_item(as_map(current)[transmission_id].1, certificate_id),
                        ),
                    );
                }
                transmission_index_remove(&mut self.transmissions, transmission_id);
            }
            proof {
                assert(transmission_entries(self.transmissions) == detach_one(
                    current,
                    transmission_id,
                    certificate_id,
                ));
            }
            i += 1;
        }
        proof {
            assert(transmission_ids@.take(transmission_ids.len() as int) == transmission_ids@);
            assert(self@ == before.without_certificate(certificate_id));
            lemma_without_certificate_wf(before, certificate_id);
            lemma_without_certificate_maps(before, certificate_id);
        }
        true
    }

    /// The error for a request about `round` that broke the rule `reason`.
    fn reject(&self, reason: Rejection, round: u64) -> (error: StorageError)
        ensures
            error == (StorageError { reason, round, gc_round: self@.gc_round }),
    {
        StorageError { reason, round, gc_round: self.gc_round }
    }

    /// Checks the given batch header against the storage and returns, of
    /// the given transmissions, those that the header lists and the
    /// storage does not hold.
    ///
    /// The header is accepted if
    /// - its batch id is not stored,
    /// - its author is a member of the committee of its round,
    /// - its timestamp is live,
    /// - each of its transmissions is stored or given, and,
    /// - unless the previous round is at or below the garbage-collection
    ///   round: the committee and certificates of the previous round are
    ///   stored, the header names at most as many previous certificates as
    ///   that committee has members, each of them is stored and of the
    ///   previous round, no two have the same author, and their authors
    ///   hold a quorum.
    #[verifier::loop_isolation(false)]
    pub fn check_batch_header(
        &self,
        batch_header: &BatchHeader,
        transmissions: HashMap<u64, Transmission>,
        window: &LivenessWindow,
    ) -> (result: Result<HashMap<u64, Transmission>, StorageError>)
        ensures
            match result {
                Ok(missing) => self@.header_rejection(
                    batch_header@,
                    *window,
                    transmissions@.dom(),
                ) is None && missing@ == transmissions@.restrict(self@.needed(batch_header@)),
                Err(error) => self@.header_rejection(batch_header@, *window, transmissions@.dom())
                    == Some(error.reason) && error.round == batch_header@.round && error.gc_round
                    == self@.gc_round,
            },
    {
        let round = batch_header.round();
        let gc_round = self.gc_round();
        let ghost h = batch_header@;
        let ghost given = transmissions@;

        if self.contains_batch(batch_header.batch_id()) {
            return Err(self.reject(Rejection::BatchExists, round));
        }
        let committee = match committee_index_get(&self.committees, round) {
            Some(committee) => committee,
            None => {
                return Err(self.reject(Rejection::MissingCommittee, round));
            },
        };
        if !committee.is_committee_member(batch_header.author()) {
            return Err(self.reject(Rejection::AuthorNotInCommittee, round));
        }
        if !window.is_live(batch_header.timestamp()) {
            return Err(self.reject(Rejection::TimestampNotLive, round));
        }
        // Move the transmissions that the storage lacks from the given ones
        // to the missing ones.

        let mut provided = transmissions;
        let mut missing: HashMap<u64, Transmission> = HashMap::new();
        let transmission_ids = batch_header.transmission_ids();
        let mut i: usize = 0;
        while i < transmission_ids.len()
            invariant
                i <= transmission_ids.len(),
                transmission_ids@ == h.transmission_ids,
                transmission_ids@.no_duplicates(),
                provided@ == given.remove_keys(
                    Set::new(
                        |t: u64|
                            transmission_ids@.take(i as int).contains(t)
                                && !self@.has_transmission(t),
                    ),
                ),
                forall|j: int|
                    0 <= j < i && !self@.has_transmission(#[trigger] transmission_ids@[j])
                        ==> given.contains_key(transmission_ids@[j]),
                missing@ == given.restrict(
                    Set::new(
                        |t: u64|
                            transmission_ids@.take(i as int).contains(t)
                                && !self@.has_transmission(t),
                    ),
                ),
            decreases transmission_ids.len() - i,
        {
            let transmission_id = transmission_ids[i];
            let ghost done = transmission_ids@.take(i as int);
            let ghost next = transmission_ids@.take(i as int + 1);
            proof {
                assert(next == done.push(transmission_id));
                if done.contains(transmission_id) {
                    let j = done.index_of(transmission_id);
                    assert(done[j] == transmission_id);
                    assert(transmission_ids@[j] == transmission_ids@[i as int]);
                    assert(false);
                }
                assert forall|t: u64| next.contains(t) <==> (t == transmission_id || done.contains(
                    t,
                )) by {
                    if done.contains(t) {
                        let j = done.index_of(t);
                        assert(next[j] == t);
                    }
                    if next.contains(t) {
                        let j = next.index_of(t);
                        if j < done.len() {
                            assert(done[j] == t);
                        }
                    }
                    assert(next[i as int] == transmission_id);
                }
            }
            if !self.contains_transmission(transmission_id) {
                match provided.remove(&transmission_id) {
                    Some(transmission) => {
                        missing.insert(transmission_id, transmission);
                    },
                    None => {
                        proof {
                            assert(transmission_ids@.contains(transmission_ids@[i as int]));
                            assert(self@.needed(h).contains(transmission_id));
                            assert(!given.dom().contains(transmission_id));
                        }
                        return Err(self.reject(Rejection::MissingTransmission, round));
                    },
                }
            }
            proof {
                assert(missing@ =~= given.restrict(
                    Set::new(|t: u64| next.contains(t) && !self@.has_transmission(t)),
                ));
                assert(provided@ =~= given.remove_keys(
                    Set::new(|t: u64| next.contains(t) && !self@.has_transmission(t)),
                ));
            }
            i += 1;
        }
        proof {
            assert(transmission_ids@.take(transmission_ids.len() as int) == transmission_ids@);
            assert(Set::new(
                |t: u64| transmission_ids@.contains(t) && !self@.has_transmission(t),
            ) =~= self@.needed(h));
            assert(self@.needed(h).subset_of(given.dom())) by {
                assert forall|t: u64| self@.needed(h).contains(t) implies given.dom().contains(
                    t,
                ) by {
                    let j = transmission_ids@.index_of(t);
                    assert(transmission_ids@[j] == t);
                }
            }
        }

        let previous_round = previous_round(round);
        if previous_round > gc_round {
            let previous_committee = match committee_index_get(&self.committees, previous_round) {
                Some(committee) => committee,
                None => {
                    return Err(self.reject(Rejection::MissingPreviousCommittee, round));
                },
            };
            if !self.contains_certificates_for_round(previous_round) {
                return Err(self.reject(Rejection::MissingPreviousRound, round));
            }
            let previous_ids = batch_header.previous_certificate_ids();
            if previous_ids.len() > previous_committee.num_members() {
                return Err(self.reject(Rejection::TooManyPreviousCertificates, round));
            }
            let mut previous_authors: HashSet<u64> = HashSet::new();
            let mut k: usize = 0;
            while k < previous_ids.len()
                invariant
                    k <= previous_ids.len(),
                    previous_ids@ == h.previous_certificate_ids,
                    self@.previous_fault(previous_ids@, previous_round, k as int) is None,
                    previous_authors@ == self@.authors_of(previous_ids@, k as int),
                decreases previous_ids.len() - k,
            {
                let previous_id = previous_ids[k];
                let previous_certificate = match certificate_index_get(
                    &self.certificates,
                    previous_id,
                ) {
                    Some(certificate) => certificate,
                    None => {
                        proof {
                            lemma_previous_fault_found(
                                self@,
                                previous_ids@,
                                previous_round,
                                k as int,
                                previous_ids.len() as int,
                            );
                        }
                        return Err(self.reject(Rejection::MissingPreviousCertificate, round));
                    },
                };
                if previous_certificate.round() != previous_round {
                    proof {
                        lemma_previous_fault_found(
                            self@,
                            previous_ids@,
                            previous_round,
                            k as int,
                            previous_ids.len() as int,
                        );
                    }
                    return Err(self.reject(Rejection::PreviousCertificateWrongRound, round));
                }
                let previous_author = previous_certificate.author();
                if previous_authors.contains(&previous_author) {
                    proof {
                        lemma_previous_fault_found(
                            self@,
                            previous_ids@,
                            previous_round,
                            k as int,
                            previous_ids.len() as int,
                        );
                    }
                    return Err(self.reject(Rejection::DuplicatePreviousAuthor, round));
                }
                previous_authors.insert(previous_author);
                proof {
                    assert(self@.previous_fault_at(previous_ids@, previous_round, k as int) is None);
                    assert(previous_authors@ =~= self@.authors_of(previous_ids@, k as int + 1)) by {
                        assert forall|a: u64|
                            self@.authors_of(previous_ids@, k as int + 1).contains(a)
                            <==> (a == previous_author || self@.authors_of(
                            previous_ids@,
                            k as int,
                        ).contains(a)) by {
                            if a == previous_author {
                                assert(self@.certificate_map()[previous_ids@[k as int]].author()
                                    == a);
                            }
                        }
                    }
                }
                k += 1;
            }
            if !previous_committee.is_quorum_threshold_reached(&previous_authors) {
                return Err(self.reject(Rejection::PreviousQuorumNotReached, round));
            }
        }
        Ok(missing)
    }

    /// Checks the given certificate against the storage and returns, of
    /// the given transmissions, those that the certificate lists and the
    /// storage does not hold.
    ///
    /// The certificate is accepted if
    /// - its certificate id is not stored,
    /// - its author has no certificate in its round yet,
    /// - its batch header is accepted,
    /// - the timestamps of its signers are live,
    /// - its signers are members of the committee of its round, and
    /// - its author and its signers hold a quorum.
    #[verifier::loop_isolation(false)]
    pub fn check_certificate(
        &self,
        certificate: &BatchCertificate,
        transmissions: HashMap<u64, Transmission>,
        window: &LivenessWindow,
    ) -> (result: Result<HashMap<u64, Transmission>, StorageError>)
        ensures
            match result {
                Ok(missing) => self@.certificate_rejection(
                    certificate@,
                    *window,
                    transmissions@.dom(),
                ) is None && missing@ == transmissions@.restrict(
                    self@.needed(certificate@.batch_header),
                ),
                Err(error) => self@.certificate_rejection(
                    certificate@,
                    *window,
                    transmissions@.dom(),
                ) == Some(error.reason) && error.round == certificate@.round() && error.gc_round
                    == self@.gc_round,
            },
    {
        let round = certificate.round();
        let ghost c = certificate@;

        if self.contains_certificate(certificate.certificate_id()) {
            return Err(self.reject(Rejection::CertificateExists, round));
        }
        if self.contains_certificate_in_round_from(round, certificate.author()) {
            return Err(self.reject(Rejection::AuthorAlreadyCertified, round));
        }
        let missing = match self.check_batch_header(
            certificate.batch_header(),
            transmissions,
            window,
        ) {
            Ok(missing) => missing,
            Err(error) => {
                return Err(error);
            },
        };

        let timestamps = certificate.timestamps();
        let mut i: usize = 0;
        while i < timestamps.len()
            invariant
                i <= timestamps.len(),
                forall|j: int| 0 <= j < i ==> window.admits(#[trigger] timestamps@[j]),
            decreases timestamps.len() - i,
        {
            if !window.is_live(timestamps[i]) {
                return Err(self.reject(Rejection::SignerTimestampNotLive, round));
            }
            i += 1;
        }

        let committee = match committee_index_get(&self.committees, round) {
            Some(committee) => committee,
            None => {
                proof {
                    assert(false);
                }
                return Err(self.reject(Rejection::MissingCommittee, round));
            },
        };
        let mut signers: HashSet<u64> = HashSet::new();
        signers.insert(certificate.author());
        let signatures = certificate.signatures();
        let ghost addresses = signatures@.map_values(|s: (u64, i64)| s.0);
        let mut k: usize = 0;
        while k < signatures.len()
            invariant
                k <= signatures.len(),
                forall|j: int|
                    0 <= j < k ==> committee@.is_member((#[trigger] signatures@[j]).0),
                signers@ == addresses.take(k as int).to_set().insert(c.author()),
            decreases signatures.len() - k,
        {
            let signer = signatures[k].0;
            if !committee.is_committee_member(signer) {
                return Err(self.reject(Rejection::SignerNotInCommittee, round));
            }
            signers.insert(signer);
            proof {
                let done = addresses.take(k as int);
                let next = addresses.take(k as int + 1);
                assert(next == done.push(signer));
                assert(next.to_set() =~= done.to_set().insert(signer)) by {
                    assert forall|a: u64| next.contains(a) <==> (a == signer || done.contains(
                        a,
                    )) by {
                        if done.contains(a) {
                            let j = done.index_of(a);
                            assert(next[j] == a);
                        }
                        if next.contains(a) {
                            let j = next.index_of(a);
                            if j < done.len() {
                                assert(done[j] == a);
                            }
                        }
                        assert(next[k as int] == signer);
                    }
                }
            }
            k += 1;
        }
        proof {
            assert(addresses.take(signatures.len() as int) == addresses);
        }
        if !committee.is_quorum_threshold_reached(&signers) {
            return Err(self.reject(Rejection::SignerQuorumNotReached, round));
        }
        Ok(missing)
    }

    /// Inserts the given certificate, if the storage accepts it.
    ///
    /// The certificate must be of a round above the garbage-collection
    /// round and pass [`Storage::check_certificate`]; the storage then
    /// holds it in all four data indices. A certificate that is turned
    /// down leaves the storage as it is.
    pub fn insert_certificate(
        &mut self,
        certificate: BatchCertificate,
        transmissions: HashMap<u64, Transmission>,
        window: &LivenessWindow,
    ) -> (result: Result<(), StorageError>)
        requires
            old(self).wf(),
        ensures
            final(self).wf(),
            match result {
                Ok(()) => old(self)@.insertion_rejection(
                    certificate@,
                    *window,
                    transmissions@.dom(),
                ) is None && final(self)@ == old(self)@.with_certificate(
                    certificate@,
                    payloads(transmissions@),
                ) && final(self)@.certificate_map() == old(self)@.certificate_map().insert(
                    certificate@.certificate_id,
                    certificate@,
                ),
                Err(error) => old(self)@.insertion_rejection(
                    certificate@,
                    *window,
                    transmissions@.dom(),
                ) == Some(error.reason) && error.round == certificate@.round() && error.gc_round
                    == old(self)@.gc_round && final(self)@ == old(self)@,
            },
    {
        let round = certificate.round();
        if round <= self.gc_round() {
            return Err(self.reject(Rejection::RoundNotAboveGc, round));
        }
        let missing = match self.check_certificate(&certificate, transmissions, window) {
            Ok(missing) => missing,
            Err(error) => {
                return Err(error);
            },
        };
        // The transmission ids of a certificate are pairwise distinct.
        let transmission_ids = certificate.transmission_ids();
        proof {
            assert(transmission_ids@.no_duplicates());
            assert(certificate@.wf());
            let s = self@;
            let c = certificate@;
            let needed = s.needed(c.batch_header);
            assert(missing@.dom() =~= needed);
            lemma_attach_agree(
                s.transmissions,
                c.transmission_ids(),
                c.certificate_id,
                payloads(missing@),
                payloads(transmissions@),
            );
        }
        self.insert_certificate_atomic(certificate, missing);
        Ok(())
    }

    /// Removes the committee of the given round. Only garbage collection
    /// calls this, for a round that it has cleared of certificates.
    fn remove_committee(&mut self, round: u64)
        requires
            old(self).wf(),
            !old(self)@.has_round(round),
            round != old(self)@.current_round,
        ensures
            final(self)@ == (StorageView {
                committees: del(old(self)@.committees, round),
                ..old(self)@
            }),
            final(self)@.committee_map() == old(self)@.committee_map().remove(round),
            final(self).wf(),
    {
        let ghost before = self@;
        committee_index_remove(&mut self.committees, round);
        proof {
            lemma_without_committee_wf(before, self@, round);
        }
    }

    /// Removes the certificates of the given round and then its committee.
    fn collect_round(&mut self, round: u64)
        requires
            old(self).wf(),
            round != old(self)@.current_round,
        ensures
            final(self)@ == old(self)@.without_round(round),
            final(self).wf(),
    {
        let ghost start = self@;
        let ghost ids = start.certificate_ids_for_round(round);
        let certificates = self.get_certificates_for_round(round);
        proof {
            if start.has_round(round) {
                lemma_round_prefix_removed(start, round, 0);
            }
            assert(ids.len() == certificates.len());
        }
        let mut j: usize = 0;
        while j < certificates.len()
            invariant
                j <= certificates.len(),
                start.wf(),
                certificates@.map_values(|c: BatchCertificate| c@) == start.certificates_for_round(
                    round,
                ),
                ids == start.certificate_ids_for_round(round),
                ids.len() == certificates.len(),
                self@ == start.without_certificates(ids.take(j as int)),
                self.wf(),
            decreases certificates.len() - j,
        {
            let certificate_id = certificates[j].certificate_id();
            proof {
                assert(certificates@.map_values(|c: BatchCertificate| c@)[j as int]
                    == certificates@[j as int]@);
                assert(ids[j as int] == certificate_id);
                assert(ids.take(j as int + 1).drop_last() == ids.take(j as int));
            }
            self.remove_certificate(certificate_id);
            j += 1;
        }
        proof {
            assert(ids.take(ids.len() as int) == ids);
            if start.has_round(round) {
                lemma_round_prefix_removed(start, round, ids.len() as int);
            }
        }
        self.remove_committee(round);
    }

    /// Moves the committee on to the next round and collects the rounds
    /// that fall out of the retention window.
    ///
    /// The committee of the next round is stored and the next round
    /// becomes the current round. With `next_gc` the next round less the
    /// retention depth (0 where that would be negative), the rounds from
    /// the old garbage-collection round up to, not including, `next_gc`
    /// lose their certificates and their committees, and `next_gc` becomes
    /// the garbage-collection round. The call fails, and changes nothing,
    /// if the next round already holds certificates.
    pub fn increment_committee_to_next_round(&mut self) -> (result: Result<(), StorageError>)
        requires
            old(self).wf(),
            old(self)@.current_round < u64::MAX,
        ensures
            final(self).wf(),
            match result {
                Ok(()) => {
                    &&& !old(self)@.has_round(old(self)@.next_round())
                    &&& final(self)@ == old(self)@.advanced()
                    &&& final(self)@.current_round == old(self)@.current_round + 1
                    &&& final(self)@.gc_round == if old(self)@.next_gc_round() > old(
                        self,
                    )@.gc_round {
                        old(self)@.next_gc_round()
                    } else {
                        old(self)@.gc_round
                    }
                    &&& final(self)@.has_committee(old(self)@.next_round())
                    &&& final(self)@.committee_map()[old(self)@.next_round()] == old(
                        self,
                    )@.committee_map()[old(self)@.current_round].next()
                },
                Err(error) => old(self)@.has_round(old(self)@.next_round()) && error == (
                StorageError {
                    reason: Rejection::NextRoundNotEmpty,
                    round: old(self)@.next_round(),
                    gc_round: old(self)@.gc_round,
                }) && final(self)@ == old(self)@,
            },
    {
        let ghost before = self@;
        proof {
            assert(before.committee_ok(before.current_round));
        }
        let next_committee = self.current_committee().to_next_round();
        let next_round = next_committee.round();
        if self.contains_certificates_for_round(next_round) {
            return Err(self.reject(Rejection::NextRoundNotEmpty, next_round));
        }
        self.current_round = next_round;
        committee_index_insert(&mut self.committees, next_round, next_committee);
        let ghost promoted = self@;
        proof {
            lemma_promoted_wf(before, promoted);
        }

        let current_gc_round = self.gc_round;
        let next_gc_round = if next_round >= self.max_gc_rounds {
            next_round - self.max_gc_rounds
        } else {
            0
        };
        if next_gc_round > current_gc_round {
            let mut gc_round = current_gc_round;
            while gc_round < next_gc_round
                invariant
                    current_gc_round <= gc_round <= next_gc_round,
                    next_gc_round <= next_round,
                    promoted.wf(),
                    promoted.current_round == next_round,
                    self@ == promoted.without_rounds(current_gc_round, gc_round),
                    self.wf(),
                decreases next_gc_round - gc_round,
            {
                proof {
                    lemma_without_rounds_wf(
                        promoted,
                        current_gc_round,
                        gc_round,
                    );
                }
                self.collect_round(gc_round);
                gc_round += 1;
            }
            self.gc_round = next_gc_round;
        }
        proof {
            lemma_advanced_wf(before);
        }
        Ok(())
    }
}

} // verus!
