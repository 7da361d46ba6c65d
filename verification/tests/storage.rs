use narwhal_storage::committee::Committee;
use narwhal_storage::error::{Rejection, StorageError};
use narwhal_storage::liveness::LivenessWindow;
use narwhal_storage::storage::{previous_round, Storage};
use narwhal_storage::types::{BatchCertificate, BatchHeader, Transmission, TransmissionKind};
use std::collections::HashMap;

const NOW: i64 = 1_700_000_000;

fn window() -> LivenessWindow {
    LivenessWindow { earliest: NOW - 10, latest: NOW + 10 }
}

/// Four members with addresses 1 to 4 and one unit of stake each.
fn sample_committee(round: u64) -> Committee {
    Committee::new(round, vec![(1, 1), (2, 1), (3, 1), (4, 1)]).unwrap()
}

fn sample_transmission(seed: u8) -> Transmission {
    if seed % 2 == 0 {
        Transmission { kind: TransmissionKind::Solution, payload: vec![seed; 8] }
    } else {
        Transmission { kind: TransmissionKind::Transaction, payload: vec![seed; 16] }
    }
}

/// A certificate of `author` in `round`, signed by the three other members.
fn sample_certificate(
    certificate_id: u64,
    batch_id: u64,
    author: u64,
    round: u64,
    transmission_ids: Vec<u64>,
    previous_certificate_ids: Vec<u64>,
) -> BatchCertificate {
    let header =
        BatchHeader::new(batch_id, author, round, NOW, transmission_ids, previous_certificate_ids).unwrap();
    let signatures = (1..=4u64).filter(|a| *a != author).map(|a| (a, NOW + 1)).collect();
    BatchCertificate::new(certificate_id, header, signatures)
}

fn sample_batch_certificate() -> BatchCertificate {
    sample_certificate(100, 200, 1, 1, vec![10, 11], vec![])
}

/// The transmissions of a certificate, as the caller provides them and as
/// the store should hold them once the certificate is the only one inserted.
fn sample_transmissions(
    certificate: &BatchCertificate,
) -> (HashMap<u64, Transmission>, HashMap<u64, (Transmission, Vec<u64>)>) {
    let mut missing = HashMap::new();
    let mut stored = HashMap::new();
    for (n, id) in certificate.transmission_ids().iter().enumerate() {
        let transmission = sample_transmission(n as u8);
        missing.insert(*id, transmission.clone());
        stored.insert(*id, (transmission, vec![certificate.certificate_id()]));
    }
    (missing, stored)
}

fn descriptors(items: &[(u64, u64, u64)]) -> Vec<(u64, u64, u64)> {
    items.to_vec()
}

fn assert_storage(
    storage: &Storage,
    committees: Vec<(u64, Committee)>,
    rounds: Vec<(u64, Vec<(u64, u64, u64)>)>,
    certificates: Vec<(u64, BatchCertificate)>,
    batch_ids: Vec<(u64, u64)>,
    transmissions: HashMap<u64, (Transmission, Vec<u64>)>,
) {
    assert_eq!(storage.committees_iter(), committees);
    assert_eq!(storage.rounds_iter(), rounds);
    assert_eq!(storage.certificates_iter(), certificates);
    assert_eq!(storage.batch_ids_iter(), batch_ids);
    assert_eq!(storage.transmissions_iter().into_iter().collect::<HashMap<_, _>>(), transmissions);
}

fn rejection(reason: Rejection, round: u64, gc_round: u64) -> StorageError {
    StorageError { reason, round, gc_round }
}

/// A store at round 1 that holds the four round-1 certificates 101..104 of
/// the authors 1..4, and has moved on to round 2 without collecting.
fn storage_with_full_round() -> Storage {
    let mut storage = Storage::new(sample_committee(1), 10);
    for author in 1..=4u64 {
        let certificate = sample_certificate(100 + author, 200 + author, author, 1, vec![], vec![]);
        storage.insert_certificate(certificate, HashMap::new(), &window()).unwrap();
    }
    storage.increment_committee_to_next_round().unwrap();
    storage
}

#[test]
fn test_certificate_insert_remove() {
    let committee = sample_committee(1);
    let mut storage = Storage::new(committee.clone(), 1);

    let committees = vec![(1, committee)];
    assert_storage(&storage, committees.clone(), vec![], vec![], vec![], HashMap::new());

    let certificate = sample_batch_certificate();
    let certificate_id = certificate.certificate_id();
    let round = certificate.round();
    let batch_id = certificate.batch_id();
    let author = certificate.author();

    let (missing_transmissions, transmissions) = sample_transmissions(&certificate);

    storage.insert_certificate_atomic(certificate.clone(), missing_transmissions);
    assert!(storage.contains_certificate(certificate_id));
    assert_eq!(storage.get_certificates_for_round(round), vec![certificate.clone()]);

    {
        let rounds = vec![(round, descriptors(&[(certificate_id, batch_id, author)]))];
        let certificates = vec![(certificate_id, certificate.clone())];
        let batch_ids = vec![(batch_id, round)];
        assert_storage(&storage, committees.clone(), rounds, certificates, batch_ids, transmissions);
    }

    let candidate_certificate = storage.get_certificate(certificate_id).unwrap();
    assert_eq!(certificate, candidate_certificate);

    assert!(storage.remove_certificate(certificate_id));
    assert!(!storage.contains_certificate(certificate_id));
    assert!(storage.get_certificates_for_round(round).is_empty());
    assert_storage(&storage, committees, vec![], vec![], vec![], HashMap::new());
}

#[test]
fn test_certificate_duplicate() {
    let committee = sample_committee(1);
    let mut storage = Storage::new(committee.clone(), 1);

    let committees = vec![(1, committee)];
    assert_storage(&storage, committees.clone(), vec![], vec![], vec![], HashMap::new());

    let certificate = sample_batch_certificate();
    let certificate_id = certificate.certificate_id();
    let round = certificate.round();
    let batch_id = certificate.batch_id();
    let author = certificate.author();

    let rounds = vec![(round, descriptors(&[(certificate_id, batch_id, author)]))];
    let certificates = vec![(certificate_id, certificate.clone())];
    let batch_ids = vec![(batch_id, round)];
    let (missing_transmissions, transmissions) = sample_transmissions(&certificate);

    storage.insert_certificate_atomic(certificate.clone(), missing_transmissions.clone());
    assert!(storage.contains_certificate(certificate_id));
    assert_storage(
        &storage,
        committees.clone(),
        rounds.clone(),
        certificates.clone(),
        batch_ids.clone(),
        transmissions.clone(),
    );

    // Insert the certificate again, without any missing transmissions.
    storage.insert_certificate_atomic(certificate.clone(), HashMap::new());
    assert!(storage.contains_certificate(certificate_id));
    assert_storage(
        &storage,
        committees.clone(),
        rounds.clone(),
        certificates.clone(),
        batch_ids.clone(),
        transmissions.clone(),
    );

    // Insert the certificate again, with the missing transmissions of the first time.
    storage.insert_certificate_atomic(certificate, missing_transmissions);
    assert!(storage.contains_certificate(certificate_id));
    assert_storage(&storage, committees, rounds, certificates, batch_ids, transmissions);
}

#[test]
fn new_storage_holds_only_the_committee() {
    let committee = sample_committee(7);
    let storage = Storage::new(committee.clone(), 3);
    assert_eq!(storage.current_round(), 7);
    assert_eq!(storage.gc_round(), 0);
    assert_eq!(storage.max_gc_rounds(), 3);
    assert_eq!(storage.get_committee(7), Some(committee.clone()));
    assert_eq!(storage.get_committee(6), None);
    assert_eq!(storage.current_committee(), committee.clone());
    assert_storage(&storage, vec![(7, committee)], vec![], vec![], vec![], HashMap::new());
}

#[test]
fn insert_then_get() {
    let mut storage = Storage::new(sample_committee(1), 1);
    let certificate = sample_batch_certificate();
    let (provided, _) = sample_transmissions(&certificate);
    assert_eq!(storage.insert_certificate(certificate.clone(), provided, &window()), Ok(()));

    assert!(storage.contains_certificate(100));
    assert!(!storage.contains_certificate(101));
    assert!(storage.contains_batch(200));
    assert!(!storage.contains_batch(100));
    assert!(storage.contains_certificates_for_round(1));
    assert!(!storage.contains_certificates_for_round(2));
    assert!(storage.contains_certificate_in_round_from(1, 1));
    assert!(!storage.contains_certificate_in_round_from(1, 2));
    assert!(!storage.contains_certificate_in_round_from(2, 1));
    assert!(storage.contains_transmission(10));
    assert!(storage.contains_transmission(11));
    assert!(!storage.contains_transmission(12));
    assert_eq!(storage.get_transmission(10), Some(sample_transmission(0)));
    assert_eq!(storage.get_transmission(11), Some(sample_transmission(1)));
    assert_eq!(storage.get_transmission(12), None);
    assert_eq!(storage.get_round_for_certificate(100), Some(1));
    assert_eq!(storage.get_round_for_certificate(200), None);
    assert_eq!(storage.get_certificate_round(100), Some(1));
    assert_eq!(storage.get_round_for_batch(200), Some(1));
    assert_eq!(storage.get_round_for_batch(100), None);
    assert_eq!(storage.get_certificate(100), Some(certificate.clone()));
    assert_eq!(storage.get_certificate(7), None);
    assert_eq!(storage.get_certificates_for_round(1), vec![certificate]);

    assert_eq!(
        storage.transmissions_iter(),
        vec![(10, (sample_transmission(0), vec![100])), (11, (sample_transmission(1), vec![100]))]
    );
}

#[test]
fn round_zero_and_unknown_rounds_have_no_certificates() {
    let mut storage = Storage::new(sample_committee(1), 1);
    storage.insert_certificate(sample_batch_certificate(), sample_transmissions(&sample_batch_certificate()).0, &window()).unwrap();
    assert!(storage.get_certificates_for_round(0).is_empty());
    assert!(storage.get_certificates_for_round(2).is_empty());
    assert!(storage.get_certificates_for_round(u64::MAX).is_empty());
}

#[test]
fn remove_clears_cross_indices() {
    let committee = sample_committee(1);
    let mut storage = Storage::new(committee.clone(), 1);
    let certificate = sample_batch_certificate();
    let (provided, _) = sample_transmissions(&certificate);
    storage.insert_certificate(certificate, provided, &window()).unwrap();

    assert!(storage.remove_certificate(100));
    assert_storage(&storage, vec![(1, committee)], vec![], vec![], vec![], HashMap::new());
    // A second removal finds nothing and changes nothing.
    assert!(!storage.remove_certificate(100));
}

#[test]
fn remove_of_unknown_certificate_changes_nothing() {
    let mut storage = Storage::new(sample_committee(1), 1);
    let certificate = sample_batch_certificate();
    let (provided, stored) = sample_transmissions(&certificate);
    storage.insert_certificate(certificate.clone(), provided, &window()).unwrap();
    assert!(!storage.remove_certificate(12345));
    assert_storage(
        &storage,
        vec![(1, sample_committee(1))],
        vec![(1, descriptors(&[(100, 200, 1)]))],
        vec![(100, certificate)],
        vec![(200, 1)],
        stored,
    );
}

#[test]
fn shared_transmission_stays_until_its_last_certificate_leaves() {
    let mut storage = Storage::new(sample_committee(1), 1);
    let first = sample_certificate(100, 200, 1, 1, vec![10, 11], vec![]);
    let second = sample_certificate(101, 201, 2, 1, vec![11, 12], vec![]);
    let mut provided = HashMap::new();
    provided.insert(10, sample_transmission(0));
    provided.insert(11, sample_transmission(1));
    storage.insert_certificate(first, provided, &window()).unwrap();
    let mut provided = HashMap::new();
    provided.insert(12, sample_transmission(2));
    // Transmission 11 is stored already and need not be provided again.
    assert_eq!(storage.insert_certificate(second, provided, &window()), Ok(()));

    let ids = |items: &[u64]| items.to_vec();
    assert_eq!(
        storage.transmissions_iter(),
        vec![
            (10, (sample_transmission(0), ids(&[100]))),
            (11, (sample_transmission(1), ids(&[100, 101]))),
            (12, (sample_transmission(2), ids(&[101]))),
        ]
    );
    assert_eq!(storage.rounds_iter(), vec![(1, descriptors(&[(100, 200, 1), (101, 201, 2)]))]);

    assert!(storage.remove_certificate(100));
    assert_eq!(
        storage.transmissions_iter(),
        vec![(11, (sample_transmission(1), ids(&[101]))), (12, (sample_transmission(2), ids(&[101])))]
    );
    assert_eq!(storage.rounds_iter(), vec![(1, descriptors(&[(101, 201, 2)]))]);
    assert_eq!(storage.batch_ids_iter(), vec![(201, 1)]);

    assert!(storage.remove_certificate(101));
    assert!(storage.transmissions_iter().is_empty());
    assert!(storage.rounds_iter().is_empty());
}

#[test]
fn removal_keeps_the_order_of_the_remaining_entries() {
    let mut storage = Storage::new(sample_committee(1), 1);
    for author in 1..=4u64 {
        let certificate = sample_certificate(100 + author, 200 + author, author, 1, vec![author], vec![]);
        let mut provided = HashMap::new();
        provided.insert(author, sample_transmission(author as u8));
        storage.insert_certificate(certificate, provided, &window()).unwrap();
    }
    assert!(storage.remove_certificate(102));
    assert_eq!(storage.batch_ids_iter(), vec![(201, 1), (203, 1), (204, 1)]);
    assert_eq!(storage.certificates_iter().iter().map(|e| e.0).collect::<Vec<_>>(), vec![101, 103, 104]);
    assert_eq!(storage.transmissions_iter().iter().map(|e| e.0).collect::<Vec<_>>(), vec![1, 3, 4]);
    assert_eq!(
        storage.rounds_iter(),
        vec![(1, descriptors(&[(101, 201, 1), (103, 203, 3), (104, 204, 4)]))]
    );
    assert_eq!(
        storage.get_certificates_for_round(1).iter().map(|c| c.certificate_id()).collect::<Vec<_>>(),
        vec![101, 103, 104]
    );
}

#[test]
fn insert_then_remove_restores_the_storage() {
    let mut storage = Storage::new(sample_committee(1), 1);
    let first = sample_certificate(100, 200, 1, 1, vec![10, 11], vec![]);
    let (provided, _) = sample_transmissions(&first);
    storage.insert_certificate(first, provided, &window()).unwrap();
    let committees = storage.committees_iter();
    let rounds = storage.rounds_iter();
    let certificates = storage.certificates_iter();
    let batch_ids = storage.batch_ids_iter();
    let transmissions = storage.transmissions_iter();

    let second = sample_certificate(101, 201, 2, 1, vec![11, 12], vec![]);
    let mut provided = HashMap::new();
    provided.insert(12, sample_transmission(2));
    storage.insert_certificate(second, provided, &window()).unwrap();
    assert!(storage.remove_certificate(101));

    assert_eq!(storage.committees_iter(), committees);
    assert_eq!(storage.rounds_iter(), rounds);
    assert_eq!(storage.certificates_iter(), certificates);
    assert_eq!(storage.batch_ids_iter(), batch_ids);
    assert_eq!(storage.transmissions_iter(), transmissions);
}

#[test]
fn check_returns_only_the_transmissions_that_are_not_stored() {
    let mut storage = Storage::new(sample_committee(1), 1);
    let first = sample_certificate(100, 200, 1, 1, vec![10, 11], vec![]);
    let (provided, _) = sample_transmissions(&first);
    storage.insert_certificate(first, provided, &window()).unwrap();

    let second = sample_certificate(101, 201, 2, 1, vec![11, 12], vec![]);
    let mut provided = HashMap::new();
    provided.insert(11, sample_transmission(9));
    provided.insert(12, sample_transmission(2));
    provided.insert(13, sample_transmission(3));
    let mut expected = HashMap::new();
    expected.insert(12, sample_transmission(2));
    assert_eq!(storage.check_batch_header(second.batch_header(), provided.clone(), &window()), Ok(expected.clone()));
    assert_eq!(storage.check_certificate(&second, provided, &window()), Ok(expected));
    // Checking does not change the storage.
    assert_eq!(storage.certificates_iter().len(), 1);
    assert_eq!(storage.get_transmission(11), Some(sample_transmission(1)));
}

#[test]
fn header_with_repeated_transmission_cannot_be_built() {
    assert!(BatchHeader::new(1, 1, 1, NOW, vec![5, 6, 5], vec![]).is_none());
    assert!(BatchHeader::new(1, 1, 1, NOW, vec![5, 6, 7], vec![9, 9]).is_some());
}

#[test]
fn rejects_stored_batch() {
    let mut storage = Storage::new(sample_committee(1), 1);
    storage.insert_certificate(sample_certificate(100, 200, 1, 1, vec![], vec![]), HashMap::new(), &window()).unwrap();
    let other = sample_certificate(101, 200, 2, 1, vec![], vec![]);
    assert_eq!(
        storage.check_batch_header(other.batch_header(), HashMap::new(), &window()),
        Err(rejection(Rejection::BatchExists, 1, 0))
    );
    assert_eq!(storage.insert_certificate(other, HashMap::new(), &window()), Err(rejection(Rejection::BatchExists, 1, 0)));
    assert_eq!(storage.certificates_iter().len(), 1);
}

#[test]
fn rejects_round_without_committee() {
    let mut storage = Storage::new(sample_committee(1), 1);
    let certificate = sample_certificate(100, 200, 1, 5, vec![], vec![]);
    assert_eq!(
        storage.insert_certificate(certificate, HashMap::new(), &window()),
        Err(rejection(Rejection::MissingCommittee, 5, 0))
    );
}

#[test]
fn rejects_author_outside_the_committee() {
    let mut storage = Storage::new(sample_committee(1), 1);
    let certificate = sample_certificate(100, 200, 99, 1, vec![], vec![]);
    assert_eq!(
        storage.insert_certificate(certificate, HashMap::new(), &window()),
        Err(rejection(Rejection::AuthorNotInCommittee, 1, 0))
    );
}

#[test]
fn rejects_timestamp_outside_the_window() {
    let storage = Storage::new(sample_committee(1), 1);
    let late = BatchHeader::new(200, 1, 1, NOW + 11, vec![], vec![]).unwrap();
    let early = BatchHeader::new(200, 1, 1, NOW - 11, vec![], vec![]).unwrap();
    let first = BatchHeader::new(200, 1, 1, NOW - 10, vec![], vec![]).unwrap();
    let last = BatchHeader::new(200, 1, 1, NOW + 10, vec![], vec![]).unwrap();
    assert_eq!(
        storage.check_batch_header(&late, HashMap::new(), &window()),
        Err(rejection(Rejection::TimestampNotLive, 1, 0))
    );
    assert_eq!(
        storage.check_batch_header(&early, HashMap::new(), &window()),
        Err(rejection(Rejection::TimestampNotLive, 1, 0))
    );
    assert_eq!(storage.check_batch_header(&first, HashMap::new(), &window()), Ok(HashMap::new()));
    assert_eq!(storage.check_batch_header(&last, HashMap::new(), &window()), Ok(HashMap::new()));
}

#[test]
fn rejects_transmission_that_is_neither_stored_nor_provided() {
    let mut storage = Storage::new(sample_committee(1), 1);
    let certificate = sample_certificate(100, 200, 1, 1, vec![10, 11], vec![]);
    let mut provided = HashMap::new();
    provided.insert(10, sample_transmission(0));
    assert_eq!(
        storage.insert_certificate(certificate, provided, &window()),
        Err(rejection(Rejection::MissingTransmission, 1, 0))
    );
    assert!(!storage.contains_transmission(10));
}

#[test]
fn rejects_missing_previous_committee() {
    let mut storage = Storage::new(sample_committee(3), 10);
    let certificate = sample_certificate(100, 200, 1, 3, vec![], vec![]);
    assert_eq!(
        storage.insert_certificate(certificate, HashMap::new(), &window()),
        Err(rejection(Rejection::MissingPreviousCommittee, 3, 0))
    );
}

#[test]
fn rejects_previous_round_without_certificates() {
    let mut storage = Storage::new(sample_committee(1), 10);
    storage.increment_committee_to_next_round().unwrap();
    let certificate = sample_certificate(100, 200, 1, 2, vec![], vec![]);
    assert_eq!(
        storage.insert_certificate(certificate, HashMap::new(), &window()),
        Err(rejection(Rejection::MissingPreviousRound, 2, 0))
    );
}

#[test]
fn rejects_more_previous_certificates_than_members() {
    let mut storage = storage_with_full_round();
    let certificate = sample_certificate(300, 400, 1, 2, vec![], vec![101, 102, 103, 104, 105]);
    assert_eq!(
        storage.insert_certificate(certificate, HashMap::new(), &window()),
        Err(rejection(Rejection::TooManyPreviousCertificates, 2, 0))
    );
}

#[test]
fn rejects_unknown_previous_certificate() {
    let mut storage = storage_with_full_round();
    let certificate = sample_certificate(300, 400, 1, 2, vec![], vec![101, 102, 999]);
    assert_eq!(
        storage.insert_certificate(certificate, HashMap::new(), &window()),
        Err(rejection(Rejection::MissingPreviousCertificate, 2, 0))
    );
}

#[test]
fn rejects_previous_certificate_of_another_round() {
    let mut storage = storage_with_full_round();
    let peer = sample_certificate(300, 400, 1, 2, vec![], vec![101, 102, 103]);
    storage.insert_certificate(peer, HashMap::new(), &window()).unwrap();
    let certificate = sample_certificate(301, 401, 2, 2, vec![], vec![101, 102, 300]);
    assert_eq!(
        storage.insert_certificate(certificate, HashMap::new(), &window()),
        Err(rejection(Rejection::PreviousCertificateWrongRound, 2, 0))
    );
}

#[test]
fn rejects_repeated_previous_author() {
    let mut storage = storage_with_full_round();
    let certificate = sample_certificate(300, 400, 1, 2, vec![], vec![101, 102, 101]);
    assert_eq!(
        storage.insert_certificate(certificate, HashMap::new(), &window()),
        Err(rejection(Rejection::DuplicatePreviousAuthor, 2, 0))
    );
}

#[test]
fn first_fault_among_previous_certificates_is_reported() {
    let storage = storage_with_full_round();
    // Position 1 is unknown, position 2 repeats position 0: the unknown one comes first.
    let header = BatchHeader::new(400, 1, 2, NOW, vec![], vec![101, 999, 101]).unwrap();
    assert_eq!(
        storage.check_batch_header(&header, HashMap::new(), &window()),
        Err(rejection(Rejection::MissingPreviousCertificate, 2, 0))
    );
    let header = BatchHeader::new(400, 1, 2, NOW, vec![], vec![101, 101, 999]).unwrap();
    assert_eq!(
        storage.check_batch_header(&header, HashMap::new(), &window()),
        Err(rejection(Rejection::DuplicatePreviousAuthor, 2, 0))
    );
}

#[test]
fn previous_round_quorum_is_required() {
    let mut storage = storage_with_full_round();
    let two = sample_certificate(300, 400, 1, 2, vec![], vec![101, 102]);
    assert_eq!(
        storage.insert_certificate(two, HashMap::new(), &window()),
        Err(rejection(Rejection::PreviousQuorumNotReached, 2, 0))
    );
    let three = sample_certificate(300, 400, 1, 2, vec![], vec![101, 102, 103]);
    assert_eq!(storage.insert_certificate(three, HashMap::new(), &window()), Ok(()));
    assert!(storage.contains_certificate(300));
}

#[test]
fn previous_certificates_are_not_checked_at_the_gc_round() {
    // With the previous round at the garbage-collection round, what the
    // header says of previous certificates is not looked at.
    let mut storage = Storage::new(sample_committee(1), 10);
    let certificate = sample_certificate(100, 200, 1, 1, vec![], vec![999, 998]);
    assert_eq!(storage.insert_certificate(certificate, HashMap::new(), &window()), Ok(()));

    let mut storage = Storage::new(sample_committee(1), 1);
    storage.increment_committee_to_next_round().unwrap();
    assert_eq!(storage.gc_round(), 1);
    let certificate = sample_certificate(100, 200, 1, 2, vec![], vec![999]);
    assert_eq!(storage.insert_certificate(certificate, HashMap::new(), &window()), Ok(()));
}

#[test]
fn rejects_stored_certificate() {
    let mut storage = Storage::new(sample_committee(1), 1);
    let certificate = sample_certificate(100, 200, 1, 1, vec![], vec![]);
    storage.insert_certificate(certificate.clone(), HashMap::new(), &window()).unwrap();
    assert_eq!(
        storage.check_certificate(&certificate, HashMap::new(), &window()),
        Err(rejection(Rejection::CertificateExists, 1, 0))
    );
    assert_eq!(
        storage.insert_certificate(certificate, HashMap::new(), &window()),
        Err(rejection(Rejection::CertificateExists, 1, 0))
    );
}

#[test]
fn rejects_second_certificate_of_an_author_in_a_round() {
    let mut storage = Storage::new(sample_committee(1), 1);
    storage.insert_certificate(sample_certificate(100, 200, 1, 1, vec![], vec![]), HashMap::new(), &window()).unwrap();
    let second = sample_certificate(101, 201, 1, 1, vec![], vec![]);
    assert_eq!(
        storage.insert_certificate(second, HashMap::new(), &window()),
        Err(rejection(Rejection::AuthorAlreadyCertified, 1, 0))
    );
    assert_eq!(storage.get_certificates_for_round(1).len(), 1);
}

#[test]
fn rejects_signer_timestamp_outside_the_window() {
    let mut storage = Storage::new(sample_committee(1), 1);
    let header = BatchHeader::new(200, 1, 1, NOW, vec![], vec![]).unwrap();
    let certificate = BatchCertificate::new(100, header, vec![(2, NOW), (3, NOW + 11), (4, NOW)]);
    assert_eq!(certificate.timestamps(), vec![NOW, NOW, NOW + 11, NOW]);
    assert_eq!(
        storage.insert_certificate(certificate, HashMap::new(), &window()),
        Err(rejection(Rejection::SignerTimestampNotLive, 1, 0))
    );
}

#[test]
fn rejects_signer_outside_the_committee() {
    let mut storage = Storage::new(sample_committee(1), 1);
    let header = BatchHeader::new(200, 1, 1, NOW, vec![], vec![]).unwrap();
    let certificate = BatchCertificate::new(100, header, vec![(2, NOW), (3, NOW), (5, NOW)]);
    assert_eq!(
        storage.insert_certificate(certificate, HashMap::new(), &window()),
        Err(rejection(Rejection::SignerNotInCommittee, 1, 0))
    );
}

#[test]
fn rejects_signers_without_quorum() {
    let mut storage = Storage::new(sample_committee(1), 1);
    let header = BatchHeader::new(200, 1, 1, NOW, vec![], vec![]).unwrap();
    // The author and one signer hold 2 of 4; a signer counted twice adds nothing.
    let certificate = BatchCertificate::new(100, header, vec![(2, NOW), (2, NOW)]);
    assert_eq!(
        storage.insert_certificate(certificate, HashMap::new(), &window()),
        Err(rejection(Rejection::SignerQuorumNotReached, 1, 0))
    );
    let header = BatchHeader::new(200, 1, 1, NOW, vec![], vec![]).unwrap();
    let certificate = BatchCertificate::new(100, header, vec![(2, NOW), (3, NOW)]);
    assert_eq!(storage.insert_certificate(certificate, HashMap::new(), &window()), Ok(()));
}

#[test]
fn rejects_round_at_or_below_the_gc_round() {
    let mut storage = Storage::new(sample_committee(1), 1);
    storage.increment_committee_to_next_round().unwrap();
    assert_eq!(storage.gc_round(), 1);
    let certificate = sample_certificate(100, 200, 1, 1, vec![], vec![]);
    assert_eq!(
        storage.insert_certificate(certificate, HashMap::new(), &window()),
        Err(rejection(Rejection::RoundNotAboveGc, 1, 1))
    );
    let certificate = sample_certificate(100, 200, 1, 0, vec![], vec![]);
    assert_eq!(
        storage.insert_certificate(certificate, HashMap::new(), &window()),
        Err(rejection(Rejection::RoundNotAboveGc, 0, 1))
    );
}

#[test]
fn advance_stores_the_next_committee() {
    let mut storage = Storage::new(sample_committee(1), 10);
    assert_eq!(storage.increment_committee_to_next_round(), Ok(()));
    assert_eq!(storage.current_round(), 2);
    assert_eq!(storage.gc_round(), 0);
    assert_eq!(storage.committees_iter(), vec![(1, sample_committee(1)), (2, sample_committee(2))]);
    assert_eq!(storage.current_committee(), sample_committee(2));
}

#[test]
fn advance_collects_the_rounds_below_the_new_gc_round() {
    let mut storage = Storage::new(sample_committee(1), 1);
    let certificate = sample_batch_certificate();
    let (provided, stored) = sample_transmissions(&certificate);
    storage.insert_certificate(certificate.clone(), provided, &window()).unwrap();
    assert_eq!(storage.gc_round(), 0);
    assert!(storage.contains_certificate(100));

    // Round 2: the garbage-collection round becomes 1 and round 0 is collected.
    storage.increment_committee_to_next_round().unwrap();
    assert_eq!(storage.current_round(), 2);
    assert_eq!(storage.gc_round(), 1);
    assert_storage(
        &storage,
        vec![(1, sample_committee(1)), (2, sample_committee(2))],
        vec![(1, descriptors(&[(100, 200, 1)]))],
        vec![(100, certificate)],
        vec![(200, 1)],
        stored,
    );

    // Round 3: the garbage-collection round becomes 2 and round 1 is collected.
    storage.increment_committee_to_next_round().unwrap();
    assert_eq!(storage.current_round(), 3);
    assert_eq!(storage.gc_round(), 2);
    assert!(!storage.contains_certificate(100));
    assert_eq!(storage.get_committee(1), None);
    assert_storage(
        &storage,
        vec![(2, sample_committee(2)), (3, sample_committee(3))],
        vec![],
        vec![],
        vec![],
        HashMap::new(),
    );
}

#[test]
fn advance_collects_every_certificate_of_a_round() {
    let mut storage = Storage::new(sample_committee(1), 1);
    for author in 1..=4u64 {
        let certificate = sample_certificate(100 + author, 200 + author, author, 1, vec![7, author + 20], vec![]);
        let mut provided = HashMap::new();
        provided.insert(7, sample_transmission(7));
        provided.insert(author + 20, sample_transmission(author as u8));
        storage.insert_certificate(certificate, provided, &window()).unwrap();
    }
    storage.increment_committee_to_next_round().unwrap();
    let kept = sample_certificate(300, 400, 1, 2, vec![7], vec![101, 102, 103]);
    storage.insert_certificate(kept.clone(), HashMap::new(), &window()).unwrap();
    storage.increment_committee_to_next_round().unwrap();

    assert_eq!(storage.gc_round(), 2);
    assert_eq!(storage.certificates_iter(), vec![(300, kept)]);
    assert_eq!(storage.rounds_iter(), vec![(2, descriptors(&[(300, 400, 1)]))]);
    assert_eq!(storage.batch_ids_iter(), vec![(400, 2)]);
    assert_eq!(storage.transmissions_iter(), vec![(7, (sample_transmission(7), vec![300]))]);
}

#[test]
fn retention_depth_zero_keeps_the_current_committee() {
    let mut storage = Storage::new(sample_committee(1), 0);
    storage.increment_committee_to_next_round().unwrap();
    assert_eq!(storage.current_round(), 2);
    assert_eq!(storage.gc_round(), 2);
    assert_eq!(storage.committees_iter(), vec![(2, sample_committee(2))]);
    assert_eq!(storage.current_committee(), sample_committee(2));
}

#[test]
fn watermarks_never_go_back() {
    let mut storage = Storage::new(sample_committee(5), 2);
    let mut current = storage.current_round();
    let mut gc = storage.gc_round();
    for _ in 0..6 {
        storage.increment_committee_to_next_round().unwrap();
        assert_eq!(storage.current_round(), current + 1);
        assert!(storage.gc_round() >= gc);
        assert!(storage.gc_round() <= storage.current_round() - 1);
        assert_eq!(storage.gc_round(), storage.current_round() - 2);
        current = storage.current_round();
        gc = storage.gc_round();
    }
    assert_eq!(storage.committees_iter().iter().map(|e| e.0).collect::<Vec<_>>(), vec![9, 10, 11]);
}

#[test]
fn advance_fails_when_the_next_round_holds_certificates() {
    // No admitted certificate can be of a round ahead of the current one,
    // so the certificate is written directly.
    let mut storage = Storage::new(sample_committee(1), 1);
    storage.insert_certificate_atomic(sample_certificate(100, 200, 1, 2, vec![], vec![]), HashMap::new());
    assert_eq!(
        storage.increment_committee_to_next_round(),
        Err(rejection(Rejection::NextRoundNotEmpty, 2, 0))
    );
    assert_eq!(storage.current_round(), 1);
    assert_eq!(storage.committees_iter(), vec![(1, sample_committee(1))]);
}

#[test]
fn previous_round_of_round_zero_is_round_zero() {
    assert_eq!(previous_round(0), 0);
    assert_eq!(previous_round(1), 0);
    assert_eq!(previous_round(2), 1);
    assert_eq!(previous_round(u64::MAX), u64::MAX - 1);
}

#[test]
fn header_of_round_zero_has_no_committee() {
    let storage = Storage::new(sample_committee(1), 1);
    let header = BatchHeader::new(200, 1, 0, NOW, vec![], vec![]).unwrap();
    assert_eq!(
        storage.check_batch_header(&header, HashMap::new(), &window()),
        Err(rejection(Rejection::MissingCommittee, 0, 0))
    );
}
