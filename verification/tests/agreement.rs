use narwhal_storage::committee::Committee;
use narwhal_storage::liveness::LivenessWindow;
use narwhal_storage::storage::Storage;
use narwhal_storage::types::{BatchCertificate, BatchHeader, Transmission, TransmissionKind};
use std::collections::{HashMap, HashSet};

fn open_window() -> LivenessWindow {
    LivenessWindow { earliest: i64::MIN, latest: i64::MAX }
}

fn payload(id: u64) -> Transmission {
    Transmission { kind: TransmissionKind::Transaction, payload: id.to_le_bytes().to_vec() }
}

fn certificate(id: u64, author: u64, round: u64, transmissions: &[u64], previous: &[u64]) -> BatchCertificate {
    let header = BatchHeader::new(id + 1000, author, round, 0, transmissions.to_vec(), previous.to_vec()).unwrap();
    BatchCertificate::new(id, header, (1..=4u64).filter(|a| *a != author).map(|a| (a, 0)).collect())
}

fn insert(storage: &mut Storage, certificate: BatchCertificate) {
    let provided = certificate.transmission_ids().iter().map(|id| (*id, payload(*id))).collect::<HashMap<_, _>>();
    storage.insert_certificate(certificate, provided, &open_window()).unwrap();
}

/// A store in round 4 with retention depth 2: round 1 is collected, rounds
/// 2 and 3 hold certificates that share transmissions, one certificate of
/// round 3 has been removed again.
fn busy_storage() -> Storage {
    let committee = Committee::new(1, vec![(1, 1), (2, 1), (3, 1), (4, 1)]).unwrap();
    let mut storage = Storage::new(committee, 2);
    for author in 1..=4u64 {
        insert(&mut storage, certificate(10 + author, author, 1, &[author, 50], &[]));
    }
    storage.increment_committee_to_next_round().unwrap();
    for author in 1..=3u64 {
        insert(&mut storage, certificate(20 + author, author, 2, &[50, 60 + author], &[11, 12, 13]));
    }
    storage.increment_committee_to_next_round().unwrap();
    for author in 2..=4u64 {
        insert(&mut storage, certificate(30 + author, author, 3, &[60 + author, 70], &[21, 22, 23]));
    }
    assert!(storage.remove_certificate(33));
    storage.increment_committee_to_next_round().unwrap();
    assert_eq!(storage.current_round(), 4);
    assert_eq!(storage.gc_round(), 2);
    storage
}

#[test]
fn every_descriptor_names_a_stored_certificate() {
    let storage = busy_storage();
    let rounds = storage.rounds_iter();
    assert_eq!(rounds.iter().map(|e| e.0).collect::<Vec<_>>(), vec![2, 3]);
    for (round, descriptors) in rounds {
        assert!(!descriptors.is_empty());
        for (certificate_id, batch_id, author) in descriptors {
            let certificate = storage.get_certificate(certificate_id).unwrap();
            assert_eq!(certificate.certificate_id(), certificate_id);
            assert_eq!(certificate.round(), round);
            assert_eq!(certificate.batch_id(), batch_id);
            assert_eq!(certificate.author(), author);
        }
    }
}

#[test]
fn every_certificate_is_listed_exactly_once() {
    let storage = busy_storage();
    let certificates = storage.certificates_iter();
    assert_eq!(certificates.iter().map(|e| e.0).collect::<Vec<_>>(), vec![21, 22, 23, 32, 34]);
    for (certificate_id, certificate) in certificates {
        let listings = storage
            .rounds_iter()
            .into_iter()
            .flat_map(|(round, descriptors)| descriptors.into_iter().map(move |d| (round, d)))
            .filter(|(_, d)| d.0 == certificate_id)
            .collect::<Vec<_>>();
        assert_eq!(
            listings,
            vec![(certificate.round(), (certificate_id, certificate.batch_id(), certificate.author()))]
        );
    }
}

#[test]
fn every_batch_belongs_to_a_stored_certificate() {
    let storage = busy_storage();
    let batches = storage.batch_ids_iter();
    assert_eq!(batches, vec![(1021, 2), (1022, 2), (1023, 2), (1032, 3), (1034, 3)]);
    for (batch_id, round) in batches {
        let owners = storage
            .certificates_iter()
            .into_iter()
            .filter(|(_, c)| c.batch_id() == batch_id)
            .map(|(_, c)| c.round())
            .collect::<Vec<_>>();
        assert_eq!(owners, vec![round]);
        assert_eq!(storage.get_round_for_batch(batch_id), Some(round));
    }
}

#[test]
fn every_transmission_knows_its_certificates() {
    let storage = busy_storage();
    let transmissions = storage.transmissions_iter();
    assert_eq!(transmissions.iter().map(|e| e.0).collect::<Vec<_>>(), vec![50, 61, 62, 63, 70, 64]);
    for (transmission_id, (transmission, certificate_ids)) in transmissions {
        assert_eq!(transmission, payload(transmission_id));
        let listing = storage
            .certificates_iter()
            .into_iter()
            .filter(|(_, c)| c.transmission_ids().contains(&transmission_id))
            .map(|(id, _)| id)
            .collect::<HashSet<_>>();
        assert!(!listing.is_empty());
        assert_eq!(certificate_ids.into_iter().collect::<HashSet<_>>(), listing);
    }
    // And every transmission that a stored certificate lists is stored.
    for (_, certificate) in storage.certificates_iter() {
        for transmission_id in certificate.transmission_ids() {
            assert!(storage.contains_transmission(*transmission_id));
        }
    }
}

#[test]
fn no_round_below_the_gc_round_holds_data() {
    let storage = busy_storage();
    let gc_round = storage.gc_round();
    assert!(storage.rounds_iter().iter().all(|(round, _)| *round >= gc_round && *round >= 1));
    assert!(storage.certificates_iter().iter().all(|(_, c)| c.round() >= gc_round));
    assert!(storage.batch_ids_iter().iter().all(|(_, round)| *round >= gc_round));
    assert_eq!(storage.committees_iter().iter().map(|e| e.0).collect::<Vec<_>>(), vec![2, 3, 4]);
    for round in 0..gc_round {
        assert!(!storage.contains_certificates_for_round(round));
        assert!(storage.get_certificates_for_round(round).is_empty());
        assert_eq!(storage.get_committee(round), None);
    }
    for collected in 11..=14u64 {
        assert!(!storage.contains_certificate(collected));
        assert!(!storage.contains_batch(collected + 1000));
    }
    for transmission_id in 1..=4u64 {
        assert!(!storage.contains_transmission(transmission_id));
    }
}

#[test]
fn no_author_has_two_certificates_in_a_round() {
    let storage = busy_storage();
    let mut seen = HashSet::new();
    for (_, certificate) in storage.certificates_iter() {
        assert!(seen.insert((certificate.round(), certificate.author())));
        assert!(storage.contains_certificate_in_round_from(certificate.round(), certificate.author()));
    }
    assert!(!storage.contains_certificate_in_round_from(3, 3));
    assert!(!storage.contains_certificate_in_round_from(2, 4));
}
