use narwhal_storage::committee::Committee;
use narwhal_storage::error::Rejection;
use narwhal_storage::liveness::{check_timestamp_for_liveness, LivenessWindow};
use narwhal_storage::types::{has_duplicates, BatchCertificate, BatchHeader, Transmission, TransmissionKind};
use std::collections::HashSet;

fn authors(addresses: &[u64]) -> HashSet<u64> {
    addresses.iter().copied().collect()
}

#[test]
fn committee_of_round_zero_is_refused() {
    assert!(Committee::new(0, vec![(1, 1)]).is_none());
    assert!(Committee::new(1, vec![(1, 1)]).is_some());
}

#[test]
fn committee_with_repeated_address_is_refused() {
    assert!(Committee::new(1, vec![(1, 1), (2, 1), (1, 5)]).is_none());
    assert!(Committee::new(1, vec![(1, 1), (2, 1), (3, 1)]).is_some());
}

#[test]
fn committee_with_overflowing_stake_is_refused() {
    assert!(Committee::new(1, vec![(1, u64::MAX), (2, 1)]).is_none());
    let committee = Committee::new(1, vec![(1, u64::MAX - 1), (2, 1)]).unwrap();
    assert_eq!(committee.total_stake(), u64::MAX);
}

#[test]
fn committee_members_and_stake() {
    let committee = Committee::new(3, vec![(10, 5), (20, 7), (30, 0)]).unwrap();
    assert_eq!(committee.round(), 3);
    assert_eq!(committee.num_members(), 3);
    assert!(committee.is_committee_member(10));
    assert!(committee.is_committee_member(30));
    assert!(!committee.is_committee_member(40));
    assert_eq!(committee.total_stake(), 12);
}

#[test]
fn quorum_threshold_values() {
    let threshold = |stakes: Vec<u64>| {
        let members = stakes.into_iter().enumerate().map(|(i, s)| (i as u64, s)).collect();
        Committee::new(1, members).unwrap().quorum_threshold()
    };
    assert_eq!(threshold(vec![]), 1);
    assert_eq!(threshold(vec![1]), 1);
    assert_eq!(threshold(vec![1, 1]), 2);
    assert_eq!(threshold(vec![1, 1, 1]), 3);
    assert_eq!(threshold(vec![1, 1, 1, 1]), 3);
    assert_eq!(threshold(vec![1, 1, 1, 1, 1]), 4);
    assert_eq!(threshold(vec![1, 1, 1, 1, 1, 1]), 5);
    assert_eq!(threshold(vec![1, 1, 1, 1, 1, 1, 1]), 5);
    assert_eq!(threshold(vec![100]), 67);
    assert_eq!(threshold(vec![u64::MAX]), 12297829382473034411);
}

#[test]
fn quorum_counts_the_stake_of_members_only() {
    let committee = Committee::new(1, vec![(1, 1), (2, 1), (3, 1), (4, 1)]).unwrap();
    assert!(!committee.is_quorum_threshold_reached(&authors(&[])));
    assert!(!committee.is_quorum_threshold_reached(&authors(&[1, 2])));
    assert!(committee.is_quorum_threshold_reached(&authors(&[1, 2, 3])));
    assert!(committee.is_quorum_threshold_reached(&authors(&[1, 2, 3, 4])));
    // Addresses that are not members carry no stake.
    assert!(!committee.is_quorum_threshold_reached(&authors(&[1, 2, 7, 8, 9])));
}

#[test]
fn quorum_weighs_by_stake() {
    let committee = Committee::new(1, vec![(1, 10), (2, 1), (3, 1), (4, 1)]).unwrap();
    assert_eq!(committee.total_stake(), 13);
    assert_eq!(committee.quorum_threshold(), 9);
    assert!(committee.is_quorum_threshold_reached(&authors(&[1])));
    assert!(!committee.is_quorum_threshold_reached(&authors(&[2, 3, 4])));
}

#[test]
fn next_round_keeps_the_members() {
    let committee = Committee::new(4, vec![(1, 3), (2, 4)]).unwrap();
    let next = committee.to_next_round();
    assert_eq!(next, Committee::new(5, vec![(1, 3), (2, 4)]).unwrap());
    assert_eq!(committee.clone(), committee);
}

#[test]
fn liveness_window_bounds_are_included() {
    let window = LivenessWindow { earliest: -5, latest: 5 };
    assert!(window.is_live(-5));
    assert!(window.is_live(0));
    assert!(window.is_live(5));
    assert!(!window.is_live(-6));
    assert!(!window.is_live(6));
    assert!(check_timestamp_for_liveness(5, &window));
    assert!(!check_timestamp_for_liveness(i64::MAX, &window));
    assert!(!check_timestamp_for_liveness(i64::MIN, &window));
    let empty = LivenessWindow { earliest: 1, latest: 0 };
    assert!(!empty.is_live(0));
    assert!(!empty.is_live(1));
}

#[test]
fn duplicates_are_found() {
    assert!(!has_duplicates(&vec![]));
    assert!(!has_duplicates(&vec![1]));
    assert!(!has_duplicates(&vec![1, 2, 3]));
    assert!(has_duplicates(&vec![1, 2, 1]));
    assert!(has_duplicates(&vec![3, 3]));
}

#[test]
fn header_and_certificate_accessors() {
    let header = BatchHeader::new(20, 3, 9, 1234, vec![7, 8], vec![5, 6]).unwrap();
    assert_eq!(header.batch_id(), 20);
    assert_eq!(header.author(), 3);
    assert_eq!(header.round(), 9);
    assert_eq!(header.timestamp(), 1234);
    assert_eq!(header.transmission_ids(), &vec![7, 8]);
    assert_eq!(header.previous_certificate_ids(), &vec![5, 6]);
    assert_eq!(header.clone(), header);

    let certificate = BatchCertificate::new(10, header.clone(), vec![(1, 1235), (2, 1236)]);
    assert_eq!(certificate.certificate_id(), 10);
    assert_eq!(certificate.batch_header(), &header);
    assert_eq!(certificate.batch_id(), 20);
    assert_eq!(certificate.author(), 3);
    assert_eq!(certificate.round(), 9);
    assert_eq!(certificate.transmission_ids(), &vec![7, 8]);
    assert_eq!(certificate.previous_certificate_ids(), &vec![5, 6]);
    assert_eq!(certificate.signatures(), &vec![(1, 1235), (2, 1236)]);
    assert_eq!(certificate.timestamps(), vec![1234, 1235, 1236]);
    assert_eq!(certificate.clone(), certificate);
}

#[test]
fn transmission_clone_is_equal() {
    let transmission = Transmission { kind: TransmissionKind::Transaction, payload: vec![1, 2, 3] };
    assert_eq!(transmission.clone(), transmission);
    let other = Transmission { kind: TransmissionKind::Solution, payload: vec![1, 2, 3] };
    assert_ne!(other, transmission);
}

#[test]
fn rejections_read_as_text() {
    assert_eq!(
        Rejection::AuthorAlreadyCertified.text(),
        "certificate with this author for the round already exists in storage"
    );
    assert_eq!(Rejection::PreviousQuorumNotReached.text(), "previous certificates did not reach quorum threshold");
    assert_eq!(Rejection::RoundNotAboveGc.text(), "certificate round is at or below the GC round");
    assert_eq!(Rejection::NextRoundNotEmpty.text(), "certificates for the next round cannot exist yet");
    let all = [
        Rejection::BatchExists,
        Rejection::MissingCommittee,
        Rejection::AuthorNotInCommittee,
        Rejection::TimestampNotLive,
        Rejection::MissingTransmission,
        Rejection::MissingPreviousCommittee,
        Rejection::MissingPreviousRound,
        Rejection::TooManyPreviousCertificates,
        Rejection::MissingPreviousCertificate,
        Rejection::PreviousCertificateWrongRound,
        Rejection::DuplicatePreviousAuthor,
        Rejection::PreviousQuorumNotReached,
        Rejection::CertificateExists,
        Rejection::AuthorAlreadyCertified,
        Rejection::SignerTimestampNotLive,
        Rejection::SignerNotInCommittee,
        Rejection::SignerQuorumNotReached,
        Rejection::RoundNotAboveGc,
        Rejection::NextRoundNotEmpty,
    ];
    for (i, a) in all.iter().enumerate() {
        for b in all.iter().skip(i + 1) {
            assert_ne!(a.text(), b.text());
        }
    }
}
