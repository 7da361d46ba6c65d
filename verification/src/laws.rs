//! What holds of every well-formed store, and how the operations relate to
//! one another.
use vstd::prelude::*;
use crate::liveness::LivenessWindow;
use crate::model::{attach, attach_one, delist, detach, detach_one, StorageView};
use crate::ordered::{
    has_key, keys_distinct, lemma_del, lemma_filter_all, lemma_push, lemma_put, lemma_put_del_commute,
    lemma_put_put_commute, lemma_put_restore, lemma_with_item, lookup, put, value_at, with_item,
    without_item,
};
use crate::preservation::{
    lemma_advanced_wf, lemma_attach, lemma_detach, lemma_unknown_certificate,
    lemma_with_certificate_maps, lemma_with_certificate_wf, lemma_with_stored_certificate,
};
use crate::types::{BatchCertificateView, TransmissionView};

verus! {

// ---------------------------------------------------------------------
// The indices agree.
// ---------------------------------------------------------------------
/// Every descriptor that a round lists is that of a stored certificate:
/// the certificate of that id is stored, is of that round, and has the
/// batch id and the author that the descriptor gives.
pub proof fn lemma_descriptor_names_certificate(s: StorageView, round: u64, i: int)
    requires
        s.wf(),
        s.has_round(round),
        0 <= i < s.round_map()[round].len(),
    ensures
        s.has_certificate(s.round_map()[round][i].0),
        s.certificate_map()[s.round_map()[round][i].0].certificate_id == s.round_map()[round][i].0,
        s.certificate_map()[s.round_map()[round][i].0].round() == round,
        s.certificate_map()[s.round_map()[round][i].0].batch_id() == s.round_map()[round][i].1,
        s.certificate_map()[s.round_map()[round][i].0].author() == s.round_map()[round][i].2,
{
    assert(s.round_ok(round));
    assert(s.descriptor_ok(round, s.round_map()[round][i]));
}

/// The certificates of a round are those of the round's descriptors, one
/// for each descriptor and in the same order.
pub proof fn lemma_round_certificates(s: StorageView, round: u64)
    requires
        s.wf(),
        s.has_round(round),
    ensures
        s.certificates_for_round(round).len() == s.round_map()[round].len(),
        forall|i: int|
            0 <= i < s.round_map()[round].len() ==> #[trigger] s.certificates_for_round(round)[i]
                == s.certificate_map()[s.round_map()[round][i].0],
{
    let listed = s.round_map()[round];
    assert(s.round_ok(round));
    assert(s.committee_ok(round));
    assert forall|i: int| 0 <= i < listed.len() implies s.has_certificate(
        (#[trigger] listed[i]).0,
    ) by {
        assert(s.descriptor_ok(round, listed[i]));
    }
    lemma_filter_all(listed, |d: (u64, u64, u64)| s.has_certificate(d.0));
}

/// Every stored certificate is listed by the round index exactly once:
/// under its own round, at one position, and nowhere else.
pub proof fn lemma_certificate_listed_once(s: StorageView, cid: u64)
    requires
        s.wf(),
        s.has_certificate(cid),
    ensures
        s.has_round(s.certificate_map()[cid].round()),
        s.round_map()[s.certificate_map()[cid].round()].contains(
            s.certificate_map()[cid].descriptor(),
        ),
        forall|round: u64, i: int|
            s.has_round(round) && 0 <= i < s.round_map()[round].len() && (
            #[trigger] s.round_map()[round][i]).0 == cid ==> round
                == s.certificate_map()[cid].round() && i
                == s.round_map()[round].index_of(s.certificate_map()[cid].descriptor()),
{
    let c = s.certificate_map()[cid];
    assert(s.certificate_ok(cid));
    assert forall|round: u64, i: int|
        s.has_round(round) && 0 <= i < s.round_map()[round].len() && (
        #[trigger] s.round_map()[round][i]).0 == cid implies round == c.round() && i
        == s.round_map()[round].index_of(c.descriptor()) by {
        let listed = s.round_map()[round];
        assert(s.round_ok(round));
        assert(s.descriptor_ok(round, listed[i]));
        let p = listed.index_of(c.descriptor());
        assert(listed[p] == listed[i]);
    }
}

/// Every batch id of the batch index is that of a stored certificate, of
/// the round that the index gives.
pub proof fn lemma_batch_has_certificate(s: StorageView, bid: u64)
    requires
        s.wf(),
        s.has_batch(bid),
    ensures
        exists|cid: u64| #[trigger]
            s.certifies(cid, bid) && s.certificate_map()[cid].round() == s.batch_map()[bid],
{
    assert(s.batch_ok(bid));
    let owner = choose|cid: u64| #[trigger] s.certifies(cid, bid);
    assert(s.certificate_ok(owner));
    assert(s.certifies(owner, bid) && s.certificate_map()[owner].round() == s.batch_map()[bid]);
}

/// The certificate ids that the transmission index keeps for a
/// transmission are the ids of the stored certificates that list it, and
/// there is one at least.
pub proof fn lemma_transmission_references(s: StorageView, tid: u64)
    requires
        s.wf(),
        s.has_transmission(tid),
    ensures
        s.transmission_map()[tid].1.len() > 0,
        forall|cid: u64| #[trigger]
            s.transmission_map()[tid].1.contains(cid) <==> s.references(cid, tid),
{
    let cids = s.transmission_map()[tid].1;
    assert(s.transmission_ok(tid));
    assert forall|cid: u64| #[trigger] cids.contains(cid) <==> s.references(cid, tid) by {
        if cids.contains(cid) {
            let i = cids.index_of(cid);
            assert(s.references(cids[i], tid));
        }
        if s.references(cid, tid) {
            assert(s.certificate_ok(cid));
            let tids = s.certificate_map()[cid].transmission_ids();
            let i = tids.index_of(tid);
            assert(tids[i] == tid);
        }
    }
}

/// A transmission is stored exactly if some stored certificate lists it.
pub proof fn lemma_transmission_stored_iff_referenced(s: StorageView, tid: u64)
    requires
        s.wf(),
    ensures
        s.has_transmission(tid) <==> exists|cid: u64| s.references(cid, tid),
{
    if s.has_transmission(tid) {
        assert(s.transmission_ok(tid));
        assert(s.references(s.transmission_map()[tid].1[0], tid));
    }
    if exists|cid: u64| s.references(cid, tid) {
        let cid = choose|cid: u64| s.references(cid, tid);
        assert(s.certificate_ok(cid));
        let tids = s.certificate_map()[cid].transmission_ids();
        let i = tids.index_of(tid);
        assert(tids[i] == tid);
    }
}

/// No round of a data index lies below the garbage-collection round, and
/// none is round 0: this holds of the rounds of the round index, of the
/// stored certificates and of the batch index. The committees are of
/// rounds from the garbage-collection round to the current round.
pub proof fn lemma_rounds_are_retained(s: StorageView)
    requires
        s.wf(),
    ensures
        forall|round: u64| #[trigger] s.has_round(round) ==> s.gc_round <= round && 1 <= round,
        forall|cid: u64| #[trigger]
            s.has_certificate(cid) ==> s.gc_round <= s.certificate_map()[cid].round() && 1
                <= s.certificate_map()[cid].round(),
        forall|bid: u64| #[trigger]
            s.has_batch(bid) ==> s.gc_round <= s.batch_map()[bid] && 1 <= s.batch_map()[bid],
        forall|round: u64| #[trigger]
            s.has_committee(round) ==> s.gc_round <= round <= s.current_round,
{
    assert forall|round: u64| #[trigger] s.has_round(round) implies s.gc_round <= round && 1
        <= round by {
        assert(s.round_ok(round));
        assert(s.committee_ok(round));
    }
    assert forall|cid: u64| #[trigger] s.has_certificate(cid) implies s.gc_round
        <= s.certificate_map()[cid].round() && 1 <= s.certificate_map()[cid].round() by {
        assert(s.certificate_ok(cid));
        assert(s.has_round(s.certificate_map()[cid].round()));
    }
    assert forall|bid: u64| #[trigger] s.has_batch(bid) implies s.gc_round <= s.batch_map()[bid]
        && 1 <= s.batch_map()[bid] by {
        lemma_batch_has_certificate(s, bid);
        let cid = choose|cid: u64| #[trigger]
            s.certifies(cid, bid) && s.certificate_map()[cid].round() == s.batch_map()[bid];
        assert(s.has_certificate(cid));
    }
    assert forall|round: u64| #[trigger] s.has_committee(round) implies s.gc_round <= round
        <= s.current_round by {
        assert(s.committee_ok(round));
    }
}

/// A round of the round index is above the garbage-collection round,
/// unless it is that very round: collection stops short of the round that
/// it names.
pub proof fn lemma_round_above_gc(s: StorageView, round: u64)
    requires
        s.wf(),
        s.has_round(round),
        round != s.gc_round,
    ensures
        round > s.gc_round,
{
    lemma_rounds_are_retained(s);
}

/// Two stored certificates of the same round and the same author are the
/// same certificate.
pub proof fn lemma_one_certificate_per_author(s: StorageView, cid1: u64, cid2: u64)
    requires
        s.wf(),
        s.has_certificate(cid1),
        s.has_certificate(cid2),
        s.certificate_map()[cid1].round() == s.certificate_map()[cid2].round(),
        s.certificate_map()[cid1].author() == s.certificate_map()[cid2].author(),
    ensures
        cid1 == cid2,
{
    let c1 = s.certificate_map()[cid1];
    let c2 = s.certificate_map()[cid2];
    assert(s.certificate_ok(cid1));
    assert(s.certificate_ok(cid2));
    let listed = s.round_map()[c1.round()];
    assert(s.round_ok(c1.round()));
    let i = listed.index_of(c1.descriptor());
    let j = listed.index_of(c2.descriptor());
    assert(listed[i] == c1.descriptor());
    assert(listed[j] == c2.descriptor());
    if i < j {
        assert(listed[i].2 != listed[j].2);
    } else if j < i {
        assert(listed[j].2 != listed[i].2);
    }
}

// ---------------------------------------------------------------------
// Insertion and removal.
// ---------------------------------------------------------------------
proof fn lemma_attach_one_undone(
    ts: Seq<(u64, (TransmissionView, Seq<u64>))>,
    tid: u64,
    cid: u64,
    missing: Map<u64, TransmissionView>,
)
    requires
        keys_distinct(ts),
        has_key(ts, tid) ==> value_at(ts, tid).1.no_duplicates() && value_at(ts, tid).1.len() > 0
            && !value_at(ts, tid).1.contains(cid),
    ensures
        detach_one(attach_one(ts, tid, cid, missing), tid, cid) == ts,
{
    if has_key(ts, tid) {
        let entry = value_at(ts, tid);
        let grown = (entry.0, with_item(entry.1, cid));
        lemma_with_item(entry.1, cid);
        lemma_put(ts, tid, grown);
        assert(lookup(put(ts, tid, grown), tid) == Some(grown));
        lemma_put_restore(ts, tid, grown);
    } else {
        let first = (missing[tid], seq![cid]);
        lemma_put(ts, tid, first);
        assert(lookup(put(ts, tid, first), tid) == Some(first));
        assert(seq![cid].contains(cid)) by {
            assert(seq![cid][0] == cid);
        }
        assert(seq![cid].index_of(cid) == 0);
        assert(without_item(seq![cid], cid) =~= Seq::<u64>::empty());
        lemma_push(ts, tid, first);
    }
}

proof fn lemma_detach_one_attach_one_commute(
    ts: Seq<(u64, (TransmissionView, Seq<u64>))>,
    t1: u64,
    t2: u64,
    cid: u64,
    missing: Map<u64, TransmissionView>,
)
    requires
        keys_distinct(ts),
        t1 != t2,
    ensures
        detach_one(attach_one(ts, t2, cid, missing), t1, cid) == attach_one(
            detach_one(ts, t1, cid),
            t2,
            cid,
            missing,
        ),
{
    let v2 = match lookup(ts, t2) {
        Some(entry) => (entry.0, with_item(entry.1, cid)),
        None => (missing[t2], seq![cid]),
    };
    assert(attach_one(ts, t2, cid, missing) == put(ts, t2, v2));
    lemma_put(ts, t2, v2);
    match lookup(ts, t1) {
        None => {},
        Some(entry) => {
            let rest = without_item(entry.1, cid);
            if rest.len() == 0 {
                lemma_del(ts, t1);
                lemma_put_del_commute(ts, t2, v2, t1);
            } else {
                lemma_put(ts, t1, (entry.0, rest));
                lemma_put_put_commute(ts, t1, (entry.0, rest), t2, v2);
            }
        },
    }
}

proof fn lemma_detach_attach_one_commute(
    ts: Seq<(u64, (TransmissionView, Seq<u64>))>,
    tids: Seq<u64>,
    t2: u64,
    cid: u64,
    missing: Map<u64, TransmissionView>,
)
    requires
        keys_distinct(ts),
        tids.no_duplicates(),
        !tids.contains(t2),
    ensures
        detach(attach_one(ts, t2, cid, missing), tids, cid) == attach_one(
            detach(ts, tids, cid),
            t2,
            cid,
            missing,
        ),
    decreases tids.len(),
{
    if tids.len() > 0 {
        let init = tids.drop_last();
        let last = tids.last();
        assert(tids[tids.len() - 1] == last);
        assert forall|i: int, j: int|
            0 <= i < init.len() && 0 <= j < init.len() && i != j implies init[i] != init[j] by {
            assert(init[i] == tids[i] && init[j] == tids[j]);
        }
        if init.contains(t2) {
            let i = init.index_of(t2);
            assert(tids[i] == t2);
        }
        lemma_detach_attach_one_commute(ts, init, t2, cid, missing);
        lemma_detach(ts, init, cid);
        lemma_detach_one_attach_one_commute(detach(ts, init, cid), last, t2, cid, missing);
    }
}

/// Ending the references that were just made restores the transmission
/// index, entry by entry and in order.
proof fn lemma_attach_undone(
    ts: Seq<(u64, (TransmissionView, Seq<u64>))>,
    tids: Seq<u64>,
    cid: u64,
    missing: Map<u64, TransmissionView>,
)
    requires
        keys_distinct(ts),
        tids.no_duplicates(),
        forall|tid: u64| #[trigger]
            has_key(ts, tid) ==> value_at(ts, tid).1.no_duplicates() && value_at(ts, tid).1.len()
                > 0 && !value_at(ts, tid).1.contains(cid),
    ensures
        detach(attach(ts, tids, cid, missing), tids, cid) == ts,
    decreases tids.len(),
{
    if tids.len() > 0 {
        let init = tids.drop_last();
        let last = tids.last();
        assert forall|i: int, j: int|
            0 <= i < init.len() && 0 <= j < init.len() && i != j implies init[i] != init[j] by {
            assert(init[i] == tids[i] && init[j] == tids[j]);
        }
        if init.contains(last) {
            let i = init.index_of(last);
            assert(tids[i] == tids[tids.len() - 1]);
        }
        let grown = attach(ts, init, cid, missing);
        lemma_attach(ts, init, cid, missing);
        lemma_detach_attach_one_commute(grown, init, last, cid, missing);
        lemma_attach_undone(ts, init, cid, missing);
        assert(has_key(ts, last) ==> value_at(ts, last).1.no_duplicates());
        lemma_attach_one_undone(ts, last, cid, missing);
    }
}

/// Insert and remove: a certificate that is new, with a new batch id, can
/// be written and removed again, and the store is then what it was, in
/// every index and in the order of every index.
pub proof fn lemma_insert_then_remove(
    s: StorageView,
    c: BatchCertificateView,
    missing: Map<u64, TransmissionView>,
)
    requires
        s.wf(),
        c.wf(),
        !s.has_certificate(c.certificate_id),
        !s.has_batch(c.batch_id()),
    ensures
        s.with_certificate(c, missing).without_certificate(c.certificate_id) == s,
{
    let cid = c.certificate_id;
    let round = c.round();
    let d = c.descriptor();
    let t = s.with_certificate(c, missing);
    lemma_with_certificate_maps(s, c, missing);
    lemma_unknown_certificate(s, cid);
    assert(t.has_certificate(cid) && t.certificate_map()[cid] == c);
    // The round index.
    if s.has_round(round) {
        let listed = s.round_map()[round];
        assert(s.round_ok(round));
        if listed.contains(d) {
            let i = listed.index_of(d);
            assert(listed[i].0 == cid);
        }
        lemma_with_item(listed, d);
        assert(has_key(s.rounds, round));
        lemma_put(s.rounds, round, with_item(listed, d));
        assert(lookup(t.rounds, round) == Some(with_item(listed, d)));
        lemma_put_restore(s.rounds, round, with_item(listed, d));
    } else {
        assert(!has_key(s.rounds, round));
        lemma_put(s.rounds, round, seq![d]);
        assert(lookup(t.rounds, round) == Some(seq![d]));
        assert(seq![d].contains(d)) by {
            assert(seq![d][0] == d);
        }
        assert(seq![d].index_of(d) == 0);
        assert(without_item(seq![d], d) =~= Seq::<(u64, u64, u64)>::empty());
        lemma_push(s.rounds, round, seq![d]);
    }
    assert(delist(t.rounds, round, d) == s.rounds);
    // The certificate index and the batch index.
    assert(!has_key(s.certificates, cid));
    lemma_push(s.certificates, cid, c);
    lemma_put(s.certificates, cid, c);
    assert(!has_key(s.batch_ids, c.batch_id()));
    lemma_push(s.batch_ids, c.batch_id(), round);
    lemma_put(s.batch_ids, c.batch_id(), round);
    // The transmission index.
    assert forall|tid: u64| #[trigger] has_key(s.transmissions, tid) implies value_at(
        s.transmissions,
        tid,
    ).1.no_duplicates() && value_at(s.transmissions, tid).1.len() > 0 && !value_at(
        s.transmissions,
        tid,
    ).1.contains(cid) by {
        assert(s.has_transmission(tid));
        assert(s.transmission_ok(tid));
    }
    lemma_attach_undone(s.transmissions, c.transmission_ids(), cid, missing);
}

/// An inserted certificate can be removed again, and the store is then
/// what it was before the insertion.
pub proof fn lemma_admitted_then_removed(
    s: StorageView,
    c: BatchCertificateView,
    window: LivenessWindow,
    transmissions: Map<u64, TransmissionView>,
)
    requires
        s.wf(),
        c.wf(),
        s.insertion_rejection(c, window, transmissions.dom()) is None,
    ensures
        s.with_certificate(c, transmissions).without_certificate(c.certificate_id) == s,
{
    lemma_insert_then_remove(s, c, transmissions);
}

/// Insertion is idempotent: writing a certificate a second time, with
/// whatever transmissions, leaves every index as the first write left it.
pub proof fn lemma_insert_twice(
    s: StorageView,
    c: BatchCertificateView,
    first: Map<u64, TransmissionView>,
    second: Map<u64, TransmissionView>,
)
    requires
        s.wf(),
        c.wf(),
        s.admits(c, first.dom()),
    ensures
        s.with_certificate(c, first).with_certificate(c, second) == s.with_certificate(c, first),
{
    let t = s.with_certificate(c, first);
    lemma_with_certificate_wf(s, c, first);
    if s.has_certificate(c.certificate_id) {
        lemma_with_stored_certificate(s, c, first);
    } else {
        lemma_with_certificate_maps(s, c, first);
    }
    lemma_with_stored_certificate(t, c, second);
}

/// Neither writing nor removing a certificate moves the watermarks.
pub proof fn lemma_certificates_keep_watermarks(
    s: StorageView,
    c: BatchCertificateView,
    missing: Map<u64, TransmissionView>,
    cid: u64,
)
    ensures
        s.with_certificate(c, missing).current_round == s.current_round,
        s.with_certificate(c, missing).gc_round == s.gc_round,
        s.without_certificate(cid).current_round == s.current_round,
        s.without_certificate(cid).gc_round == s.gc_round,
{
}

// ---------------------------------------------------------------------
// Advancing.
// ---------------------------------------------------------------------
/// Advancing moves the current round on by one and never moves the
/// garbage-collection round back. The garbage-collection round stays at
/// or below the current round, and below it when the retention depth is 1
/// or more.
pub proof fn lemma_advance_is_monotone(s: StorageView)
    requires
        s.wf(),
        s.current_round < u64::MAX,
    ensures
        s.advanced().current_round == s.current_round + 1,
        s.advanced().gc_round >= s.gc_round,
        s.advanced().gc_round <= s.advanced().current_round,
        s.max_gc_rounds >= 1 ==> s.gc_round < s.current_round && s.advanced().gc_round
            < s.advanced().current_round,
{
    lemma_advanced_wf(s);
    assert(s.committee_ok(s.current_round));
}

/// Collection is complete: once the store has advanced, a round below the
/// new garbage-collection round has no committee, no entry in the round
/// index, no certificate and no batch, and every certificate that a
/// stored transmission refers to is of a later round.
pub proof fn lemma_advance_collects(s: StorageView, round: u64)
    requires
        s.wf(),
        s.current_round < u64::MAX,
        round < s.next_gc_round(),
    ensures
        !s.advanced().has_committee(round),
        !s.advanced().has_round(round),
        forall|cid: u64| #[trigger]
            s.advanced().has_certificate(cid) ==> s.advanced().certificate_map()[cid].round()
                != round,
        forall|bid: u64| #[trigger]
            s.advanced().has_batch(bid) ==> s.advanced().batch_map()[bid] != round,
        forall|tid: u64, cid: u64| #[trigger]
            s.advanced().references(cid, tid) ==> s.advanced().certificate_map()[cid].round()
                != round,
{
    lemma_advanced_wf(s);
    lemma_rounds_are_retained(s.advanced());
}

} // verus!
