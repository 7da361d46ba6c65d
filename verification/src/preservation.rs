//! Proofs that writing and removing a certificate keep the invariant of
//! the store.
use vstd::prelude::*;
use crate::model::{attach, delist, detach, detach_one, enlist, StorageView};
use crate::ordered::{
    as_map, del, has_key, keys_distinct, lemma_del, lemma_filter_all, lemma_put, lookup, put,
    with_item,
    without_item, lemma_with_item, lemma_without_item, lemma_put_same,
};
use crate::types::{BatchCertificateView, TransmissionView};

verus! {

/// The transmission index, as a map, after `cid` has been made to reference
/// each transmission of `tids`.
pub open spec fn attached_map(
    m: Map<u64, (TransmissionView, Seq<u64>)>,
    tids: Seq<u64>,
    cid: u64,
    missing: Map<u64, TransmissionView>,
) -> Map<u64, (TransmissionView, Seq<u64>)> {
    Map::new(
        |tid: u64| m.dom().contains(tid) || tids.contains(tid),
        |tid: u64|
            if tids.contains(tid) {
                if m.dom().contains(tid) {
                    (m[tid].0, with_item(m[tid].1, cid))
                } else {
                    (missing[tid], seq![cid])
                }
            } else {
                m[tid]
            },
    )
}

/// The transmission index, as a map, after the references of `cid` to the
/// transmissions of `tids` have ended.
pub open spec fn detached_map(
    m: Map<u64, (TransmissionView, Seq<u64>)>,
    tids: Seq<u64>,
    cid: u64,
) -> Map<u64, (TransmissionView, Seq<u64>)> {
    Map::new(
        |tid: u64|
            m.dom().contains(tid) && !(tids.contains(tid) && without_item(m[tid].1, cid).len()
                == 0),
        |tid: u64|
            if tids.contains(tid) {
                (m[tid].0, without_item(m[tid].1, cid))
            } else {
                m[tid]
            },
    )
}

proof fn lemma_drop_last_contains(tids: Seq<u64>)
    requires
        tids.len() > 0,
        tids.no_duplicates(),
    ensures
        tids.drop_last().no_duplicates(),
        !tids.drop_last().contains(tids.last()),
        forall|t: u64| tids.contains(t) <==> (t == tids.last() || tids.drop_last().contains(t)),
{
    let init = tids.drop_last();
    assert forall|t: u64| tids.contains(t) <==> (t == tids.last() || init.contains(t)) by {
        if tids.contains(t) {
            let i = tids.index_of(t);
            if i < init.len() {
                assert(init[i] == t);
            }
        }
        if init.contains(t) {
            let i = init.index_of(t);
            assert(tids[i] == t);
        }
        if t == tids.last() {
            assert(tids[tids.len() - 1] == t);
        }
    }
    if init.contains(tids.last()) {
        let i = init.index_of(tids.last());
        assert(tids[i] == tids[tids.len() - 1]);
    }
}

/// What `attach` yields, as a map.
pub proof fn lemma_attach(
    ts: Seq<(u64, (TransmissionView, Seq<u64>))>,
    tids: Seq<u64>,
    cid: u64,
    missing: Map<u64, TransmissionView>,
)
    requires
        keys_distinct(ts),
        tids.no_duplicates(),
    ensures
        keys_distinct(attach(ts, tids, cid, missing)),
        as_map(attach(ts, tids, cid, missing)) == attached_map(as_map(ts), tids, cid, missing),
    decreases tids.len(),
{
    let result = attach(ts, tids, cid, missing);
    if tids.len() == 0 {
        assert(as_map(ts) =~= attached_map(as_map(ts), tids, cid, missing));
    } else {
        let init = tids.drop_last();
        let last = tids.last();
        lemma_drop_last_contains(tids);
        lemma_attach(ts, init, cid, missing);
        let before = attach(ts, init, cid, missing);
        let value = match lookup(before, last) {
            Some(entry) => (entry.0, with_item(entry.1, cid)),
            None => (missing[last], seq![cid]),
        };
        assert(result == put(before, last, value));
        lemma_put(before, last, value);
        let m0 = as_map(ts);
        let mb = as_map(before);
        let target = attached_map(m0, tids, cid, missing);
        assert(mb.dom().contains(last) == has_key(before, last));
        assert(mb.dom().contains(last) == m0.dom().contains(last));
        if has_key(before, last) {
            assert(mb[last] == m0[last]);
            assert(lookup(before, last) == Some(mb[last]));
        }
        assert(target[last] == value);
        assert forall|t: u64| target.dom().contains(t) implies #[trigger] as_map(result)[t]
            == target[t] by {
            if t != last {
                assert(tids.contains(t) == init.contains(t));
                assert(as_map(result)[t] == mb[t]);
            }
        }
        assert(as_map(result) =~= target);
    }
}

/// What `detach` yields, as a map.
pub proof fn lemma_detach(ts: Seq<(u64, (TransmissionView, Seq<u64>))>, tids: Seq<u64>, cid: u64)
    requires
        keys_distinct(ts),
        tids.no_duplicates(),
    ensures
        keys_distinct(detach(ts, tids, cid)),
        as_map(detach(ts, tids, cid)) == detached_map(as_map(ts), tids, cid),
    decreases tids.len(),
{
    let result = detach(ts, tids, cid);
    if tids.len() == 0 {
        assert(as_map(ts) =~= detached_map(as_map(ts), tids, cid));
    } else {
        let init = tids.drop_last();
        let last = tids.last();
        lemma_drop_last_contains(tids);
        lemma_detach(ts, init, cid);
        let before = detach(ts, init, cid);
        assert(result == detach_one(before, last, cid));
        let m0 = as_map(ts);
        let mb = as_map(before);
        let target = detached_map(m0, tids, cid);
        assert(mb.dom().contains(last) == has_key(before, last));
        assert(mb.dom().contains(last) == m0.dom().contains(last));
        if has_key(before, last) {
            assert(mb[last] == m0[last]);
            assert(lookup(before, last) == Some(mb[last]));
            let entry = mb[last];
            lemma_del(before, last);
            lemma_put(before, last, (entry.0, without_item(entry.1, cid)));
        }
        assert forall|t: u64| target.dom().contains(t) == as_map(result).dom().contains(t) by {
            if t != last {
                assert(tids.contains(t) == init.contains(t));
            }
        }
        assert forall|t: u64| target.dom().contains(t) implies #[trigger] as_map(result)[t]
            == target[t] by {
            if t != last {
                assert(tids.contains(t) == init.contains(t));
                assert(as_map(result)[t] == mb[t]);
            }
        }
        assert(as_map(result) =~= target);
    }
}

/// The indices, as maps, after a certificate has been written.
pub proof fn lemma_with_certificate_maps(
    s: StorageView,
    c: BatchCertificateView,
    missing: Map<u64, TransmissionView>,
)
    requires
        s.wf_order(),
        c.wf(),
    ensures
        s.with_certificate(c, missing).wf_order(),
        s.with_certificate(c, missing).committee_map() == s.committee_map(),
        s.with_certificate(c, missing).certificate_map() == s.certificate_map().insert(
            c.certificate_id,
            c,
        ),
        s.with_certificate(c, missing).batch_map() == s.batch_map().insert(
            c.batch_id(),
            c.round(),
        ),
        s.with_certificate(c, missing).round_map() == s.round_map().insert(
            c.round(),
            if s.has_round(c.round()) {
                with_item(s.round_map()[c.round()], c.descriptor())
            } else {
                seq![c.descriptor()]
            },
        ),
        s.with_certificate(c, missing).transmission_map() == attached_map(
            s.transmission_map(),
            c.transmission_ids(),
            c.certificate_id,
            missing,
        ),
{
    lemma_put(s.certificates, c.certificate_id, c);
    lemma_put(s.batch_ids, c.batch_id(), c.round());
    let descriptors = if s.has_round(c.round()) {
        with_item(s.round_map()[c.round()], c.descriptor())
    } else {
        seq![c.descriptor()]
    };
    assert(enlist(s.rounds, c.round(), c.descriptor()) == put(s.rounds, c.round(), descriptors));
    lemma_put(s.rounds, c.round(), descriptors);
    lemma_attach(s.transmissions, c.transmission_ids(), c.certificate_id, missing);
}

/// The indices, as maps, after a stored certificate has been removed.
pub proof fn lemma_without_certificate_maps(s: StorageView, cid: u64)
    requires
        s.wf_order(),
        s.has_certificate(cid),
        s.certificate_map()[cid].wf(),
        s.has_round(s.certificate_map()[cid].round()),
    ensures
        s.without_certificate(cid).wf_order(),
        s.without_certificate(cid).committee_map() == s.committee_map(),
        s.without_certificate(cid).certificate_map() == s.certificate_map().remove(cid),
        s.without_certificate(cid).batch_map() == s.batch_map().remove(
            s.certificate_map()[cid].batch_id(),
        ),
        s.without_certificate(cid).round_map() == ({
            let c = s.certificate_map()[cid];
            let rest = without_item(s.round_map()[c.round()], c.descriptor());
            if rest.len() == 0 {
                s.round_map().remove(c.round())
            } else {
                s.round_map().insert(c.round(), rest)
            }
        }),
        s.without_certificate(cid).transmission_map() == detached_map(
            s.transmission_map(),
            s.certificate_map()[cid].transmission_ids(),
            cid,
        ),
{
    let c = s.certificate_map()[cid];
    lemma_del(s.certificates, cid);
    lemma_del(s.batch_ids, c.batch_id());
    let rest = without_item(s.round_map()[c.round()], c.descriptor());
    lemma_del(s.rounds, c.round());
    lemma_put(s.rounds, c.round(), rest);
    assert(delist(s.rounds, c.round(), c.descriptor()) == if rest.len() == 0 {
        del(s.rounds, c.round())
    } else {
        put(s.rounds, c.round(), rest)
    });
    lemma_detach(s.transmissions, c.transmission_ids(), cid);
}

/// `t` holds what `s` holds and, in addition, the new certificate `c`.
pub open spec fn extends(
    s: StorageView,
    t: StorageView,
    c: BatchCertificateView,
    missing: Map<u64, TransmissionView>,
) -> bool {
    &&& t.current_round == s.current_round
    &&& t.gc_round == s.gc_round
    &&& t.max_gc_rounds == s.max_gc_rounds
    &&& t.committee_map() == s.committee_map()
    &&& t.certificate_map() == s.certificate_map().insert(c.certificate_id, c)
    &&& t.batch_map() == s.batch_map().insert(c.batch_id(), c.round())
    &&& t.round_map() == s.round_map().insert(
        c.round(),
        if s.has_round(c.round()) {
            s.round_map()[c.round()].push(c.descriptor())
        } else {
            seq![c.descriptor()]
        },
    )
    &&& t.transmission_map() == attached_map(
        s.transmission_map(),
        c.transmission_ids(),
        c.certificate_id,
        missing,
    )
}

/// The certificate `c` is new to `s` in every respect.
pub open spec fn fresh(s: StorageView, c: BatchCertificateView) -> bool {
    &&& c.wf()
    &&& !s.has_certificate(c.certificate_id)
    &&& !s.has_batch(c.batch_id())
    &&& !s.has_certificate_in_round_from(c.round(), c.author())
    &&& s.has_committee(c.round())
}

/// No stored descriptor or reference names a certificate that is not stored.
pub proof fn lemma_unknown_certificate(s: StorageView, cid: u64)
    requires
        s.wf(),
        !s.has_certificate(cid),
    ensures
        forall|round: u64, i: int|
            s.has_round(round) && 0 <= i < s.round_map()[round].len() ==> (
            #[trigger] s.round_map()[round][i]).0 != cid,
        forall|tid: u64| #[trigger]
            s.has_transmission(tid) ==> !s.transmission_map()[tid].1.contains(cid),
{
    assert forall|round: u64, i: int|
        s.has_round(round) && 0 <= i < s.round_map()[round].len() implies (
    #[trigger] s.round_map()[round][i]).0 != cid by {
        assert(s.round_ok(round));
        assert(s.descriptor_ok(round, s.round_map()[round][i]));
    }
    assert forall|tid: u64| #[trigger]
        s.has_transmission(tid) implies !s.transmission_map()[tid].1.contains(cid) by {
        assert(s.transmission_ok(tid));
        let cids = s.transmission_map()[tid].1;
        if cids.contains(cid) {
            let i = cids.index_of(cid);
            assert(s.references(cids[i], tid));
        }
    }
}

proof fn lemma_extends_rounds(
    s: StorageView,
    t: StorageView,
    c: BatchCertificateView,
    missing: Map<u64, TransmissionView>,
)
    requires
        s.wf(),
        fresh(s, c),
        extends(s, t, c, missing),
    ensures
        forall|round: u64| t.has_round(round) ==> #[trigger] t.round_ok(round),
{
    let cid = c.certificate_id;
    lemma_unknown_certificate(s, cid);
    assert forall|round: u64| t.has_round(round) implies #[trigger] t.round_ok(round) by {
        let after = t.round_map()[round];
        if round != c.round() {
            assert(s.round_ok(round));
            assert forall|i: int| 0 <= i < after.len() implies t.descriptor_ok(
                round,
                #[trigger] after[i],
            ) by {
                assert(s.descriptor_ok(round, after[i]));
            }
        } else if s.has_round(round) {
            let before = s.round_map()[round];
            assert(s.round_ok(round));
            assert(after == before.push(c.descriptor()));
            assert forall|i: int| 0 <= i < after.len() implies t.descriptor_ok(
                round,
                #[trigger] after[i],
            ) by {
                if i < before.len() {
                    assert(after[i] == before[i]);
                    assert(s.descriptor_ok(round, before[i]));
                }
            }
            assert forall|i: int, j: int| 0 <= i < j < after.len() implies (#[trigger] after[i]).2
                != (#[trigger] after[j]).2 by {
                assert(after[i] == before[i]);
                if j < before.len() {
                    assert(after[j] == before[j]);
                } else {
                    assert(before[i].2 != c.author());
                }
            }
            assert forall|i: int, j: int|
                0 <= i < after.len() && 0 <= j < after.len() && i != j implies after[i]
                != after[j] by {
                if i < before.len() && j < before.len() {
                    assert(after[i] == before[i] && after[j] == before[j]);
                } else if i < before.len() {
                    assert(after[i] == before[i]);
                    assert(before[i].0 != cid);
                } else {
                    assert(after[j] == before[j]);
                    assert(before[j].0 != cid);
                }
            }
        } else {
            assert(after == seq![c.descriptor()]);
            assert(after[0] == c.descriptor());
        }
    }
}

proof fn lemma_extends_certificates(
    s: StorageView,
    t: StorageView,
    c: BatchCertificateView,
    missing: Map<u64, TransmissionView>,
)
    requires
        s.wf(),
        fresh(s, c),
        extends(s, t, c, missing),
    ensures
        forall|cid: u64| t.has_certificate(cid) ==> #[trigger] t.certificate_ok(cid),
{
    let new = c.certificate_id;
    let tids = c.transmission_ids();
    assert forall|cid: u64| t.has_certificate(cid) implies #[trigger] t.certificate_ok(cid) by {
        let x = t.certificate_map()[cid];
        if cid == new {
            assert(x == c);
            let listed = t.round_map()[c.round()];
            assert(listed[listed.len() - 1] == c.descriptor());
            assert forall|other: u64| #[trigger]
                t.certifies(other, c.batch_id()) implies other == cid by {
                if other != cid {
                    assert(s.certifies(other, c.batch_id()));
                    assert(s.certificate_ok(other));
                }
            }
            assert forall|i: int| 0 <= i < tids.len() implies t.has_transmission(
                #[trigger] tids[i],
            ) && t.transmission_map()[tids[i]].1.contains(cid) by {
                let tid = tids[i];
                assert(tids.contains(tid));
                if s.has_transmission(tid) {
                    assert(s.transmission_ok(tid));
                    lemma_with_item(s.transmission_map()[tid].1, cid);
                } else {
                    assert(seq![cid][0] == cid);
                }
            }
        } else {
            assert(s.certificate_ok(cid));
            assert(x == s.certificate_map()[cid]);
            let before = s.round_map()[x.round()];
            let listed = t.round_map()[x.round()];
            assert(listed.contains(x.descriptor())) by {
                let i = before.index_of(x.descriptor());
                assert(before[i] == x.descriptor());
                if x.round() == c.round() {
                    assert(listed[i] == before[i]);
                }
            }
            assert forall|other: u64| #[trigger]
                t.certifies(other, x.batch_id()) implies other == cid by {
                if other != new {
                    assert(s.certifies(other, x.batch_id()));
                }
            }
            assert forall|i: int| 0 <= i < x.transmission_ids().len() implies t.has_transmission(
                #[trigger] x.transmission_ids()[i],
            ) && t.transmission_map()[x.transmission_ids()[i]].1.contains(cid) by {
                let tid = x.transmission_ids()[i];
                assert(s.has_transmission(tid));
                assert(s.transmission_ok(tid));
                if tids.contains(tid) {
                    lemma_with_item(s.transmission_map()[tid].1, new);
                }
            }
        }
    }
}

proof fn lemma_extends_batches(
    s: StorageView,
    t: StorageView,
    c: BatchCertificateView,
    missing: Map<u64, TransmissionView>,
)
    requires
        s.wf(),
        fresh(s, c),
        extends(s, t, c, missing),
    ensures
        forall|bid: u64| t.has_batch(bid) ==> #[trigger] t.batch_ok(bid),
{
    assert forall|bid: u64| t.has_batch(bid) implies #[trigger] t.batch_ok(bid) by {
        if bid == c.batch_id() {
            assert(t.certifies(c.certificate_id, bid));
        } else {
            assert(s.batch_ok(bid));
            let owner = choose|cid: u64| #[trigger] s.certifies(cid, bid);
            assert(t.certifies(owner, bid));
        }
    }
}

proof fn lemma_extends_transmissions(
    s: StorageView,
    t: StorageView,
    c: BatchCertificateView,
    missing: Map<u64, TransmissionView>,
)
    requires
        s.wf(),
        fresh(s, c),
        extends(s, t, c, missing),
    ensures
        forall|tid: u64| t.has_transmission(tid) ==> #[trigger] t.transmission_ok(tid),
{
    let new = c.certificate_id;
    let tids = c.transmission_ids();
    lemma_unknown_certificate(s, new);
    assert forall|tid: u64| t.has_transmission(tid) implies #[trigger] t.transmission_ok(tid) by {
        let after = t.transmission_map()[tid].1;
        if s.has_transmission(tid) {
            let before = s.transmission_map()[tid].1;
            assert(s.transmission_ok(tid));
            if tids.contains(tid) {
                lemma_with_item(before, new);
                assert(after == before.push(new));
                assert forall|i: int| 0 <= i < after.len() implies t.references(
                    #[trigger] after[i],
                    tid,
                ) by {
                    if i < before.len() {
                        assert(after[i] == before[i]);
                        assert(s.references(before[i], tid));
                    }
                }
            } else {
                assert forall|i: int| 0 <= i < after.len() implies t.references(
                    #[trigger] after[i],
                    tid,
                ) by {
                    assert(s.references(before[i], tid));
                }
            }
        } else {
            assert(after == seq![new]);
            assert(after[0] == new);
        }
    }
}

/// Writing a certificate that is new in every respect keeps the invariant.
pub proof fn lemma_extends_wf(
    s: StorageView,
    t: StorageView,
    c: BatchCertificateView,
    missing: Map<u64, TransmissionView>,
)
    requires
        s.wf(),
        fresh(s, c),
        extends(s, t, c, missing),
        t.wf_order(),
    ensures
        t.wf(),
{
    lemma_extends_rounds(s, t, c, missing);
    lemma_extends_certificates(s, t, c, missing);
    lemma_extends_batches(s, t, c, missing);
    lemma_extends_transmissions(s, t, c, missing);
    assert forall|round: u64| t.has_committee(round) implies #[trigger] t.committee_ok(round) by {
        assert(s.committee_ok(round));
    }
}

/// Referencing transmissions that `cid` references already changes nothing.
pub proof fn lemma_attach_again(
    ts: Seq<(u64, (TransmissionView, Seq<u64>))>,
    tids: Seq<u64>,
    cid: u64,
    missing: Map<u64, TransmissionView>,
)
    requires
        forall|i: int|
            0 <= i < tids.len() ==> as_map(ts).dom().contains(#[trigger] tids[i]) && as_map(
                ts,
            )[tids[i]].1.contains(cid),
    ensures
        attach(ts, tids, cid, missing) == ts,
    decreases tids.len(),
{
    if tids.len() > 0 {
        let init = tids.drop_last();
        let last = tids.last();
        assert forall|i: int| 0 <= i < init.len() implies as_map(ts).dom().contains(
            #[trigger] init[i],
        ) && as_map(ts)[init[i]].1.contains(cid) by {
            assert(init[i] == tids[i]);
        }
        lemma_attach_again(ts, init, cid, missing);
        assert(as_map(ts).dom().contains(tids[tids.len() - 1]));
        assert(has_key(ts, last));
        let entry = as_map(ts)[last];
        assert(with_item(entry.1, cid) == entry.1);
        lemma_put_same(ts, last);
    }
}

/// Writing a certificate that is stored already changes nothing.
pub proof fn lemma_with_stored_certificate(
    s: StorageView,
    c: BatchCertificateView,
    missing: Map<u64, TransmissionView>,
)
    requires
        s.wf(),
        s.has_certificate(c.certificate_id),
        s.certificate_map()[c.certificate_id] == c,
    ensures
        s.with_certificate(c, missing) == s,
{
    let cid = c.certificate_id;
    assert(s.certificate_ok(cid));
    lemma_put_same(s.certificates, cid);
    assert(has_key(s.batch_ids, c.batch_id()));
    lemma_put_same(s.batch_ids, c.batch_id());
    assert(has_key(s.rounds, c.round()));
    lemma_put_same(s.rounds, c.round());
    lemma_attach_again(s.transmissions, c.transmission_ids(), cid, missing);
}

/// Writing a certificate that the store admits keeps the invariant.
pub proof fn lemma_with_certificate_wf(
    s: StorageView,
    c: BatchCertificateView,
    missing: Map<u64, TransmissionView>,
)
    requires
        s.wf(),
        c.wf(),
        s.admits(c, missing.dom()),
    ensures
        s.with_certificate(c, missing).wf(),
{
    let cid = c.certificate_id;
    if s.has_certificate(cid) {
        lemma_with_stored_certificate(s, c, missing);
    } else {
        let t = s.with_certificate(c, missing);
        lemma_with_certificate_maps(s, c, missing);
        lemma_unknown_certificate(s, cid);
        if s.has_round(c.round()) {
            let listed = s.round_map()[c.round()];
            if listed.contains(c.descriptor()) {
                let i = listed.index_of(c.descriptor());
                assert(listed[i].0 == cid);
            }
        }
        lemma_extends_wf(s, t, c, missing);
    }
}

/// `t` holds what `s` holds but for the certificate `cid`.
pub open spec fn lacks(s: StorageView, t: StorageView, cid: u64) -> bool {
    let c = s.certificate_map()[cid];
    let rest = without_item(s.round_map()[c.round()], c.descriptor());
    &&& t.current_round == s.current_round
    &&& t.gc_round == s.gc_round
    &&& t.max_gc_rounds == s.max_gc_rounds
    &&& t.committee_map() == s.committee_map()
    &&& t.certificate_map() == s.certificate_map().remove(cid)
    &&& t.batch_map() == s.batch_map().remove(c.batch_id())
    &&& t.round_map() == if rest.len() == 0 {
        s.round_map().remove(c.round())
    } else {
        s.round_map().insert(c.round(), rest)
    }
    &&& t.transmission_map() == detached_map(s.transmission_map(), c.transmission_ids(), cid)
}

proof fn lemma_lacks_rounds(s: StorageView, t: StorageView, cid: u64)
    requires
        s.wf(),
        s.has_certificate(cid),
        lacks(s, t, cid),
    ensures
        forall|round: u64| t.has_round(round) ==> #[trigger] t.round_ok(round),
{
    let c = s.certificate_map()[cid];
    assert(s.certificate_ok(cid));
    let listed = s.round_map()[c.round()];
    let p = listed.index_of(c.descriptor());
    assert(s.round_ok(c.round()));
    lemma_without_item(listed, c.descriptor());
    assert forall|round: u64| t.has_round(round) implies #[trigger] t.round_ok(round) by {
        let after = t.round_map()[round];
        assert(s.round_ok(round));
        if round != c.round() {
            assert forall|i: int| 0 <= i < after.len() implies t.descriptor_ok(
                round,
                #[trigger] after[i],
            ) by {
                assert(s.descriptor_ok(round, after[i]));
            }
        } else {
            assert(after == listed.remove(p));
            assert forall|i: int| 0 <= i < after.len() implies t.descriptor_ok(
                round,
                #[trigger] after[i],
            ) by {
                let a = if i < p { i } else { i + 1 };
                assert(after[i] == listed[a]);
                assert(s.descriptor_ok(round, listed[a]));
                assert(listed[a] != listed[p]);
            }
            assert forall|i: int, j: int| 0 <= i < j < after.len() implies (#[trigger] after[i]).2
                != (#[trigger] after[j]).2 by {
                let a = if i < p { i } else { i + 1 };
                let b = if j < p { j } else { j + 1 };
                assert(after[i] == listed[a]);
                assert(after[j] == listed[b]);
            }
        }
    }
}

proof fn lemma_lacks_certificates(s: StorageView, t: StorageView, cid: u64)
    requires
        s.wf(),
        s.has_certificate(cid),
        lacks(s, t, cid),
    ensures
        forall|x: u64| t.has_certificate(x) ==> #[trigger] t.certificate_ok(x),
{
    let c = s.certificate_map()[cid];
    assert(s.certificate_ok(cid));
    let listed = s.round_map()[c.round()];
    assert(s.round_ok(c.round()));
    lemma_without_item(listed, c.descriptor());
    assert forall|x: u64| t.has_certificate(x) implies #[trigger] t.certificate_ok(x) by {
        let cx = t.certificate_map()[x];
        assert(s.certificate_ok(x));
        assert(cx == s.certificate_map()[x]);
        assert(cx.descriptor() != c.descriptor());
        if cx.batch_id() == c.batch_id() {
            assert(s.certifies(cid, cx.batch_id()));
        }
        assert forall|other: u64| #[trigger] t.certifies(other, cx.batch_id()) implies other
            == x by {
            assert(s.certifies(other, cx.batch_id()));
        }
        assert forall|i: int| 0 <= i < cx.transmission_ids().len() implies t.has_transmission(
            #[trigger] cx.transmission_ids()[i],
        ) && t.transmission_map()[cx.transmission_ids()[i]].1.contains(x) by {
            let tid = cx.transmission_ids()[i];
            assert(s.has_transmission(tid));
            assert(s.transmission_ok(tid));
            lemma_without_item(s.transmission_map()[tid].1, cid);
        }
    }
}

proof fn lemma_lacks_batches(s: StorageView, t: StorageView, cid: u64)
    requires
        s.wf(),
        s.has_certificate(cid),
        lacks(s, t, cid),
    ensures
        forall|bid: u64| t.has_batch(bid) ==> #[trigger] t.batch_ok(bid),
{
    assert forall|bid: u64| t.has_batch(bid) implies #[trigger] t.batch_ok(bid) by {
        assert(s.batch_ok(bid));
        let owner = choose|x: u64| #[trigger] s.certifies(x, bid);
        assert(t.certifies(owner, bid));
    }
}

proof fn lemma_lacks_transmissions(s: StorageView, t: StorageView, cid: u64)
    requires
        s.wf(),
        s.has_certificate(cid),
        lacks(s, t, cid),
    ensures
        forall|tid: u64| t.has_transmission(tid) ==> #[trigger] t.transmission_ok(tid),
{
    let c = s.certificate_map()[cid];
    let tids = c.transmission_ids();
    assert forall|tid: u64| t.has_transmission(tid) implies #[trigger] t.transmission_ok(tid) by {
        let before = s.transmission_map()[tid].1;
        let after = t.transmission_map()[tid].1;
        assert(s.transmission_ok(tid));
        lemma_without_item(before, cid);
        assert forall|i: int| 0 <= i < after.len() implies t.references(
            #[trigger] after[i],
            tid,
        ) by {
            assert(after.contains(after[i]));
            assert(before.contains(after[i]));
            let j = before.index_of(after[i]);
            assert(s.references(before[j], tid));
        }
    }
}

/// Removing a certificate keeps the invariant.
pub proof fn lemma_without_certificate_wf(s: StorageView, cid: u64)
    requires
        s.wf(),
    ensures
        s.without_certificate(cid).wf(),
{
    if s.has_certificate(cid) {
        let t = s.without_certificate(cid);
        assert(s.certificate_ok(cid));
        lemma_without_certificate_maps(s, cid);
        lemma_lacks_rounds(s, t, cid);
        lemma_lacks_certificates(s, t, cid);
        lemma_lacks_batches(s, t, cid);
        lemma_lacks_transmissions(s, t, cid);
        assert forall|round: u64| t.has_committee(round) implies #[trigger] t.committee_ok(
            round,
        ) by {
            assert(s.committee_ok(round));
        }
    }
}

/// Attaching reads `missing` only at the transmissions that are not stored.
pub proof fn lemma_attach_agree(
    ts: Seq<(u64, (TransmissionView, Seq<u64>))>,
    tids: Seq<u64>,
    cid: u64,
    m1: Map<u64, TransmissionView>,
    m2: Map<u64, TransmissionView>,
)
    requires
        keys_distinct(ts),
        tids.no_duplicates(),
        forall|i: int|
            0 <= i < tids.len() && !as_map(ts).dom().contains(#[trigger] tids[i]) ==> m1[tids[i]]
                == m2[tids[i]],
    ensures
        attach(ts, tids, cid, m1) == attach(ts, tids, cid, m2),
    decreases tids.len(),
{
    if tids.len() > 0 {
        let init = tids.drop_last();
        let last = tids.last();
        lemma_drop_last_contains(tids);
        assert forall|i: int|
            0 <= i < init.len() && !as_map(ts).dom().contains(#[trigger] init[i]) implies m1[init[i]]
            == m2[init[i]] by {
            assert(init[i] == tids[i]);
        }
        lemma_attach_agree(ts, init, cid, m1, m2);
        lemma_attach(ts, init, cid, m1);
        let before = attach(ts, init, cid, m1);
        assert(as_map(before).dom().contains(last) == as_map(ts).dom().contains(last));
        assert(has_key(before, last) == as_map(before).dom().contains(last));
        if !has_key(before, last) {
            assert(tids[tids.len() - 1] == last);
            assert(m1[last] == m2[last]);
        }
    }
}

/// The first fault among the previous certificates is the one reported,
/// however many certificates follow it.
pub proof fn lemma_previous_fault_found(s: StorageView, ids: Seq<u64>, previous: u64, i: int, n: int)
    requires
        0 <= i < n,
        s.previous_fault(ids, previous, i) is None,
        s.previous_fault_at(ids, previous, i) is Some,
    ensures
        s.previous_fault(ids, previous, n) == s.previous_fault_at(ids, previous, i),
    decreases n - i,
{
    if n > i + 1 {
        lemma_previous_fault_found(s, ids, previous, i, n - 1);
    }
}

/// A store that has the data indices of a well-formed store, and the
/// committee of every round that holds certificates, meets the part of
/// the invariant that speaks of the data indices.
proof fn lemma_same_data(s: StorageView, t: StorageView)
    requires
        s.wf(),
        t.rounds == s.rounds,
        t.certificates == s.certificates,
        t.batch_ids == s.batch_ids,
        t.transmissions == s.transmissions,
        forall|round: u64| #[trigger] s.has_round(round) ==> t.has_committee(round),
    ensures
        forall|round: u64| t.has_round(round) ==> #[trigger] t.round_ok(round),
        forall|cid: u64| t.has_certificate(cid) ==> #[trigger] t.certificate_ok(cid),
        forall|bid: u64| t.has_batch(bid) ==> #[trigger] t.batch_ok(bid),
        forall|tid: u64| t.has_transmission(tid) ==> #[trigger] t.transmission_ok(tid),
{
    assert forall|round: u64| t.has_round(round) implies #[trigger] t.round_ok(round) by {
        assert(s.has_round(round));
        assert(s.round_ok(round));
        let listed = t.round_map()[round];
        assert forall|i: int| 0 <= i < listed.len() implies t.descriptor_ok(
            round,
            #[trigger] listed[i],
        ) by {
            assert(s.descriptor_ok(round, listed[i]));
        }
    }
    assert forall|cid: u64| t.has_certificate(cid) implies #[trigger] t.certificate_ok(cid) by {
        assert(s.certificate_ok(cid));
        let c = s.certificate_map()[cid];
        assert forall|other: u64| #[trigger] t.certifies(other, c.batch_id()) implies other
            == cid by {
            assert(s.certifies(other, c.batch_id()));
        }
    }
    assert forall|bid: u64| t.has_batch(bid) implies #[trigger] t.batch_ok(bid) by {
        assert(s.batch_ok(bid));
        let owner = choose|cid: u64| #[trigger] s.certifies(cid, bid);
        assert(t.certifies(owner, bid));
    }
    assert forall|tid: u64| t.has_transmission(tid) implies #[trigger] t.transmission_ok(tid) by {
        assert(s.transmission_ok(tid));
        let cids = s.transmission_map()[tid].1;
        assert forall|i: int| 0 <= i < cids.len() implies t.references(#[trigger] cids[i], tid) by {
            assert(s.references(cids[i], tid));
        }
    }
}

/// Moving on to the next round, before anything is collected, keeps the
/// invariant.
pub proof fn lemma_promoted_wf(s: StorageView, t: StorageView)
    requires
        s.wf(),
        s.current_round < u64::MAX,
        t == (StorageView {
            current_round: s.next_round(),
            committees: put(
                s.committees,
                s.next_round(),
                s.committee_map()[s.current_round].next(),
            ),
            ..s
        }),
    ensures
        t.wf(),
        t.has_committee(t.current_round),
        !s.has_committee(s.next_round()),
        !s.has_round(s.next_round()),
{
    let next = s.next_round();
    let promoted = s.committee_map()[s.current_round].next();
    assert(s.committee_ok(s.current_round));
    lemma_put(s.committees, next, promoted);
    if s.has_committee(next) {
        assert(s.committee_ok(next));
    }
    if s.has_round(next) {
        assert(s.round_ok(next));
    }
    assert forall|round: u64| t.has_committee(round) implies #[trigger] t.committee_ok(round) by {
        if round != next {
            assert(s.committee_ok(round));
        }
    }
    assert forall|r: u64| #[trigger] s.has_round(r) implies t.has_committee(r) by {
        assert(s.round_ok(r));
    }
    lemma_same_data(s, t);
}

/// Removing the certificate that a round lists first leaves the round with
/// the descriptors that followed, or without entry if there were none.
pub proof fn lemma_collect_step(s: StorageView, round: u64)
    requires
        s.wf(),
        s.has_round(round),
    ensures
        s.has_certificate(s.round_map()[round][0].0),
        s.certificate_map()[s.round_map()[round][0].0].certificate_id == s.round_map()[round][0].0,
        s.without_certificate(s.round_map()[round][0].0).wf(),
        s.without_certificate(s.round_map()[round][0].0).committee_map() == s.committee_map(),
        s.without_certificate(s.round_map()[round][0].0).has_round(round) == (
        s.round_map()[round].len() > 1),
        s.round_map()[round].len() > 1 ==> s.without_certificate(
            s.round_map()[round][0].0,
        ).round_map()[round] == s.round_map()[round].skip(1),
{
    let listed = s.round_map()[round];
    assert(s.round_ok(round));
    assert(s.descriptor_ok(round, listed[0]));
    let cid = listed[0].0;
    assert(s.certificate_ok(cid));
    lemma_without_certificate_wf(s, cid);
    lemma_without_certificate_maps(s, cid);
    crate::ordered::lemma_without_first(listed);
}

/// Dropping the committee of a round that holds no certificates and is not
/// the current round keeps the invariant.
pub proof fn lemma_without_committee_wf(s: StorageView, t: StorageView, round: u64)
    requires
        s.wf(),
        !s.has_round(round),
        round != s.current_round,
        t == (StorageView { committees: del(s.committees, round), ..s }),
    ensures
        t.wf(),
        t.committee_map() == s.committee_map().remove(round),
{
    lemma_del(s.committees, round);
    assert forall|r: u64| t.has_committee(r) implies #[trigger] t.committee_ok(r) by {
        assert(s.committee_ok(r));
    }
    assert forall|r: u64| #[trigger] s.has_round(r) implies t.has_committee(r) by {
        assert(s.round_ok(r));
    }
    lemma_same_data(s, t);
}

/// Raising the garbage-collection round to a round below which no
/// committee is stored keeps the invariant.
pub proof fn lemma_raised_gc_wf(s: StorageView, t: StorageView, gc_round: u64)
    requires
        s.wf(),
        s.gc_round <= gc_round,
        gc_round == 0 || gc_round + s.max_gc_rounds <= s.current_round,
        forall|r: u64| #[trigger] s.has_committee(r) ==> gc_round <= r,
        t == (StorageView { gc_round, ..s }),
    ensures
        t.wf(),
{
    assert(s.committee_ok(s.current_round));
    assert forall|r: u64| t.has_committee(r) implies #[trigger] t.committee_ok(r) by {
        assert(s.has_committee(r));
        assert(s.committee_ok(r));
    }
    assert forall|r: u64| #[trigger] s.has_round(r) implies t.has_committee(r) by {
        assert(s.round_ok(r));
    }
    lemma_same_data(s, t);
}

/// Removing the first `n` certificates of a round, in the round's order,
/// leaves the round with the descriptors that follow, or without entry
/// once all are removed, and leaves the committees alone.
pub proof fn lemma_round_prefix_removed(s: StorageView, round: u64, n: int)
    requires
        s.wf(),
        s.has_round(round),
        0 <= n <= s.round_map()[round].len(),
    ensures
        round != 0,
        s.certificate_ids_for_round(round).len() == s.round_map()[round].len(),
        forall|i: int|
            0 <= i < s.round_map()[round].len() ==> #[trigger] s.certificate_ids_for_round(
                round,
            )[i] == s.round_map()[round][i].0,
        ({
            let t = s.without_certificates(s.certificate_ids_for_round(round).take(n));
            &&& t.wf()
            &&& t.committee_map() == s.committee_map()
            &&& t.committees == s.committees
            &&& t.current_round == s.current_round
            &&& t.gc_round == s.gc_round
            &&& t.max_gc_rounds == s.max_gc_rounds
            &&& t.has_round(round) == (n < s.round_map()[round].len())
            &&& n < s.round_map()[round].len() ==> t.round_map()[round] == s.round_map()[round].skip(
                n,
            )
        }),
    decreases n,
{
    let listed = s.round_map()[round];
    let ids = s.certificate_ids_for_round(round);
    assert(s.round_ok(round));
    assert(s.committee_ok(round));
    assert forall|i: int| 0 <= i < listed.len() implies s.has_certificate(
        (#[trigger] listed[i]).0,
    ) by {
        assert(s.descriptor_ok(round, listed[i]));
    }
    lemma_filter_all(listed, |d: (u64, u64, u64)| s.has_certificate(d.0));
    assert forall|i: int| 0 <= i < listed.len() implies #[trigger] ids[i] == listed[i].0 by {
        assert(s.descriptor_ok(round, listed[i]));
    }
    if n == 0 {
        assert(ids.take(0).len() == 0);
        assert(listed.skip(0) == listed);
    } else {
        lemma_round_prefix_removed(s, round, n - 1);
        let u = s.without_certificates(ids.take(n - 1));
        assert(ids.take(n).drop_last() == ids.take(n - 1));
        assert(ids.take(n).last() == ids[n - 1]);
        assert(listed.skip(n - 1)[0] == listed[n - 1]);
        lemma_collect_step(u, round);
        assert(listed.skip(n - 1).skip(1) == listed.skip(n));
    }
}

/// Collecting a round other than the current one keeps the invariant and
/// leaves neither certificates nor a committee of that round.
pub proof fn lemma_without_round_wf(s: StorageView, round: u64)
    requires
        s.wf(),
        round != s.current_round,
    ensures
        s.without_round(round).wf(),
        !s.without_round(round).has_round(round),
        s.without_round(round).committee_map() == s.committee_map().remove(round),
        s.without_round(round).current_round == s.current_round,
        s.without_round(round).gc_round == s.gc_round,
        s.without_round(round).max_gc_rounds == s.max_gc_rounds,
{
    let ids = s.certificate_ids_for_round(round);
    let cleared = s.without_certificates(ids);
    if s.has_round(round) {
        lemma_round_prefix_removed(s, round, s.round_map()[round].len() as int);
        assert(ids.take(ids.len() as int) == ids);
    } else {
        assert(ids.len() == 0);
    }
    lemma_without_committee_wf(cleared, s.without_round(round), round);
}

/// Collecting the rounds from `from` up to, not including, `to`, none of
/// them the current round, keeps the invariant and leaves no committee of
/// those rounds.
pub proof fn lemma_without_rounds_wf(s: StorageView, from: u64, to: u64)
    requires
        s.wf(),
        to <= s.current_round,
    ensures
        s.without_rounds(from, to).wf(),
        s.without_rounds(from, to).current_round == s.current_round,
        s.without_rounds(from, to).gc_round == s.gc_round,
        s.without_rounds(from, to).max_gc_rounds == s.max_gc_rounds,
        forall|r: u64| #[trigger]
            s.without_rounds(from, to).has_committee(r) <==> s.has_committee(r) && !(from <= r
                < to),
        forall|r: u64|
            s.has_committee(r) && !(from <= r < to) ==> #[trigger] s.without_rounds(
                from,
                to,
            ).committee_map()[r] == s.committee_map()[r],
    decreases to,
{
    if to > from {
        let last = (to - 1) as u64;
        lemma_without_rounds_wf(s, from, last);
        let u = s.without_rounds(from, last);
        let t = s.without_rounds(from, to);
        lemma_without_round_wf(u, last);
        assert(t == u.without_round(last));
        assert forall|r: u64| #[trigger]
            t.has_committee(r) <==> s.has_committee(r) && !(from <= r < to) by {
            assert(u.has_committee(r) <==> s.has_committee(r) && !(from <= r < last));
        }
        assert forall|r: u64| s.has_committee(r) && !(from <= r < to) implies #[trigger]
            t.committee_map()[r] == s.committee_map()[r] by {
            assert(u.committee_map()[r] == s.committee_map()[r]);
        }
    }
}

/// Moving on to the next round keeps the invariant.
pub proof fn lemma_advanced_wf(s: StorageView)
    requires
        s.wf(),
        s.current_round < u64::MAX,
    ensures
        s.advanced().wf(),
        s.advanced().current_round == s.current_round + 1,
        s.advanced().max_gc_rounds == s.max_gc_rounds,
        s.advanced().gc_round == if s.next_gc_round() > s.gc_round {
            s.next_gc_round()
        } else {
            s.gc_round
        },
        s.advanced().has_committee(s.next_round()),
        s.advanced().committee_map()[s.next_round()] == s.committee_map()[s.current_round].next(),
{
    let next = s.next_round();
    let promoted = StorageView {
        current_round: next,
        committees: put(s.committees, next, s.committee_map()[s.current_round].next()),
        ..s
    };
    lemma_promoted_wf(s, promoted);
    lemma_put(s.committees, next, s.committee_map()[s.current_round].next());
    let next_gc = s.next_gc_round();
    if next_gc > s.gc_round {
        lemma_without_rounds_wf(promoted, s.gc_round, next_gc);
        let collected = promoted.without_rounds(s.gc_round, next_gc);
        assert forall|r: u64| #[trigger] collected.has_committee(r) implies next_gc <= r by {
            assert(promoted.has_committee(r));
            assert(promoted.committee_ok(r));
        }
        lemma_raised_gc_wf(collected, s.advanced(), next_gc);
        assert(collected.has_committee(next));
    }
}

} // verus!
