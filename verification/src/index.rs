//! The insertion-ordered collections of the `indexmap` crate, as the store
//! uses them.
//!
//! Nothing in this file is proved. Each collection type gets a name for
//! what it holds, in iteration order, and each method that the store calls
//! gets a wrapper whose contract restates the method's documentation over
//! those names and the model of [`crate::ordered`].
use vstd::prelude::*;
use indexmap::IndexMap;
use indexmap::IndexSet;
use crate::committee::{Committee, CommitteeView};
use crate::ordered::{del, has_key, lookup, put, with_item, without_item};
use crate::types::{BatchCertificate, BatchCertificateView, Transmission, TransmissionView};

verus! {

/// `indexmap::IndexMap`, a hash map that iterates in insertion order. The
/// verifier sees nothing inside a value of it.
#[verifier::external_type_specification]
#[verifier::external_body]
#[verifier::reject_recursive_types(K)]
#[verifier::reject_recursive_types(V)]
#[verifier::reject_recursive_types(S)]
pub struct ExIndexMap<K, V, S>(IndexMap<K, V, S>);

/// `indexmap::IndexSet`, a hash set that iterates in insertion order. The
/// verifier sees nothing inside a value of it.
#[verifier::external_type_specification]
#[verifier::external_body]
#[verifier::reject_recursive_types(T)]
#[verifier::reject_recursive_types(S)]
pub struct ExIndexSet<T, S>(IndexSet<T, S>);

/// The items of a set of certificate descriptors `(certificate id, batch
/// id, author)`, in iteration order.
pub uninterp spec fn descriptor_items(s: IndexSet<(u64, u64, u64)>) -> Seq<(u64, u64, u64)>;

/// The items of a set of ids, in iteration order.
pub uninterp spec fn id_items(s: IndexSet<u64>) -> Seq<u64>;

/// The entries of a map from round to committee, in iteration order.
pub uninterp spec fn committee_entries(m: IndexMap<u64, Committee>) -> Seq<(u64, CommitteeView)>;

/// The entries of a map from round to descriptor set, in iteration order.
pub uninterp spec fn round_entries(m: IndexMap<u64, IndexSet<(u64, u64, u64)>>) -> Seq<
    (u64, Seq<(u64, u64, u64)>),
>;

/// The entries of a map from certificate id to certificate, in iteration order.
pub uninterp spec fn certificate_entries(m: IndexMap<u64, BatchCertificate>) -> Seq<
    (u64, BatchCertificateView),
>;

/// The entries of a map from batch id to round, in iteration order.
pub uninterp spec fn batch_entries(m: IndexMap<u64, u64>) -> Seq<(u64, u64)>;

/// The entries of a map from transmission id to the transmission and the
/// ids of the certificates that reference it, in iteration order.
pub uninterp spec fn transmission_entries(m: IndexMap<u64, (Transmission, IndexSet<u64>)>) -> Seq<
    (u64, (TransmissionView, Seq<u64>)),
>;

/// An entry of the committee index, by what it is.
pub open spec fn committee_entry_view(e: (u64, Committee)) -> (u64, CommitteeView) {
    (e.0, e.1@)
}

/// An entry of the round index, by what it is.
pub open spec fn round_entry_view(e: (u64, Vec<(u64, u64, u64)>)) -> (u64, Seq<(u64, u64, u64)>) {
    (e.0, e.1@)
}

/// An entry of the certificate index, by what it is.
pub open spec fn certificate_entry_view(e: (u64, BatchCertificate)) -> (u64, BatchCertificateView) {
    (e.0, e.1@)
}

/// A value of the transmission index, by what it is.
pub open spec fn transmission_value_view(v: (Transmission, IndexSet<u64>)) -> (
    TransmissionView,
    Seq<u64>,
) {
    (v.0@, id_items(v.1))
}

/// An entry of the transmission index, by what it is.
pub open spec fn transmission_entry_view(e: (u64, (Transmission, Vec<u64>))) -> (
    u64,
    (TransmissionView, Seq<u64>),
) {
    (e.0, (e.1.0@, e.1.1@))
}

// ---------------------------------------------------------------------
// Sets of certificate descriptors.
// ---------------------------------------------------------------------
/// `IndexSet::new`: the new set is empty.
#[verifier::external_body]
pub(crate) fn descriptor_set_new() -> (s: IndexSet<(u64, u64, u64)>)
    ensures
        descriptor_items(s) == Seq::<(u64, u64, u64)>::empty(),
{
    IndexSet::new()
}

/// `IndexSet::insert`: an item that is present stays where it is; a new
/// item becomes the last.
#[verifier::external_body]
pub(crate) fn descriptor_set_insert(s: &mut IndexSet<(u64, u64, u64)>, x: (u64, u64, u64))
    ensures
        descriptor_items(*final(s)) == with_item(descriptor_items(*old(s)), x),
{
    s.insert(x);
}

/// `IndexSet::shift_remove`: the item leaves and the others keep their
/// relative order.
#[verifier::external_body]
pub(crate) fn descriptor_set_remove(s: &mut IndexSet<(u64, u64, u64)>, x: (u64, u64, u64))
    ensures
        descriptor_items(*final(s)) == without_item(descriptor_items(*old(s)), x),
{
    s.shift_remove(&x);
}

/// `IndexSet::is_empty`.
#[verifier::external_body]
pub(crate) fn descriptor_set_is_empty(s: &IndexSet<(u64, u64, u64)>) -> (empty: bool)
    ensures
        empty == (descriptor_items(*s).len() == 0),
{
    s.is_empty()
}

/// `IndexSet::iter`: the items in their order.
#[verifier::external_body]
pub(crate) fn descriptor_set_to_vec(s: &IndexSet<(u64, u64, u64)>) -> (items: Vec<(u64, u64, u64)>)
    ensures
        items@ == descriptor_items(*s),
{
    s.iter().copied().collect()
}

// ---------------------------------------------------------------------
// Sets of ids.
// ---------------------------------------------------------------------
/// `IndexSet::new`: the new set is empty.
#[verifier::external_body]
pub(crate) fn id_set_new() -> (s: IndexSet<u64>)
    ensures
        id_items(s) == Seq::<u64>::empty(),
{
    IndexSet::new()
}

/// `IndexSet::insert`: an item that is present stays where it is; a new
/// item becomes the last.
#[verifier::external_body]
pub(crate) fn id_set_insert(s: &mut IndexSet<u64>, x: u64)
    ensures
        id_items(*final(s)) == with_item(id_items(*old(s)), x),
{
    s.insert(x);
}

/// `IndexSet::shift_remove`: the item leaves and the others keep their
/// relative order.
#[verifier::external_body]
pub(crate) fn id_set_remove(s: &mut IndexSet<u64>, x: u64)
    ensures
        id_items(*final(s)) == without_item(id_items(*old(s)), x),
{
    s.shift_remove(&x);
}

/// `IndexSet::is_empty`.
#[verifier::external_body]
pub(crate) fn id_set_is_empty(s: &IndexSet<u64>) -> (empty: bool)
    ensures
        empty == (id_items(*s).len() == 0),
{
    s.is_empty()
}

// ---------------------------------------------------------------------
// Round -> committee.
// ---------------------------------------------------------------------
/// `IndexMap::new`: the new map is empty.
#[verifier::external_body]
pub(crate) fn committee_index_new() -> (m: IndexMap<u64, Committee>)
    ensures
        committee_entries(m) == Seq::<(u64, CommitteeView)>::empty(),
{
    IndexMap::new()
}

/// `IndexMap::get`: the value stored under the key, if any.
#[verifier::external_body]
pub(crate) fn committee_index_get(m: &IndexMap<u64, Committee>, k: u64) -> (v: Option<&Committee>)
    ensures
        match v {
            Some(c) => lookup(committee_entries(*m), k) == Some(c@),
            None => !has_key(committee_entries(*m), k),
        },
{
    m.get(&k)
}

/// `IndexMap::insert`: a present key keeps its place and gets the new
/// value; a new key becomes the last entry.
#[verifier::external_body]
pub(crate) fn committee_index_insert(m: &mut IndexMap<u64, Committee>, k: u64, v: Committee)
    ensures
        committee_entries(*final(m)) == put(committee_entries(*old(m)), k, v@),
{
    m.insert(k, v);
}

/// `IndexMap::shift_remove`: the entry leaves and the others keep their
/// relative order.
#[verifier::external_body]
pub(crate) fn committee_index_remove(m: &mut IndexMap<u64, Committee>, k: u64)
    ensures
        committee_entries(*final(m)) == del(committee_entries(*old(m)), k),
{
    m.shift_remove(&k);
}

/// `IndexMap::iter`: copies of the entries in their order.
#[verifier::external_body]
pub(crate) fn committee_index_to_vec(m: &IndexMap<u64, Committee>) -> (entries: Vec<
    (u64, Committee),
>)
    ensures
        entries@.map_values(|e: (u64, Committee)| committee_entry_view(e)) == committee_entries(*m),
{
    m.iter().map(|(k, v)| (*k, v.clone())).collect()
}

// ---------------------------------------------------------------------
// Round -> descriptors of the round's certificates.
// ---------------------------------------------------------------------
/// `IndexMap::new`: the new map is empty.
#[verifier::external_body]
pub(crate) fn round_index_new() -> (m: IndexMap<u64, IndexSet<(u64, u64, u64)>>)
    ensures
        round_entries(m) == Seq::<(u64, Seq<(u64, u64, u64)>)>::empty(),
{
    IndexMap::new()
}

/// `IndexMap::get`: the value stored under the key, if any.
#[verifier::external_body]
pub(crate) fn round_index_get(m: &IndexMap<u64, IndexSet<(u64, u64, u64)>>, k: u64) -> (v: Option<
    &IndexSet<(u64, u64, u64)>,
>)
    ensures
        match v {
            Some(s) => lookup(round_entries(*m), k) == Some(descriptor_items(*s)),
            None => !has_key(round_entries(*m), k),
        },
{
    m.get(&k)
}

/// `IndexMap::get_mut`: the value stored under the key, if any, to be
/// changed in place; all other entries and the order stay as they are.
#[verifier::external_body]
pub(crate) fn round_index_get_mut(m: &mut IndexMap<u64, IndexSet<(u64, u64, u64)>>, k: u64) -> (v:
    Option<&mut IndexSet<(u64, u64, u64)>>)
    ensures
        match v {
            Some(s) => lookup(round_entries(*old(m)), k) == Some(descriptor_items(*s))
                && round_entries(*final(m)) == put(
                round_entries(*old(m)),
                k,
                descriptor_items(*final(s)),
            ),
            None => !has_key(round_entries(*old(m)), k) && round_entries(*final(m))
                == round_entries(*old(m)),
        },
{
    m.get_mut(&k)
}

/// `IndexMap::insert`: a present key keeps its place and gets the new
/// value; a new key becomes the last entry.
#[verifier::external_body]
pub(crate) fn round_index_insert(
    m: &mut IndexMap<u64, IndexSet<(u64, u64, u64)>>,
    k: u64,
    v: IndexSet<(u64, u64, u64)>,
)
    ensures
        round_entries(*final(m)) == put(round_entries(*old(m)), k, descriptor_items(v)),
{
    m.insert(k, v);
}

/// `IndexMap::shift_remove`: the entry leaves and the others keep their
/// relative order.
#[verifier::external_body]
pub(crate) fn round_index_remove(m: &mut IndexMap<u64, IndexSet<(u64, u64, u64)>>, k: u64)
    ensures
        round_entries(*final(m)) == del(round_entries(*old(m)), k),
{
    m.shift_remove(&k);
}

/// `IndexMap::iter` and, for each value, `IndexSet::iter`: copies of the
/// entries in their order, each set as the list of its items in their order.
#[verifier::external_body]
pub(crate) fn round_index_to_vec(m: &IndexMap<u64, IndexSet<(u64, u64, u64)>>) -> (entries: Vec<
    (u64, Vec<(u64, u64, u64)>),
>)
    ensures
        entries@.map_values(|e: (u64, Vec<(u64, u64, u64)>)| round_entry_view(e)) == round_entries(
            *m,
        ),
{
    m.iter().map(|(k, v)| (*k, v.iter().copied().collect())).collect()
}

// ---------------------------------------------------------------------
// Certificate id -> certificate.
// ---------------------------------------------------------------------
/// `IndexMap::new`: the new map is empty.
#[verifier::external_body]
pub(crate) fn certificate_index_new() -> (m: IndexMap<u64, BatchCertificate>)
    ensures
        certificate_entries(m) == Seq::<(u64, BatchCertificateView)>::empty(),
{
    IndexMap::new()
}

/// `IndexMap::get`: the value stored under the key, if any.
#[verifier::external_body]
pub(crate) fn certificate_index_get(m: &IndexMap<u64, BatchCertificate>, k: u64) -> (v: Option<
    &BatchCertificate,
>)
    ensures
        match v {
            Some(c) => lookup(certificate_entries(*m), k) == Some(c@),
            None => !has_key(certificate_entries(*m), k),
        },
{
    m.get(&k)
}

/// `IndexMap::insert`: a present key keeps its place and gets the new
/// value; a new key becomes the last entry.
#[verifier::external_body]
pub(crate) fn certificate_index_insert(
    m: &mut IndexMap<u64, BatchCertificate>,
    k: u64,
    v: BatchCertificate,
)
    ensures
        certificate_entries(*final(m)) == put(certificate_entries(*old(m)), k, v@),
{
    m.insert(k, v);
}

/// `IndexMap::shift_remove`: the entry leaves and the others keep their
/// relative order.
#[verifier::external_body]
pub(crate) fn certificate_index_remove(m: &mut IndexMap<u64, BatchCertificate>, k: u64)
    ensures
        certificate_entries(*final(m)) == del(certificate_entries(*old(m)), k),
{
    m.shift_remove(&k);
}

/// `IndexMap::iter`: copies of the entries in their order.
#[verifier::external_body]
pub(crate) fn certificate_index_to_vec(m: &IndexMap<u64, BatchCertificate>) -> (entries: Vec<
    (u64, BatchCertificate),
>)
    ensures
        entries@.map_values(|e: (u64, BatchCertificate)| certificate_entry_view(e))
            == certificate_entries(*m),
{
    m.iter().map(|(k, v)| (*k, v.clone())).collect()
}

// ---------------------------------------------------------------------
// Batch id -> round.
// ---------------------------------------------------------------------
/// `IndexMap::new`: the new map is empty.
#[verifier::external_body]
pub(crate) fn batch_index_new() -> (m: IndexMap<u64, u64>)
    ensures
        batch_entries(m) == Seq::<(u64, u64)>::empty(),
{
    IndexMap::new()
}

/// `IndexMap::get`: the value stored under the key, if any.
#[verifier::external_body]
pub(crate) fn batch_index_get(m: &IndexMap<u64, u64>, k: u64) -> (v: Option<u64>)
    ensures
        v == lookup(batch_entries(*m), k),
{
    m.get(&k).copied()
}

/// `IndexMap::insert`: a present key keeps its place and gets the new
/// value; a new key becomes the last entry.
#[verifier::external_body]
pub(crate) fn batch_index_insert(m: &mut IndexMap<u64, u64>, k: u64, v: u64)
    ensures
        batch_entries(*final(m)) == put(batch_entries(*old(m)), k, v),
{
    m.insert(k, v);
}

/// `IndexMap::shift_remove`: the entry leaves and the others keep their
/// relative order.
#[verifier::external_body]
pub(crate) fn batch_index_remove(m: &mut IndexMap<u64, u64>, k: u64)
    ensures
        batch_entries(*final(m)) == del(batch_entries(*old(m)), k),
{
    m.shift_remove(&k);
}

/// `IndexMap::iter`: copies of the entries in their order.
#[verifier::external_body]
pub(crate) fn batch_index_to_vec(m: &IndexMap<u64, u64>) -> (entries: Vec<(u64, u64)>)
    ensures
        entries@ == batch_entries(*m),
{
    m.iter().map(|(k, v)| (*k, *v)).collect()
}

// ---------------------------------------------------------------------
// Transmission id -> (transmission, ids of the referencing certificates).
// ---------------------------------------------------------------------
/// `IndexMap::new`: the new map is empty.
#[verifier::external_body]
pub(crate) fn transmission_index_new() -> (m: IndexMap<u64, (Transmission, IndexSet<u64>)>)
    ensures
        transmission_entries(m) == Seq::<(u64, (TransmissionView, Seq<u64>))>::empty(),
{
    IndexMap::new()
}

/// `IndexMap::get`: the value stored under the key, if any.
#[verifier::external_body]
pub(crate) fn transmission_index_get(m: &IndexMap<u64, (Transmission, IndexSet<u64>)>, k: u64) -> (v:
    Option<&(Transmission, IndexSet<u64>)>)
    ensures
        match v {
            Some(e) => lookup(transmission_entries(*m), k) == Some(transmission_value_view(*e)),
            None => !has_key(transmission_entries(*m), k),
        },
{
    m.get(&k)
}

/// `IndexMap::get_mut`: the value stored under the key, if any, to be
/// changed in place; all other entries and the order stay as they are.
#[verifier::external_body]
pub(crate) fn transmission_index_get_mut(
    m: &mut IndexMap<u64, (Transmission, IndexSet<u64>)>,
    k: u64,
) -> (v: Option<&mut (Transmission, IndexSet<u64>)>)
    ensures
        match v {
            Some(e) => lookup(transmission_entries(*old(m)), k) == Some(
                transmission_value_view(*e),
            ) && transmission_entries(*final(m)) == put(
                transmission_entries(*old(m)),
                k,
                transmission_value_view(*final(e)),
            ),
            None => !has_key(transmission_entries(*old(m)), k) && transmission_entries(*final(m))
                == transmission_entries(*old(m)),
        },
{
    m.get_mut(&k)
}

/// `IndexMap::insert`: a present key keeps its place and gets the new
/// value; a new key becomes the last entry.
#[verifier::external_body]
pub(crate) fn transmission_index_insert(
    m: &mut IndexMap<u64, (Transmission, IndexSet<u64>)>,
    k: u64,
    v: (Transmission, IndexSet<u64>),
)
    ensures
        transmission_entries(*final(m)) == put(
            transmission_entries(*old(m)),
            k,
            transmission_value_view(v),
        ),
{
    m.insert(k, v);
}

/// `IndexMap::shift_remove`: the entry leaves and the others keep their
/// relative order.
#[verifier::external_body]
pub(crate) fn transmission_index_remove(m: &mut IndexMap<u64, (Transmission, IndexSet<u64>)>, k: u64)
    ensures
        transmission_entries(*final(m)) == del(transmission_entries(*old(m)), k),
{
    m.shift_remove(&k);
}

/// `IndexMap::iter` and, for each value, `IndexSet::iter`: copies of the
/// entries in their order, each set as the list of its items in their order.
#[verifier::external_body]
pub(crate) fn transmission_index_to_vec(m: &IndexMap<u64, (Transmission, IndexSet<u64>)>) -> (entries:
    Vec<(u64, (Transmission, Vec<u64>))>)
    ensures
        entries@.map_values(|e: (u64, (Transmission, Vec<u64>))| transmission_entry_view(e))
            == transmission_entries(*m),
{
    m.iter().map(|(k, v)| (*k, (v.0.clone(), v.1.iter().copied().collect()))).collect()
}

} // verus!
