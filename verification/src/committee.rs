//! The validator set of one round, with stake weights and the quorum rule.
use vstd::prelude::*;
use std::collections::HashSet;
use crate::ordered::{has_key, key_pos, keys_distinct, lemma_push, lemma_put};

verus! {

/// The combined stake of those `members` whose address is in `authors`.
pub open spec fn stake_sum(members: Seq<(u64, u64)>, authors: Set<u64>) -> nat
    decreases members.len(),
{
    if members.len() == 0 {
        0
    } else {
        stake_sum(members.drop_last(), authors) + if authors.contains(members.last().0) {
            members.last().1 as nat
        } else {
            0
        }
    }
}

/// The stake needed for a quorum when the total stake is `total`: with
/// `total = 3f + 1 + k` and `0 <= k < 3` this is `2f + 1 + k`.
pub open spec fn quorum_of(total: nat) -> nat {
    2 * total / 3 + 1
}

/// What a committee is: its round and its members, each an address with
/// its stake.
pub struct CommitteeView {
    pub round: u64,
    pub members: Seq<(u64, u64)>,
}

impl CommitteeView {
    /// The round is not round 0, no address occurs twice, and the total
    /// stake fits in 64 bits.
    pub open spec fn wf(self) -> bool {
        &&& self.round >= 1
        &&& keys_distinct(self.members)
        &&& self.total_stake() <= u64::MAX
    }

    /// `address` is the address of a member.
    pub open spec fn is_member(self, address: u64) -> bool {
        has_key(self.members, address)
    }

    /// The combined stake of all members.
    pub open spec fn total_stake(self) -> nat {
        stake_sum(self.members, Set::full())
    }

    /// The stake that a quorum needs.
    pub open spec fn quorum_threshold(self) -> nat {
        quorum_of(self.total_stake())
    }

    /// The members among `authors` hold a quorum of the stake.
    pub open spec fn quorum_reached(self, authors: Set<u64>) -> bool {
        stake_sum(self.members, authors) >= self.quorum_threshold()
    }

    /// The same members, one round later.
    pub open spec fn next(self) -> CommitteeView {
        CommitteeView { round: (self.round + 1) as u64, members: self.members }
    }
}

/// No set of authors holds more than the total stake.
pub proof fn lemma_stake_sum_bounded(members: Seq<(u64, u64)>, authors: Set<u64>)
    ensures
        stake_sum(members, authors) <= stake_sum(members, Set::full()),
    decreases members.len(),
{
    if members.len() > 0 {
        lemma_stake_sum_bounded(members.drop_last(), authors);
    }
}

/// The first members hold no more stake than all members.
pub proof fn lemma_stake_sum_prefix(members: Seq<(u64, u64)>, authors: Set<u64>, n: int)
    requires
        0 <= n <= members.len(),
    ensures
        stake_sum(members.take(n), authors) <= stake_sum(members, authors),
    decreases members.len(),
{
    if n < members.len() {
        lemma_stake_sum_prefix(members.drop_last(), authors, n);
        assert(members.drop_last().take(n) == members.take(n));
    } else {
        assert(members.take(n) == members);
    }
}

proof fn lemma_stake_sum_step(members: Seq<(u64, u64)>, authors: Set<u64>, n: int)
    requires
        0 <= n < members.len(),
    ensures
        stake_sum(members.take(n + 1), authors) == stake_sum(members.take(n), authors) + if authors.contains(
            members[n].0,
        ) {
            members[n].1 as nat
        } else {
            0
        },
{
    assert(members.take(n + 1).drop_last() == members.take(n));
}

/// The validator set of one round.
#[derive(Debug, PartialEq, Eq)]
pub struct Committee {
    round: u64,
    members: Vec<(u64, u64)>,
}

impl View for Committee {
    type V = CommitteeView;

    closed spec fn view(&self) -> CommitteeView {
        CommitteeView { round: self.round, members: self.members@ }
    }
}

/// Whether two entries of `members` have the same address.
fn has_repeated_address(members: &Vec<(u64, u64)>) -> (found: bool)
    ensures
        found == !keys_distinct(members@),
{
    let mut seen: HashSet<u64> = HashSet::new();
    let mut i: usize = 0;
    while i < members.len()
        invariant
            i <= members.len(),
            keys_distinct(members@.take(i as int)),
            forall|a: u64| seen@.contains(a) <==> has_key(members@.take(i as int), a),
        decreases members.len() - i,
    {
        let address = members[i].0;
        let ghost before = members@.take(i as int);
        let ghost after = members@.take(i as int + 1);
        proof {
            assert(after == before.push(members@[i as int]));
        }
        if seen.contains(&address) {
            proof {
                let j = key_pos(before, address);
                assert(members@[j].0 == members@[i as int].0);
            }
            return true;
        }
        seen.insert(address);
        proof {
            lemma_push(before, address, members@[i as int].1);
            lemma_put(before, address, members@[i as int].1);
        }
        i += 1;
    }
    proof {
        assert(members@.take(members.len() as int) == members@);
    }
    false
}

/// The total stake of `members`, unless it exceeds `u64::MAX`.
fn checked_total(members: &Vec<(u64, u64)>) -> (total: Option<u64>)
    ensures
        total is Some <==> stake_sum(members@, Set::full()) <= u64::MAX,
        total matches Some(t) ==> t == stake_sum(members@, Set::full()),
{
    let mut sum: u64 = 0;
    let mut i: usize = 0;
    while i < members.len()
        invariant
            i <= members.len(),
            sum == stake_sum(members@.take(i as int), Set::full()),
        decreases members.len() - i,
    {
        let stake = members[i].1;
        proof {
            lemma_stake_sum_step(members@, Set::full(), i as int);
        }
        if stake > u64::MAX - sum {
            proof {
                lemma_stake_sum_prefix(members@, Set::full(), i as int + 1);
            }
            return None;
        }
        sum = sum + stake;
        i += 1;
    }
    proof {
        assert(members@.take(members.len() as int) == members@);
    }
    Some(sum)
}

impl Committee {
    #[verifier::type_invariant]
    spec fn inv(self) -> bool {
        &&& self.round >= 1
        &&& keys_distinct(self.members@)
        &&& stake_sum(self.members@, Set::full()) <= u64::MAX
    }

    /// Builds the committee of `round` from `(address, stake)` pairs. The
    /// round must not be zero, no address may occur twice and the total
    /// stake must fit in 64 bits.
    pub fn new(round: u64, members: Vec<(u64, u64)>) -> (committee: Option<Committee>)
        ensures
            committee is Some <==> (CommitteeView { round, members: members@ }).wf(),
            committee matches Some(c) ==> c@ == (CommitteeView { round, members: members@ }),
    {
        if round == 0 {
            return None;
        }
        if has_repeated_address(&members) {
            return None;
        }
        if checked_total(&members).is_none() {
            return None;
        }
        Some(Committee { round, members })
    }

    /// Returns the round of the committee.
    pub fn round(&self) -> (round: u64)
        ensures
            round == self@.round,
            self@.wf(),
    {
        proof {
            use_type_invariant(self);
        }
        self.round
    }

    /// The members, each an address with its stake.
    pub fn members(&self) -> (members: &Vec<(u64, u64)>)
        ensures
            members@ == self@.members,
    {
        &self.members
    }

    /// Returns the number of members.
    pub fn num_members(&self) -> (n: usize)
        ensures
            n == self@.members.len(),
    {
        self.members.len()
    }

    /// Returns `true` if `address` is the address of a member.
    pub fn is_committee_member(&self, address: u64) -> (member: bool)
        ensures
            member == self@.is_member(address),
    {
        let mut i: usize = 0;
        while i < self.members.len()
            invariant
                i <= self.members.len(),
                !has_key(self.members@.take(i as int), address),
            decreases self.members.len() - i,
        {
            if self.members[i].0 == address {
                return true;
            }
            proof {
                let before = self.members@.take(i as int);
                let after = self.members@.take(i as int + 1);
                assert(after == before.push(self.members@[i as int]));
                if has_key(after, address) {
                    let j = key_pos(after, address);
                    if j < i {
                        assert(before[j].0 == address);
                    }
                }
            }
            i += 1;
        }
        proof {
            assert(self.members@.take(self.members.len() as int) == self.members@);
        }
        false
    }

    /// Returns the combined stake of all members.
    pub fn total_stake(&self) -> (total: u64)
        ensures
            total == self@.total_stake(),
    {
        proof {
            use_type_invariant(self);
        }
        match checked_total(&self.members) {
            Some(total) => total,
            None => 0,
        }
    }

    /// The stake that a set of authors must hold together to form a quorum.
    pub fn quorum_threshold(&self) -> (threshold: u64)
        ensures
            threshold == self@.quorum_threshold(),
    {
        let total = self.total_stake();
        if total == 0 {
            1
        } else {
            total - (total - 1) / 3
        }
    }

    /// Whether the members among `authors` hold a quorum of the stake.
    pub fn is_quorum_threshold_reached(&self, authors: &HashSet<u64>) -> (reached: bool)
        ensures
            reached == self@.quorum_reached(authors@),
    {
        proof {
            use_type_invariant(self);
        }
        let threshold = self.quorum_threshold();
        let mut sum: u64 = 0;
        let mut i: usize = 0;
        while i < self.members.len()
            invariant
                i <= self.members.len(),
                sum == stake_sum(self.members@.take(i as int), authors@),
                stake_sum(self.members@, Set::full()) <= u64::MAX,
            decreases self.members.len() - i,
        {
            let member = self.members[i];
            proof {
                lemma_stake_sum_step(self.members@, authors@, i as int);
                lemma_stake_sum_prefix(self.members@, authors@, i as int + 1);
                lemma_stake_sum_bounded(self.members@, authors@);
            }
            if authors.contains(&member.0) {
                sum = sum + member.1;
            }
            i += 1;
        }
        proof {
            assert(self.members@.take(self.members.len() as int) == self.members@);
        }
        sum >= threshold
    }

    /// The committee of the following round: the same members.
    pub fn to_next_round(&self) -> (next: Committee)
        requires
            self@.round < u64::MAX,
        ensures
            next@ == self@.next(),
    {
        proof {
            use_type_invariant(self);
        }
        let copy = self.clone();
        Committee { round: self.round + 1, members: copy.members }
    }
}

impl Clone for Committee {
    fn clone(&self) -> (copy: Self)
        ensures
            copy@ == self@,
    {
        proof {
            use_type_invariant(self);
        }
        let mut members: Vec<(u64, u64)> = Vec::new();
        let mut i: usize = 0;
        while i < self.members.len()
            invariant
                i <= self.members.len(),
                members@ == self.members@.take(i as int),
            decreases self.members.len() - i,
        {
            let member = self.members[i];
            members.push((member.0, member.1));
            proof {
                assert(self.members@.take(i as int + 1) == self.members@.take(i as int).push(
                    self.members@[i as int],
                ));
            }
            i += 1;
        }
        proof {
            assert(self.members@.take(self.members.len() as int) == self.members@);
        }
        Committee { round: self.round, members }
    }
}

} // verus!
