//! The scan pipeline: validated input drives an address enumeration whose
//! per-address reachability outcomes, reported by the caller, are
//! aggregated into a [`ScanResult`].
//!
//! Probing itself is external work (an echo request per address), so the
//! scanner is a state machine: the caller asks for the next address to
//! probe, performs the probe, and records the outcome, in enumeration
//! order. A concurrent caller may instead collect outcomes in completion
//! order and rebuild the same aggregate with [`assemble_result`].

use vstd::prelude::*;
use vstd::relations::sorted_by;
use vstd::relations::total_ordering;
use vstd::seq_lib::lemma_sorted_unique;

use crate::descriptor::ScanError;
use crate::space::AddressSpace;
use crate::validator::spec_validate;
use crate::validator::validate_ip_cidr;

verus! {

/// How a single address is probed: the number of echo attempts whose
/// replies are all expected back.
#[derive(Clone, Copy, Debug, PartialEq, Eq, Structural)]
pub struct ProbeConfig {
    pub probe_count: u64,
}

impl Default for ProbeConfig {
    /// One echo attempt per address.
    fn default() -> (r: Self)
        ensures
            r.probe_count == 1,
    {
        ProbeConfig { probe_count: 1 }
    }
}

/// The outcome of probing one address.
#[derive(Clone, Copy, Debug, PartialEq, Eq, Structural)]
pub struct ProbeOutcome {
    pub address: u32,
    pub reachable: bool,
}

/// Classifies what the external echo mechanism reported: the address is
/// reachable exactly when every expected reply was received.
pub fn classify_probe(address: u32, replies_received: u64, config: ProbeConfig) -> (r:
    ProbeOutcome)
    ensures
        r.address == address,
        r.reachable == (replies_received == config.probe_count),
{
    ProbeOutcome { address, reachable: replies_received == config.probe_count }
}

/// The aggregate of a finished scan.
pub struct ScanResult {
    pub total_probed: u64,
    pub reachable_addresses: Vec<u32>,
    pub unreachable_count: u64,
}

/// The reachable addresses of `space` in enumeration order, when `flags[i]`
/// says whether the address at host offset `i` was reported reachable.
pub open spec fn reachable_seq(space: AddressSpace, flags: Seq<bool>) -> Seq<u32>
    decreases flags.len(),
{
    if flags.len() == 0 {
        Seq::empty()
    } else {
        let pre = reachable_seq(space, flags.drop_last());
        if flags.last() {
            pre.push(space.spec_address_at((flags.len() - 1) as u64))
        } else {
            pre
        }
    }
}

pub proof fn lemma_reachable_seq_len(space: AddressSpace, flags: Seq<bool>)
    ensures
        reachable_seq(space, flags).len() <= flags.len(),
    decreases flags.len(),
{
    if flags.len() > 0 {
        lemma_reachable_seq_len(space, flags.drop_last());
    }
}

/// Ascending order on a sequence of addresses.
pub open spec fn addrs_sorted(s: Seq<u32>) -> bool {
    forall|i: int, j: int| 0 <= i < j < s.len() ==> s[i] <= s[j]
}

/// Every element lies below `bound`.
pub open spec fn all_below(s: Seq<u32>, bound: int) -> bool {
    forall|k: int| 0 <= k < s.len() ==> (#[trigger] s[k]) < bound
}

/// The sequential reachable list comes out in ascending address order,
/// because enumeration ascends by host offset.
pub proof fn lemma_reachable_seq_sorted(space: AddressSpace, flags: Seq<bool>)
    requires
        space.wf(),
        flags.len() <= space.spec_count(),
    ensures
        addrs_sorted(reachable_seq(space, flags)),
        all_below(reachable_seq(space, flags), space.network_base() + flags.len()),
    decreases flags.len(),
{
    if flags.len() > 0 {
        lemma_reachable_seq_sorted(space, flags.drop_last());
        if flags.last() {
            space.lemma_address_at_offset((flags.len() - 1) as u64);
        }
    }
}

/// The linear scan: validated input, then one outcome per address in
/// enumeration order, then the aggregate.
pub struct Scanner {
    pub space: AddressSpace,
    pub next_offset: u64,
    pub total_probed: u64,
    pub reachable: Vec<u32>,
    pub outcomes: Ghost<Seq<bool>>,
}

impl Scanner {
    /// All counters agree with the outcomes recorded so far, and the
    /// reachable list is exactly the reachable part of the enumeration.
    pub open spec fn wf(self) -> bool {
        &&& self.space.wf()
        &&& self.outcomes@.len() == self.next_offset
        &&& self.next_offset <= self.space.spec_count()
        &&& self.total_probed == self.next_offset
        &&& self.reachable@ == reachable_seq(self.space, self.outcomes@)
    }

    /// Validates the raw input; on success the scan starts with nothing
    /// probed yet, on failure nothing is enumerated or probed.
    pub fn new(raw_input: &str) -> (r: Result<Scanner, ScanError>)
        ensures
            spec_validate(raw_input@) matches Err(e) ==> r matches Err(s) && s
                == ScanError::Validation(e),
            spec_validate(raw_input@) matches Ok(d) ==> r matches Ok(s) && s.wf()
                && s.space.descriptor == d && s.next_offset == 0 && s.total_probed == 0
                && s.outcomes@ =~= Seq::<bool>::empty(),
    {
        let descriptor = match validate_ip_cidr(raw_input) {
            Ok(d) => d,
            Err(e) => {
                return Err(ScanError::Validation(e));
            },
        };
        let space = AddressSpace::new(descriptor);
        Ok(
            Scanner {
                space,
                next_offset: 0,
                total_probed: 0,
                reachable: Vec::new(),
                outcomes: Ghost(Seq::empty()),
            },
        )
    }

    /// The address to probe next, `None` once the enumeration is spent.
    pub fn next_to_probe(&self) -> (r: Option<u32>)
        requires
            self.wf(),
        ensures
            r is Some <==> self.next_offset < self.space.spec_count(),
            r matches Some(a) ==> a == self.space.spec_address_at(self.next_offset),
    {
        if self.next_offset < self.space.count() {
            Some(self.space.address_at(self.next_offset))
        } else {
            None
        }
    }

    pub fn is_done(&self) -> (r: bool)
        requires
            self.wf(),
        ensures
            r == (self.next_offset == self.space.spec_count()),
    {
        self.next_offset == self.space.count()
    }

    /// Records the outcome of the probe of the current address: the total
    /// advances by one, and the address joins the reachable list exactly
    /// when it was reported reachable.
    pub fn record_outcome(&mut self, outcome: ProbeOutcome)
        requires
            old(self).wf(),
            old(self).next_offset < old(self).space.spec_count(),
            outcome.address == old(self).space.spec_address_at(old(self).next_offset),
        ensures
            final(self).wf(),
            final(self).space == old(self).space,
            final(self).next_offset == old(self).next_offset + 1,
            final(self).total_probed == old(self).total_probed + 1,
            final(self).outcomes@ == old(self).outcomes@.push(outcome.reachable),
    {
        let ghost flags = self.outcomes@;
        self.next_offset = self.next_offset + 1;
        self.total_probed = self.total_probed + 1;
        if outcome.reachable {
            self.reachable.push(outcome.address);
        }
        proof {
            self.outcomes@ = flags.push(outcome.reachable);
            assert(flags.push(outcome.reachable).drop_last() =~= flags);
        }
    }

    /// Finalizes the aggregate once every address has been probed.
    pub fn finish(self) -> (r: ScanResult)
        requires
            self.wf(),
            self.next_offset == self.space.spec_count(),
        ensures
            r.total_probed == self.space.spec_count(),
            r.reachable_addresses@ == reachable_seq(self.space, self.outcomes@),
            r.unreachable_count == r.total_probed - r.reachable_addresses@.len(),
    {
        proof {
            lemma_reachable_seq_len(self.space, self.outcomes@);
        }
        let len = self.reachable.len() as u64;
        ScanResult {
            total_probed: self.total_probed,
            unreachable_count: self.total_probed - len,
            reachable_addresses: self.reachable,
        }
    }
}

/// Determinism of aggregation: two scans of the same space whose recorded
/// outcomes agree hold identical counters and reachable lists, whatever
/// else differed between the two runs.
pub proof fn lemma_scan_deterministic(s1: Scanner, s2: Scanner)
    requires
        s1.wf(),
        s2.wf(),
        s1.space == s2.space,
        s1.outcomes@ == s2.outcomes@,
    ensures
        s1.total_probed == s2.total_probed,
        s1.next_offset == s2.next_offset,
        s1.reachable@ == s2.reachable@,
{
}

/// Inserts `x` into an ascending vector, keeping it ascending.
fn insert_sorted(v: &mut Vec<u32>, x: u32)
    requires
        addrs_sorted(old(v)@),
    ensures
        addrs_sorted(final(v)@),
        final(v)@.to_multiset() == old(v)@.to_multiset().insert(x),
        final(v)@.len() == old(v)@.len() + 1,
{
    let mut j: usize = 0;
    while j < v.len() && v[j] <= x
        invariant
            j <= v@.len(),
            v@ == old(v)@,
            forall|k: int| 0 <= k < j ==> v@[k] <= x,
        decreases v@.len() - j,
    {
        j += 1;
    }
    proof {
        old(v)@.insert_ensures(j as int, x);
        broadcast use vstd::seq_lib::to_multiset_insert;

    }
    v.insert(j, x);
    proof {
        assert forall|a: int, b: int| 0 <= a < b < v@.len() implies v@[a] <= v@[b] by {
            if b < j {
            } else if a < j && b == j {
            } else if a == j {
                assert(v@[b] == old(v)@[b - 1]);
                assert(old(v)@[j as int] <= old(v)@[b - 1]);
            } else if a > j {
                assert(v@[a] == old(v)@[a - 1]);
                assert(v@[b] == old(v)@[b - 1]);
            } else {
                assert(v@[b] == old(v)@[b - 1]);
                assert(old(v)@[j as int] <= old(v)@[b - 1]);
            }
        }
    }
}

/// Sorts addresses ascending; the multiset of addresses is kept.
pub fn sort_addresses(v: &Vec<u32>) -> (r: Vec<u32>)
    ensures
        addrs_sorted(r@),
        r@.to_multiset() == v@.to_multiset(),
        r@.len() == v@.len(),
{
    let mut r: Vec<u32> = Vec::new();
    let mut i: usize = 0;
    proof {
        assert(r@ =~= v@.take(0));
    }
    while i < v.len()
        invariant
            i <= v@.len(),
            addrs_sorted(r@),
            r@.len() == i,
            r@.to_multiset() == v@.take(i as int).to_multiset(),
        decreases v@.len() - i,
    {
        insert_sorted(&mut r, v[i]);
        proof {
            broadcast use vstd::seq_lib::to_multiset_build;

            assert(v@.take(i + 1) =~= v@.take(i as int).push(v@[i as int]));
        }
        i += 1;
    }
    proof {
        assert(v@.take(v@.len() as int) =~= v@);
    }
    r
}

/// Rebuilds the aggregate from outcomes that completed in any order: the
/// reachable addresses are sorted back into ascending enumeration order.
pub fn assemble_result(total_probed: u64, reachable_unordered: &Vec<u32>) -> (r: ScanResult)
    requires
        reachable_unordered@.len() <= total_probed,
    ensures
        r.total_probed == total_probed,
        addrs_sorted(r.reachable_addresses@),
        r.reachable_addresses@.to_multiset() == reachable_unordered@.to_multiset(),
        r.unreachable_count == total_probed - r.reachable_addresses@.len(),
{
    let sorted = sort_addresses(reachable_unordered);
    let len = sorted.len() as u64;
    ScanResult {
        total_probed,
        unreachable_count: total_probed - len,
        reachable_addresses: sorted,
    }
}

/// Agreement of a concurrent scan with the sequential one: outcomes
/// collected in any completion order, once sorted ascending, are exactly
/// the sequential reachable list.
pub proof fn lemma_unordered_agrees(space: AddressSpace, flags: Seq<bool>, collected: Seq<u32>)
    requires
        space.wf(),
        flags.len() <= space.spec_count(),
        addrs_sorted(collected),
        collected.to_multiset() == reachable_seq(space, flags).to_multiset(),
    ensures
        collected == reachable_seq(space, flags),
{
    let leq = |x: u32, y: u32| x <= y;
    lemma_reachable_seq_sorted(space, flags);
    assert(total_ordering(leq));
    assert(sorted_by(collected, leq));
    assert(sorted_by(reachable_seq(space, flags), leq));
    lemma_sorted_unique(collected, reachable_seq(space, flags), leq);
}

} // verus!
