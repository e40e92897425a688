//! The address space a validated prefix covers: its subnet mask and the
//! enumeration of every address in it, network and broadcast included.

use vstd::prelude::*;
use vstd::arithmetic::power2::pow2;

use crate::descriptor::NetworkDescriptor;

verus! {

/// A validated prefix together with its derived subnet mask.
pub struct AddressSpace {
    pub descriptor: NetworkDescriptor,
    pub subnet_mask: u32,
}

impl AddressSpace {
    /// The mask with exactly `p` leading one-bits followed by zero-bits.
    pub open spec fn spec_mask(p: u8) -> u32 {
        if p == 0 {
            0u32
        } else {
            0xFFFF_FFFFu32 << ((32 - p) as u32)
        }
    }

    /// The mask matches the descriptor and the prefix is in range.
    pub open spec fn wf(self) -> bool {
        &&& self.descriptor.valid()
        &&& self.subnet_mask == Self::spec_mask(self.descriptor.prefix_length)
    }

    /// How many addresses the prefix covers: `2^(32 - prefix_length)`.
    pub open spec fn spec_count(self) -> u64 {
        1u64 << ((32 - self.descriptor.prefix_length) as u64)
    }

    /// The base address with the host bits cleared.
    pub open spec fn network_base(self) -> u32 {
        self.descriptor.base_address & self.subnet_mask
    }

    /// The address at host offset `i`, in ascending enumeration order.
    pub open spec fn spec_address_at(self, i: u64) -> u32 {
        self.network_base() | (i as u32)
    }

    pub fn new(descriptor: NetworkDescriptor) -> (r: AddressSpace)
        requires
            descriptor.valid(),
        ensures
            r.wf(),
            r.descriptor == descriptor,
    {
        let mask: u32 = if descriptor.prefix_length == 0 {
            0
        } else {
            0xFFFF_FFFFu32 << ((32 - descriptor.prefix_length) as u32)
        };
        AddressSpace { descriptor, subnet_mask: mask }
    }

    pub fn count(&self) -> (n: u64)
        requires
            self.wf(),
        ensures
            n == self.spec_count(),
    {
        1u64 << ((32 - self.descriptor.prefix_length) as u64)
    }

    /// The space never holds more than the whole 32-bit range.
    pub proof fn lemma_count_bound(self)
        requires
            self.wf(),
        ensures
            self.spec_count() <= 0x1_0000_0000u64,
    {
        let p = self.descriptor.prefix_length;
        assert(p <= 32 ==> (1u64 << ((32 - p) as u64)) <= 0x1_0000_0000u64) by (bit_vector);
    }

    /// The count is the power of two the prefix leaves free.
    pub proof fn lemma_count_is_pow2(self)
        requires
            self.wf(),
        ensures
            self.spec_count() == pow2((32 - self.descriptor.prefix_length) as nat),
    {
        let p = self.descriptor.prefix_length;
        vstd::arithmetic::power2::lemma2_to64();
        vstd::arithmetic::power2::lemma2_to64_rest();
        vstd::bits::lemma_u64_shl_is_mul(1u64, (32 - p) as u64);
    }

    /// Every enumerated address is the network base plus its host offset,
    /// and keeps the network-identifying bits of the base address.
    pub proof fn lemma_address_at_offset(self, i: u64)
        requires
            self.wf(),
            i < self.spec_count(),
        ensures
            self.spec_address_at(i) == self.network_base() + i,
            self.spec_address_at(i) & self.subnet_mask == self.network_base(),
    {
        let b = self.descriptor.base_address;
        let p = self.descriptor.prefix_length;
        let m = self.subnet_mask;
        assert({
            &&& ((b & m) | (i as u32)) as u64 == (b & m) as u64 + i
            &&& (((b & m) | (i as u32)) & m) == (b & m)
        }) by (bit_vector)
            requires
                p <= 32u8,
                m == (if p == 0 {
                    0u32
                } else {
                    0xFFFF_FFFFu32 << ((32 - p) as u32)
                }),
                i < (1u64 << ((32 - p) as u64)),
        ;
    }

    /// All addresses of the space lie in the subnet of the base address.
    pub proof fn lemma_address_in_subnet(self, i: u64)
        requires
            self.wf(),
            i < self.spec_count(),
        ensures
            self.spec_address_at(i) & self.subnet_mask == self.descriptor.base_address
                & self.subnet_mask,
    {
        self.lemma_address_at_offset(i);
    }

    /// Distinct host offsets yield distinct addresses.
    pub proof fn lemma_addresses_distinct(self, i: u64, j: u64)
        requires
            self.wf(),
            i < self.spec_count(),
            j < self.spec_count(),
            i != j,
        ensures
            self.spec_address_at(i) != self.spec_address_at(j),
    {
        self.lemma_address_at_offset(i);
        self.lemma_address_at_offset(j);
    }

    /// Enumeration ascends strictly with the host offset.
    pub proof fn lemma_enumeration_ascending(self, i: u64, j: u64)
        requires
            self.wf(),
            i < j,
            j < self.spec_count(),
        ensures
            self.spec_address_at(i) < self.spec_address_at(j),
    {
        self.lemma_address_at_offset(i);
        self.lemma_address_at_offset(j);
    }

    /// A full-length prefix covers exactly its own base address.
    pub proof fn lemma_prefix_32_single(self)
        requires
            self.wf(),
            self.descriptor.prefix_length == 32,
        ensures
            self.spec_count() == 1,
            self.spec_address_at(0) == self.descriptor.base_address,
    {
        let b = self.descriptor.base_address;
        assert(1u64 << 0u64 == 1u64) by (bit_vector);
        assert((b & (0xFFFF_FFFFu32 << 0u32)) | 0u32 == b) by (bit_vector);
    }

    /// A zero-length prefix covers every 32-bit address: each address is its
    /// own host offset.
    pub proof fn lemma_prefix_0_all(self, a: u32)
        requires
            self.wf(),
            self.descriptor.prefix_length == 0,
        ensures
            self.spec_count() == 0x1_0000_0000u64,
            self.spec_address_at(a as u64) == a,
    {
        let b = self.descriptor.base_address;
        assert(1u64 << 32u64 == 0x1_0000_0000u64) by (bit_vector);
        assert((b & 0u32) | ((a as u64) as u32) == a) by (bit_vector);
    }

    /// The enumeration of the space holds exactly `2^(32 - prefix_length)`
    /// addresses, all distinct, all in the subnet of the base address.
    pub proof fn lemma_enumeration_properties(self, v: Seq<u32>)
        requires
            self.wf(),
            v.len() == self.spec_count(),
            forall|k: int| 0 <= k < v.len() ==> v[k] == self.spec_address_at(k as u64),
        ensures
            v.len() == pow2((32 - self.descriptor.prefix_length) as nat),
            forall|k: int|
                0 <= k < v.len() ==> (#[trigger] v[k]) & self.subnet_mask
                    == self.descriptor.base_address & self.subnet_mask,
            forall|k1: int, k2: int| 0 <= k1 < k2 < v.len() ==> v[k1] != v[k2],
    {
        self.lemma_count_is_pow2();
        assert forall|k: int|
            0 <= k < v.len() implies (#[trigger] v[k]) & self.subnet_mask
            == self.descriptor.base_address & self.subnet_mask by {
            self.lemma_address_in_subnet(k as u64);
        }
        assert forall|k1: int, k2: int| 0 <= k1 < k2 < v.len() implies v[k1] != v[k2] by {
            self.lemma_addresses_distinct(k1 as u64, k2 as u64);
        }
    }

    pub fn address_at(&self, i: u64) -> (a: u32)
        requires
            self.wf(),
            i < self.spec_count(),
        ensures
            a == self.spec_address_at(i),
    {
        proof {
            self.lemma_count_bound();
        }
        (self.descriptor.base_address & self.subnet_mask) | (i as u32)
    }

    /// Materializes the whole enumeration, ascending by host offset.
    pub fn enumerate(&self) -> (v: Vec<u32>)
        requires
            self.wf(),
            self.spec_count() <= usize::MAX as u64,
        ensures
            v@.len() == self.spec_count(),
            forall|k: int| 0 <= k < v@.len() ==> v@[k] == self.spec_address_at(k as u64),
    {
        let total = self.count();
        let mut v: Vec<u32> = Vec::new();
        let mut i: u64 = 0;
        while i < total
            invariant
                self.wf(),
                total == self.spec_count(),
                i <= total,
                v@.len() == i,
                forall|k: int| 0 <= k < i ==> v@[k] == self.spec_address_at(k as u64),
            decreases total - i,
        {
            let a = self.address_at(i);
            v.push(a);
            i += 1;
        }
        v
    }
}

} // verus!
