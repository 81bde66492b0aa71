//! Size classes: which kind of region an object of a given size belongs to,
//! and how large a region of that kind is.

use vstd::prelude::*;
use vstd::arithmetic::div_mod::{lemma_fundamental_div_mod, lemma_mod_multiples_basic};

verus! {

/// The three kinds of region, by the size of the objects they hold.
#[derive(Clone, Copy, Debug, PartialEq, Eq, Structural)]
pub enum RegionKind {
    /// Fixed capacity; objects below the small threshold.
    Small,
    /// Fixed capacity; objects from the small threshold up to the medium one.
    Medium,
    /// One object from the medium threshold up, in a region cut to fit it.
    Large,
}

/// The thresholds between the size classes and the capacities of their regions.
#[derive(Clone, Copy, Debug)]
pub struct SizingPolicy {
    /// Objects smaller than this are small.
    pub small_threshold: u64,
    /// Objects smaller than this, and not small, are medium; the others are large.
    pub medium_threshold: u64,
    /// Capacity in bytes of every small region.
    pub small_capacity: u64,
    /// Capacity in bytes of every medium region.
    pub medium_capacity: u64,
    /// Large regions have the least capacity that is a multiple of this.
    pub large_unit: u64,
}

/// Whether `value` is a whole number of units.
pub open spec fn is_multiple(value: nat, unit: nat) -> bool {
    value % unit == 0
}

/// The least multiple of `unit` that is no smaller than `size`.
pub open spec fn round_up(size: nat, unit: nat) -> nat
    recommends
        unit > 0,
{
    if size % unit == 0 {
        size
    } else {
        (size + unit - size % unit) as nat
    }
}

/// `round_up` is a multiple of the unit, reaches the size, and no smaller
/// multiple of the unit does.
pub proof fn lemma_round_up_is_least(size: nat, unit: nat)
    requires
        unit > 0,
    ensures
        is_multiple(round_up(size, unit), unit),
        size <= round_up(size, unit) < size + unit,
        forall|multiple: nat|
            #[trigger] is_multiple(multiple, unit) && size <= multiple ==> round_up(size, unit)
                <= multiple,
{
    let s = size as int;
    let u = unit as int;
    lemma_fundamental_div_mod(s, u);
    if size % unit != 0 {
        assert(round_up(size, unit) as int == u * (s / u + 1)) by (nonlinear_arith)
            requires
                s == u * (s / u) + s % u,
                round_up(size, unit) as int == s + u - s % u,
        ;
        lemma_mod_multiples_basic(s / u + 1, u);
    }
    assert forall|multiple: nat| #[trigger]
        is_multiple(multiple, unit) && size <= multiple implies round_up(size, unit)
        <= multiple by {
        let m = multiple as int;
        lemma_fundamental_div_mod(m, u);
        if size % unit != 0 {
            assert(m / u > s / u) by (nonlinear_arith)
                requires
                    u > 0,
                    m == u * (m / u),
                    s == u * (s / u) + s % u,
                    0 < s % u,
                    s <= m,
            ;
            assert(m >= s + u - s % u) by (nonlinear_arith)
                requires
                    u > 0,
                    m == u * (m / u),
                    s == u * (s / u) + s % u,
                    m / u >= s / u + 1,
            ;
        }
    }
}

/// The least multiple of `unit` that is no smaller than `size`, where a
/// machine word can hold it.
pub fn round_up_to(size: u64, unit: u64) -> (rounded: Option<u64>)
    requires
        unit > 0,
    ensures
        rounded.is_some() <==> round_up(size as nat, unit as nat) <= u64::MAX,
        rounded.is_some() ==> rounded.unwrap() as nat == round_up(size as nat, unit as nat),
{
    let rest: u64 = size % unit;
    if rest == 0 {
        Some(size)
    } else {
        let pad: u64 = unit - rest;
        if size > u64::MAX - pad {
            None
        } else {
            Some(size + pad)
        }
    }
}

impl SizingPolicy {
    /// A policy is valid when the classes are not empty and an object of a
    /// class fits a region of that class.
    pub open spec fn wf(self) -> bool {
        &&& 1 <= self.small_threshold < self.medium_threshold
        &&& self.small_threshold <= self.small_capacity
        &&& self.medium_threshold <= self.medium_capacity
        &&& 1 <= self.large_unit
    }

    /// The kind of region for an object of `size` bytes.
    pub open spec fn kind_of(self, size: nat) -> RegionKind {
        if size < self.small_threshold {
            RegionKind::Small
        } else if size < self.medium_threshold {
            RegionKind::Medium
        } else {
            RegionKind::Large
        }
    }

    /// The capacity of the region that an object of `size` bytes goes to.
    pub open spec fn capacity_of(self, size: nat) -> nat {
        match self.kind_of(size) {
            RegionKind::Small => self.small_capacity as nat,
            RegionKind::Medium => self.medium_capacity as nat,
            RegionKind::Large => round_up(size, self.large_unit as nat),
        }
    }

    /// Put a policy together; `None` where the numbers make no valid policy.
    pub fn new(
        small_threshold: u64,
        medium_threshold: u64,
        small_capacity: u64,
        medium_capacity: u64,
        large_unit: u64,
    ) -> (policy: Option<SizingPolicy>)
        ensures
            policy.is_some() <==> (SizingPolicy {
                small_threshold,
                medium_threshold,
                small_capacity,
                medium_capacity,
                large_unit,
            }).wf(),
            policy.is_some() ==> policy.unwrap() == (SizingPolicy {
                small_threshold,
                medium_threshold,
                small_capacity,
                medium_capacity,
                large_unit,
            }),
    {
        let policy = SizingPolicy {
            small_threshold,
            medium_threshold,
            small_capacity,
            medium_capacity,
            large_unit,
        };
        if policy.is_valid() {
            Some(policy)
        } else {
            None
        }
    }

    /// Whether the policy is valid.
    pub fn is_valid(&self) -> (valid: bool)
        ensures
            valid == self.wf(),
    {
        1 <= self.small_threshold && self.small_threshold < self.medium_threshold
            && self.small_threshold <= self.small_capacity && self.medium_threshold
            <= self.medium_capacity && 1 <= self.large_unit
    }

    /// Map a requested allocation size to the kind of region that serves it.
    pub fn classify(&self, size: usize) -> (kind: RegionKind)
        ensures
            kind == self.kind_of(size as nat),
    {
        let size: u64 = size as u64;
        if size < self.small_threshold {
            RegionKind::Small
        } else if size < self.medium_threshold {
            RegionKind::Medium
        } else {
            RegionKind::Large
        }
    }

    /// The capacity of the region that serves a request of `size` bytes,
    /// where a machine word can hold it.
    pub fn capacity_for(&self, size: usize) -> (capacity: Option<u64>)
        requires
            self.wf(),
        ensures
            capacity.is_some() <==> self.capacity_of(size as nat) <= u64::MAX,
            capacity.is_some() ==> capacity.unwrap() as nat == self.capacity_of(size as nat),
    {
        match self.classify(size) {
            RegionKind::Small => Some(self.small_capacity),
            RegionKind::Medium => Some(self.medium_capacity),
            RegionKind::Large => round_up_to(size as u64, self.large_unit),
        }
    }
}

impl Default for SizingPolicy {
    /// Small objects below 256 KiB in regions of 2 MiB, medium objects below
    /// 4 MiB in regions of 32 MiB, large regions in steps of 2 MiB.
    fn default() -> (policy: SizingPolicy)
        ensures
            policy == (SizingPolicy {
                small_threshold: 0x4_0000,
                medium_threshold: 0x40_0000,
                small_capacity: 0x20_0000,
                medium_capacity: 0x200_0000,
                large_unit: 0x20_0000,
            }),
            policy.wf(),
    {
        SizingPolicy {
            small_threshold: 0x4_0000,
            medium_threshold: 0x40_0000,
            small_capacity: 0x20_0000,
            medium_capacity: 0x200_0000,
            large_unit: 0x20_0000,
        }
    }
}

/// At the two thresholds the class changes: one byte below a threshold an
/// object still belongs to the lower class, at the threshold to the next.
pub proof fn lemma_classify_boundaries(policy: SizingPolicy)
    requires
        policy.wf(),
    ensures
        policy.kind_of(0) == RegionKind::Small,
        policy.kind_of((policy.small_threshold - 1) as nat) == RegionKind::Small,
        policy.kind_of(policy.small_threshold as nat) == RegionKind::Medium,
        policy.kind_of((policy.medium_threshold - 1) as nat) == RegionKind::Medium,
        policy.kind_of(policy.medium_threshold as nat) == RegionKind::Large,
{
}

/// The capacity computed for a large object is the least multiple of the
/// unit that holds it, and every object fits the region of its class.
pub proof fn lemma_capacity_fits(policy: SizingPolicy, size: nat)
    requires
        policy.wf(),
    ensures
        size <= policy.capacity_of(size),
        1 <= policy.capacity_of(size),
        policy.kind_of(size) == RegionKind::Large ==> {
            &&& is_multiple(policy.capacity_of(size), policy.large_unit as nat)
            &&& forall|multiple: nat|
                #[trigger] is_multiple(multiple, policy.large_unit as nat) && size <= multiple
                    ==> policy.capacity_of(size) <= multiple
        },
{
    lemma_round_up_is_least(size, policy.large_unit as nat);
}

} // verus!
