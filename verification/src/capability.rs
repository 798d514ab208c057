//! What a storage provider can do, as an ordered set of capabilities.
use vstd::prelude::*;

verus! {

/// One operation that a storage provider may support.
#[derive(Debug, Clone, Copy, PartialEq, Eq, Structural)]
pub enum Capability {
    Read,
    Write,
    Delete,
    Rename,
    CreateDirectory,
    ServerSideCopy,
    ServerSideMove,
    MultipartUpload,
    RangeRead,
    RangeWrite,
    Versioning,
    Locking,
    ShareLinks,
    Checksums,
}

/// The position of a capability in the declared order, which is the order in
/// which sets list their members.
pub open spec fn capability_rank(c: Capability) -> nat {
    match c {
        Capability::Read => 0,
        Capability::Write => 1,
        Capability::Delete => 2,
        Capability::Rename => 3,
        Capability::CreateDirectory => 4,
        Capability::ServerSideCopy => 5,
        Capability::ServerSideMove => 6,
        Capability::MultipartUpload => 7,
        Capability::RangeRead => 8,
        Capability::RangeWrite => 9,
        Capability::Versioning => 10,
        Capability::Locking => 11,
        Capability::ShareLinks => 12,
        Capability::Checksums => 13,
    }
}

/// Capabilities are told apart by their rank.
pub proof fn lemma_rank_injective(a: Capability, b: Capability)
    ensures
        capability_rank(a) == capability_rank(b) ==> a == b,
{
}

impl Capability {
    /// The position of this capability in the declared order.
    pub fn rank(self) -> (r: u8)
        ensures
            r as nat == capability_rank(self),
    {
        match self {
            Capability::Read => 0,
            Capability::Write => 1,
            Capability::Delete => 2,
            Capability::Rename => 3,
            Capability::CreateDirectory => 4,
            Capability::ServerSideCopy => 5,
            Capability::ServerSideMove => 6,
            Capability::MultipartUpload => 7,
            Capability::RangeRead => 8,
            Capability::RangeWrite => 9,
            Capability::Versioning => 10,
            Capability::Locking => 11,
            Capability::ShareLinks => 12,
            Capability::Checksums => 13,
        }
    }
}

/// The members listed in strictly increasing declared order.
pub open spec fn strictly_ordered(s: Seq<Capability>) -> bool {
    forall|i: int, j: int| 0 <= i < j < s.len() ==> capability_rank(s[i]) < capability_rank(s[j])
}

/// A set of capabilities, kept in declared order without repetition.
pub struct CapabilitySet {
    items: Vec<Capability>,
}

impl View for CapabilitySet {
    type V = Set<Capability>;

    open spec fn view(&self) -> Set<Capability> {
        self.members().to_set()
    }
}

impl CapabilitySet {
    /// The members in declared order.
    pub closed spec fn members(&self) -> Seq<Capability> {
        self.items@
    }

    #[verifier::type_invariant]
    spec fn ordered(&self) -> bool {
        strictly_ordered(self.items@)
    }

    /// The empty set.
    pub fn new() -> (s: CapabilitySet)
        ensures
            s@ == Set::<Capability>::empty(),
            s.members() == Seq::<Capability>::empty(),
    {
        let s = CapabilitySet { items: Vec::new() };
        assert(s.members().to_set() =~= Set::<Capability>::empty());
        s
    }

    /// The set holding exactly the given capabilities.
    pub fn with(capabilities: &[Capability]) -> (s: CapabilitySet)
        ensures
            s@ == capabilities@.to_set(),
    {
        let mut s = CapabilitySet::new();
        let n = capabilities.len();
        for i in 0..n
            invariant
                n == capabilities@.len(),
                s@ == capabilities@.take(i as int).to_set(),
        {
            s.insert(capabilities[i]);
            proof {
                assert(capabilities@.take(i + 1) == capabilities@.take(i as int).push(capabilities@[i as int]));
                capabilities@.take(i as int).lemma_push_to_set_commute(capabilities@[i as int]);
            }
        }
        assert(capabilities@.take(n as int) == capabilities@);
        s
    }

    /// Adds `capability` to the set.
    pub fn insert(&mut self, capability: Capability)
        ensures
            final(self)@ == old(self)@.insert(capability),
    {
        proof {
            use_type_invariant(&*self);
        }
        let rank = capability.rank();
        let n = self.items.len();
        let mut i: usize = 0;
        while i < n && self.items[i].rank() < rank
            invariant
                n == self.items@.len(),
                i <= n,
                strictly_ordered(self.items@),
                rank as nat == capability_rank(capability),
                forall|k: int| 0 <= k < i ==> capability_rank(self.items@[k]) < capability_rank(capability),
            decreases n - i,
        {
            i = i + 1;
        }
        if i < n && self.items[i].rank() == rank {
            proof {
                lemma_rank_injective(self.items@[i as int], capability);
                assert(self.items@.to_set().insert(capability) =~= self.items@.to_set()) by {
                    assert(self.items@.contains(capability));
                }
            }
            return;
        }
        let ghost before = self.items@;
        let mut items: Vec<Capability> = Vec::new();
        std::mem::swap(&mut items, &mut self.items);
        items.insert(i, capability);
        proof {
            assert forall|a: int, b: int| 0 <= a < b < items@.len() implies capability_rank(items@[a]) < capability_rank(items@[b]) by {
                if b < i {
                } else if a < i && b == i {
                } else if a < i && b > i {
                    assert(items@[b] == before[b - 1]);
                    assert(capability_rank(before[a]) < capability_rank(capability));
                } else if a == i {
                    assert(items@[b] == before[b - 1]);
                    if i < n {
                        assert(capability_rank(capability) < capability_rank(before[i as int])) by {
                            assert(capability_rank(before[i as int]) >= capability_rank(capability));
                            if capability_rank(before[i as int]) == capability_rank(capability) {
                                lemma_rank_injective(before[i as int], capability);
                            }
                        }
                    }
                } else {
                    assert(items@[a] == before[a - 1]);
                    assert(items@[b] == before[b - 1]);
                }
            }
            assert(items@.to_set() =~= before.to_set().insert(capability)) by {
                assert forall|x: Capability| #[trigger] items@.to_set().contains(x) == before.to_set().insert(capability).contains(x) by {
                    if items@.contains(x) {
                        let k = choose|k: int| 0 <= k < items@.len() && items@[k] == x;
                        if k < i {
                            assert(before[k] == x);
                        } else if k > i {
                            assert(before[k - 1] == x);
                        }
                    }
                    if before.contains(x) {
                        let k = choose|k: int| 0 <= k < before.len() && before[k] == x;
                        if k < i {
                            assert(items@[k] == x);
                        } else {
                            assert(items@[k + 1] == x);
                        }
                    }
                    if x == capability {
                        assert(items@[i as int] == x);
                    }
                }
            }
        }
        self.items = items;
    }

    /// Whether `capability` is in the set.
    pub fn contains(&self, capability: Capability) -> (r: bool)
        ensures
            r == self@.contains(capability),
    {
        let n = self.items.len();
        for i in 0..n
            invariant
                n == self.items@.len(),
                forall|k: int| 0 <= k < i ==> self.items@[k] != capability,
        {
            if self.items[i] == capability {
                assert(self.items@.contains(capability));
                return true;
            }
        }
        false
    }

    /// The members in declared order.
    pub fn iter(&self) -> (out: Vec<Capability>)
        ensures
            out@ == self.members(),
            out@.to_set() == self@,
            strictly_ordered(out@),
    {
        proof {
            use_type_invariant(self);
        }
        self.items.clone()
    }
}

} // verus!
