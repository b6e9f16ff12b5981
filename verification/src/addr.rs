use vstd::prelude::*;
use vstd::arithmetic::power2::{
    pow2, lemma_pow2_strictly_increases, lemma_pow2_adds, lemma_pow2_unfold, lemma2_to64,
};

verus! {

broadcast use vstd::arithmetic::power2::lemma_pow2_pos;

/// A target IP address, held as its numeric value: 32 bits for IPv4,
/// 128 bits for IPv6.
#[derive(Clone, Copy, PartialEq, Eq, Structural, Debug)]
pub enum IpAddress {
    V4(u32),
    V6(u128),
}

impl IpAddress {
    /// The width of the address family in bits.
    pub open spec fn bits(self) -> nat {
        match self {
            IpAddress::V4(_) => 32,
            IpAddress::V6(_) => 128,
        }
    }

    /// The numeric value of the address.
    pub open spec fn value(self) -> int {
        match self {
            IpAddress::V4(v) => v as int,
            IpAddress::V6(v) => v as int,
        }
    }

    /// The address `offset` places above `self`, in the same family.
    pub open spec fn plus(self, offset: int) -> IpAddress
        recommends
            0 <= self.value() + offset < pow2(self.bits()),
    {
        match self {
            IpAddress::V4(v) => IpAddress::V4(((v + offset) as u32)),
            IpAddress::V6(v) => IpAddress::V6(((v + offset) as u128)),
        }
    }
}

/// A CIDR block: a contiguous, aligned run of `2^(bits - prefix)` addresses
/// beginning at its network address `base`.
#[derive(Clone, Copy, PartialEq, Eq, Structural, Debug)]
pub struct CidrBlock {
    pub base: IpAddress,
    pub prefix: u8,
}

impl CidrBlock {
    /// How many of the address's low bits are host bits.
    pub open spec fn host_bits(self) -> nat
        recommends
            self.prefix <= self.base.bits(),
    {
        (self.base.bits() - self.prefix) as nat
    }

    /// How many addresses the block covers.
    pub open spec fn host_count(self) -> nat {
        pow2(self.host_bits())
    }

    /// Well-formed: the prefix fits the family, the base is the aligned
    /// network address, and the whole block stays inside the family.
    pub open spec fn wf(self) -> bool {
        &&& self.prefix <= self.base.bits()
        &&& self.base.value() % (self.host_count() as int) == 0
        &&& self.base.value() + self.host_count() <= pow2(self.base.bits())
    }

    /// Every address of the block, in ascending numeric order.
    pub open spec fn address_seq(self) -> Seq<IpAddress>
        recommends
            self.wf(),
    {
        Seq::new(self.host_count(), |i: int| self.base.plus(i))
    }

    /// Build a block from a base address and prefix length. Succeeds exactly
    /// when the pair describes a well-formed block.
    pub fn new(base: IpAddress, prefix: u8) -> (r: Option<CidrBlock>)
        ensures
            r is Some <==> (CidrBlock { base, prefix }).wf(),
            r is Some ==> r->0 == (CidrBlock { base, prefix }),
    {
        proof {
            lemma2_to64();
            lemma_pow2_adds(64, 64);
        }
        match base {
            IpAddress::V4(b) => {
                if prefix > 32 {
                    return None;
                }
                let hb: u8 = 32 - prefix;
                let count: u128 = pow2_u128(hb);
                if (b as u128) % count == 0 && (b as u128) + count <= 0x1_0000_0000u128 {
                    Some(CidrBlock { base, prefix })
                } else {
                    None
                }
            },
            IpAddress::V6(b) => {
                if prefix > 128 {
                    return None;
                }
                let hb: u8 = 128 - prefix;
                if hb == 128 {
                    // The whole family: only base 0 is aligned and in bounds.
                    if b == 0 {
                        assert(pow2(128) == 0x1_0000_0000_0000_0000_0000_0000_0000_0000);
                        Some(CidrBlock { base, prefix })
                    } else {
                        assert(b as int % pow2(128) as int == b as int);
                        None
                    }
                } else {
                    let count: u128 = pow2_u128(hb);
                    assert(pow2(128) == 0x1_0000_0000_0000_0000_0000_0000_0000_0000);
                    if b % count == 0 && b <= u128::MAX - (count - 1) {
                        Some(CidrBlock { base, prefix })
                    } else {
                        None
                    }
                }
            },
        }
    }

    /// The number of host bits of the block.
    pub fn host_bits_exec(&self) -> (r: u8)
        requires
            self.prefix <= self.base.bits(),
        ensures
            r == self.host_bits(),
    {
        match self.base {
            IpAddress::V4(_) => 32 - self.prefix,
            IpAddress::V6(_) => 128 - self.prefix,
        }
    }

    /// Whether the block is small enough to enumerate into a vector.
    pub fn enumerable(&self) -> (r: bool)
        requires
            self.wf(),
        ensures
            r == (self.host_count() <= usize::MAX),
    {
        let hb = self.host_bits_exec();
        if hb >= 128 {
            proof {
                lemma2_to64();
                lemma_pow2_adds(64, 64);
                assert(usize::MAX as int <= u128::MAX as int);
                assert((u128::MAX as int) < (pow2(128) as int));
            }
            false
        } else {
            let count = pow2_u128(hb);
            count <= usize::MAX as u128
        }
    }

    /// Every address of the block, ascending.
    pub fn addresses(&self) -> (r: Vec<IpAddress>)
        requires
            self.wf(),
            self.host_count() <= usize::MAX,
        ensures
            r@ == self.address_seq(),
    {
        let hb = self.host_bits_exec();
        proof {
            if hb >= 128 {
                lemma2_to64();
                lemma_pow2_adds(64, 64);
                if hb > 128 {
                    lemma_pow2_strictly_increases(128, hb as nat);
                }
                assert(usize::MAX as int <= u128::MAX as int);
                assert((u128::MAX as int) < (pow2(128) as int));
                assert(pow2(128) <= pow2(hb as nat));
                assert(false);
            }
        }
        let count128 = pow2_u128(hb);
        let count = count128 as usize;
        let mut r: Vec<IpAddress> = Vec::new();
        let mut i: usize = 0;
        while i < count
            invariant
                self.wf(),
                count == self.host_count(),
                i <= count,
                r@ =~= self.address_seq().take(i as int),
            decreases count - i,
        {
            let a = addr_plus(self.base, i as u128);
            r.push(a);
            i += 1;
        }
        assert(r@ =~= self.address_seq());
        r
    }

    /// Distinct offsets give distinct addresses: the block repeats none.
    pub proof fn lemma_address_seq_distinct(self)
        requires
            self.wf(),
        ensures
            self.address_seq().no_duplicates(),
    {
        assert forall|i: int, j: int|
            0 <= i < self.address_seq().len() && 0 <= j < self.address_seq().len() && i != j implies
            self.address_seq()[i] != self.address_seq()[j] by {
            lemma2_to64();
            lemma_pow2_adds(64, 64);
            assert(self.address_seq()[i] == self.base.plus(i));
            assert(self.address_seq()[j] == self.base.plus(j));
            assert(self.base.value() + i < pow2(self.base.bits()));
            assert(self.base.value() + j < pow2(self.base.bits()));
        }
    }
}

/// `2^e` for exponents below 128.
fn pow2_u128(e: u8) -> (r: u128)
    requires
        e <= 127,
    ensures
        r == pow2(e as nat),
{
    proof {
        lemma2_to64();
        lemma_pow2_adds(64, 64);
    }
    let mut r: u128 = 1;
    let mut i: u8 = 0;
    while i < e
        invariant
            i <= e,
            e <= 127,
            r == pow2(i as nat),
        decreases e - i,
    {
        proof {
            lemma_pow2_unfold((i + 1) as nat);
            if i + 1 < 128 {
                lemma_pow2_strictly_increases((i + 1) as nat, 128);
            }
            lemma_pow2_adds(64, 64);
            lemma2_to64();
        }
        r = r * 2;
        i += 1;
    }
    r
}

/// The address `i` places above `a`, within its family.
fn addr_plus(a: IpAddress, i: u128) -> (r: IpAddress)
    requires
        a.value() + i < pow2(a.bits()),
    ensures
        r == a.plus(i as int),
{
    proof {
        lemma2_to64();
        lemma_pow2_adds(64, 64);
    }
    match a {
        IpAddress::V4(b) => IpAddress::V4((((b as u64) + (i as u64)) as u32)),
        IpAddress::V6(b) => IpAddress::V6((b + i)),
    }
}

} // verus!
