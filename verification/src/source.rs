use vstd::prelude::*;
use crate::addr::{CidrBlock, IpAddress};

verus! {

/// Where the target addresses come from: either a single address or every
/// address covered by a CIDR block. The scan driver consumes either variant
/// through the same operations.
#[derive(Clone, Copy, PartialEq, Eq, Structural, Debug)]
pub enum AddressSource {
    Single(IpAddress),
    Cidr(CidrBlock),
}

impl AddressSource {
    pub open spec fn wf(self) -> bool {
        match self {
            AddressSource::Single(_) => true,
            AddressSource::Cidr(b) => b.wf(),
        }
    }

    /// The addresses the source yields, in order.
    pub open spec fn address_seq(self) -> Seq<IpAddress>
        recommends
            self.wf(),
    {
        match self {
            AddressSource::Single(a) => seq![a],
            AddressSource::Cidr(b) => b.address_seq(),
        }
    }

    /// A source of exactly one address.
    pub fn single(a: IpAddress) -> (r: AddressSource)
        ensures
            r == AddressSource::Single(a),
            r.wf(),
            r.address_seq() =~= seq![a],
    {
        AddressSource::Single(a)
    }

    /// A source of every address of a well-formed CIDR block.
    pub fn cidr(b: CidrBlock) -> (r: AddressSource)
        requires
            b.wf(),
        ensures
            r == AddressSource::Cidr(b),
            r.wf(),
            r.address_seq() == b.address_seq(),
    {
        AddressSource::Cidr(b)
    }

    /// Whether the source is small enough to enumerate into a vector.
    pub fn enumerable(&self) -> (r: bool)
        requires
            self.wf(),
        ensures
            r == (self.address_seq().len() <= usize::MAX),
    {
        match self {
            AddressSource::Single(_) => true,
            AddressSource::Cidr(b) => b.enumerable(),
        }
    }

    /// All addresses of the source, in source order.
    pub fn addresses(&self) -> (r: Vec<IpAddress>)
        requires
            self.wf(),
            self.address_seq().len() <= usize::MAX,
        ensures
            r@ == self.address_seq(),
    {
        match self {
            AddressSource::Single(a) => {
                let mut v: Vec<IpAddress> = Vec::new();
                v.push(*a);
                assert(v@ =~= self.address_seq());
                v
            },
            AddressSource::Cidr(b) => {
                let v = b.addresses();
                v
            },
        }
    }

    /// A source never yields the same address twice.
    pub proof fn lemma_addresses_distinct(self)
        requires
            self.wf(),
        ensures
            self.address_seq().no_duplicates(),
    {
        match self {
            AddressSource::Single(_) => {
            },
            AddressSource::Cidr(b) => {
                b.lemma_address_seq_distinct();
            },
        }
    }
}

} // verus!
