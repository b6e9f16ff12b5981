use vstd::prelude::*;
use crate::addr::IpAddress;
use crate::range::PortRange;
use crate::source::AddressSource;

verus! {

/// One unit of scan work: probe one port on one address.
#[derive(Clone, Copy, PartialEq, Eq, Structural, Debug)]
pub struct ScanUnit {
    pub addr: IpAddress,
    pub port: u16,
}

/// The probes one address gives rise to: one per port of the range, in
/// ascending port order.
pub open spec fn units_for(addr: IpAddress, range: PortRange) -> Seq<ScanUnit>
    recommends
        range.wf(),
{
    Seq::new(range.len_spec(), |i: int| ScanUnit { addr, port: (range.start + i) as u16 })
}

/// Every probe of a whole scan: the address x port cross-product, grouped by
/// address in source order.
pub open spec fn all_units_spec(addrs: Seq<IpAddress>, range: PortRange) -> Seq<ScanUnit>
    recommends
        range.wf(),
{
    addrs.map_values(|a: IpAddress| units_for(a, range)).flatten()
}

/// The dispatch work for one address: the driver announces the address, then
/// spawns one probe per unit, in this order.
pub struct AddressDispatch {
    pub addr: IpAddress,
    pub units: Vec<ScanUnit>,
}

/// The full dispatch plan: one entry per source address, in source order.
pub struct ScanPlan {
    pub range: PortRange,
    pub entries: Vec<AddressDispatch>,
}

impl ScanPlan {
    /// The plan expands exactly this source over this range.
    pub open spec fn matches(self, source: AddressSource, range: PortRange) -> bool {
        &&& self.range == range
        &&& self.entries@.len() == source.address_seq().len()
        &&& forall|i: int|
            0 <= i < self.entries@.len() ==> (#[trigger] self.entries@[i]).addr
                == source.address_seq()[i]
        &&& forall|i: int|
            0 <= i < self.entries@.len() ==> (#[trigger] self.entries@[i]).units@ == units_for(
                source.address_seq()[i],
                range,
            )
    }

    /// Expand the cross-product of the source's addresses and the range's
    /// ports into the dispatch plan.
    pub fn new(source: &AddressSource, range: &PortRange) -> (r: ScanPlan)
        requires
            source.wf(),
            range.wf(),
            source.address_seq().len() <= usize::MAX,
        ensures
            r.matches(*source, *range),
    {
        let addrs = source.addresses();
        let mut entries: Vec<AddressDispatch> = Vec::new();
        let mut i: usize = 0;
        while i < addrs.len()
            invariant
                range.wf(),
                addrs@ == source.address_seq(),
                i <= addrs@.len(),
                entries@.len() == i,
                forall|k: int|
                    0 <= k < i ==> (#[trigger] entries@[k]).addr == addrs@[k],
                forall|k: int|
                    0 <= k < i ==> (#[trigger] entries@[k]).units@ == units_for(addrs@[k], *range),
            decreases addrs@.len() - i,
        {
            let a = addrs[i];
            let units = probe_units(a, range);
            entries.push(AddressDispatch { addr: a, units });
            i += 1;
        }
        ScanPlan { range: *range, entries }
    }

    /// A plan that expands a source over a range holds, flattened, exactly
    /// the cross-product of that source's addresses and that range's ports.
    pub proof fn lemma_plan_units(self, source: AddressSource, range: PortRange)
        requires
            self.matches(source, range),
        ensures
            self.entries@.map_values(|e: AddressDispatch| e.units@).flatten() == all_units_spec(
                source.address_seq(),
                range,
            ),
    {
        assert(self.entries@.map_values(|e: AddressDispatch| e.units@)
            =~= source.address_seq().map_values(|a: IpAddress| units_for(a, range)));
    }

    /// Every probe of the plan in dispatch order, flattened across addresses.
    pub fn all_units(&self) -> (r: Vec<ScanUnit>)
        ensures
            r@ == self.entries@.map_values(|e: AddressDispatch| e.units@).flatten(),
    {
        let ghost inner = self.entries@.map_values(|e: AddressDispatch| e.units@);
        let mut r: Vec<ScanUnit> = Vec::new();
        let mut i: usize = 0;
        while i < self.entries.len()
            invariant
                i <= self.entries@.len(),
                inner == self.entries@.map_values(|e: AddressDispatch| e.units@),
                r@ == inner.take(i as int).flatten(),
            decreases self.entries@.len() - i,
        {
            let entry = &self.entries[i];
            let ghost before = r@;
            let mut j: usize = 0;
            while j < entry.units.len()
                invariant
                    0 <= i < self.entries@.len(),
                    j <= entry.units@.len(),
                    entry == self.entries@[i as int],
                    r@ == before + entry.units@.take(j as int),
                decreases entry.units@.len() - j,
            {
                r.push(entry.units[j]);
                assert(r@ =~= before + entry.units@.take(j as int + 1));
                j += 1;
            }
            proof {
                assert(r@ =~= before + inner[i as int]);
                lemma_flatten_take_step(inner, i as int);
            }
            i += 1;
        }
        proof {
            assert(inner.take(inner.len() as int) =~= inner);
        }
        r
    }
}

/// The probes for one address, one per port, ascending.
pub fn probe_units(addr: IpAddress, range: &PortRange) -> (r: Vec<ScanUnit>)
    requires
        range.wf(),
    ensures
        r@ == units_for(addr, *range),
{
    let ports = range.ports();
    let mut r: Vec<ScanUnit> = Vec::new();
    let mut i: usize = 0;
    while i < ports.len()
        invariant
            range.wf(),
            ports@ == range.ports_seq(),
            i <= ports@.len(),
            r@ =~= units_for(addr, *range).take(i as int),
        decreases ports@.len() - i,
    {
        r.push(ScanUnit { addr, port: ports[i] });
        assert(r@ =~= units_for(addr, *range).take(i as int + 1));
        i += 1;
    }
    assert(r@ =~= units_for(addr, *range));
    r
}

/// Taking one more inner sequence extends the flattened whole by exactly it.
proof fn lemma_flatten_take_step<A>(s: Seq<Seq<A>>, i: int)
    requires
        0 <= i < s.len(),
    ensures
        s.take(i + 1).flatten() == s.take(i).flatten() + s[i],
    decreases s.len(),
{
    let t1 = s.take(i + 1);
    let t0 = s.take(i);
    assert(t1 =~= t0.push(s[i]));
    lemma_flatten_push(t0, s[i]);
}

/// Flattening `s.push(x)` appends `x` to flattening `s`.
proof fn lemma_flatten_push<A>(s: Seq<Seq<A>>, x: Seq<A>)
    ensures
        s.push(x).flatten() == s.flatten() + x,
    decreases s.len(),
{
    if s.len() == 0 {
        assert(s.push(x).drop_first() =~= Seq::<Seq<A>>::empty());
        assert(Seq::<Seq<A>>::empty().flatten() =~= Seq::<A>::empty());
        assert(s.push(x).flatten() == s.push(x).first() + s.push(x).drop_first().flatten());
        assert(s.flatten() =~= Seq::<A>::empty());
        assert(s.push(x).flatten() =~= s.flatten() + x);
    } else {
        lemma_flatten_push(s.drop_first(), x);
        assert(s.push(x).drop_first() =~= s.drop_first().push(x));
        assert(s.push(x).flatten() == s.first() + s.drop_first().push(x).flatten());
        assert(s.push(x).flatten() =~= s.flatten() + x);
    }
}

/// Membership in one address's probes: exactly the in-range ports of that
/// address.
pub proof fn lemma_units_for_membership(addr: IpAddress, range: PortRange, u: ScanUnit)
    requires
        range.wf(),
    ensures
        units_for(addr, range).contains(u) <==> (u.addr == addr && range.contains_port(u.port)),
{
    if u.addr == addr && range.contains_port(u.port) {
        let i = u.port - range.start;
        assert(units_for(addr, range)[i as int] == u);
        assert(units_for(addr, range).contains(u));
    }
    if units_for(addr, range).contains(u) {
        let i = choose|i: int|
            0 <= i < units_for(addr, range).len() && units_for(addr, range)[i] == u;
        assert(u == units_for(addr, range)[i]);
    }
}

/// One address's probes repeat no port.
pub proof fn lemma_units_for_distinct(addr: IpAddress, range: PortRange)
    requires
        range.wf(),
    ensures
        units_for(addr, range).no_duplicates(),
{
}

/// Membership in the whole plan: exactly the (source address, in-range port)
/// pairs.
pub proof fn lemma_all_units_membership(addrs: Seq<IpAddress>, range: PortRange, u: ScanUnit)
    requires
        range.wf(),
    ensures
        all_units_spec(addrs, range).contains(u) <==> (addrs.contains(u.addr)
            && range.contains_port(u.port)),
    decreases addrs.len(),
{
    let inner = addrs.map_values(|a: IpAddress| units_for(a, range));
    if addrs.len() == 0 {
        assert(!all_units_spec(addrs, range).contains(u));
        assert(!addrs.contains(u.addr));
    } else {
        let rest = addrs.drop_first();
        lemma_all_units_membership(rest, range, u);
        assert(inner.drop_first() =~= rest.map_values(|a: IpAddress| units_for(a, range)));
        assert(all_units_spec(addrs, range) == units_for(addrs[0], range) + all_units_spec(
            rest,
            range,
        ));
        lemma_units_for_membership(addrs[0], range, u);
        lemma_concat_contains(units_for(addrs[0], range), all_units_spec(rest, range), u);
        assert(addrs.contains(u.addr) <==> (u.addr == addrs[0] || rest.contains(u.addr))) by {
            if addrs.contains(u.addr) {
                let i = choose|i: int| 0 <= i < addrs.len() && addrs[i] == u.addr;
                if i > 0 {
                    assert(rest[i - 1] == u.addr);
                }
            }
            if rest.contains(u.addr) {
                let i = choose|i: int| 0 <= i < rest.len() && rest[i] == u.addr;
                assert(addrs[i + 1] == u.addr);
            }
        }
    }
}

/// An element of a concatenation lies in one of the parts.
proof fn lemma_concat_contains<A>(a: Seq<A>, b: Seq<A>, x: A)
    ensures
        (a + b).contains(x) <==> (a.contains(x) || b.contains(x)),
{
    if a.contains(x) {
        let i = choose|i: int| 0 <= i < a.len() && a[i] == x;
        assert((a + b)[i] == x);
    }
    if b.contains(x) {
        let i = choose|i: int| 0 <= i < b.len() && b[i] == x;
        assert((a + b)[a.len() + i] == x);
    }
    if (a + b).contains(x) {
        let i = choose|i: int| 0 <= i < (a + b).len() && (a + b)[i] == x;
        if i < a.len() {
            assert(a[i] == x);
        } else {
            assert(b[i - a.len()] == x);
        }
    }
}

/// Concatenating two duplicate-free sequences with no common element is
/// duplicate-free.
proof fn lemma_concat_no_duplicates<A>(a: Seq<A>, b: Seq<A>)
    requires
        a.no_duplicates(),
        b.no_duplicates(),
        forall|x: A| a.contains(x) ==> !b.contains(x),
    ensures
        (a + b).no_duplicates(),
{
    assert forall|i: int, j: int|
        0 <= i < (a + b).len() && 0 <= j < (a + b).len() && i != j implies (a + b)[i] != (a
        + b)[j] by {
        if i < a.len() && j >= a.len() {
            assert(a.contains(a[i]));
            assert(b.contains(b[j - a.len()]));
        }
        if j < a.len() && i >= a.len() {
            assert(a.contains(a[j]));
            assert(b.contains(b[i - a.len()]));
        }
    }
}

/// The whole plan repeats no probe: every (address, port) pair occurs at most
/// once.
pub proof fn lemma_all_units_distinct(addrs: Seq<IpAddress>, range: PortRange)
    requires
        range.wf(),
        addrs.no_duplicates(),
    ensures
        all_units_spec(addrs, range).no_duplicates(),
    decreases addrs.len(),
{
    let inner = addrs.map_values(|a: IpAddress| units_for(a, range));
    if addrs.len() > 0 {
        let rest = addrs.drop_first();
        assert(rest.no_duplicates()) by {
            assert forall|i: int, j: int|
                0 <= i < rest.len() && 0 <= j < rest.len() && i != j implies rest[i] != rest[j] by {
                assert(rest[i] == addrs[i + 1]);
                assert(rest[j] == addrs[j + 1]);
            }
        }
        lemma_all_units_distinct(rest, range);
        assert(inner.drop_first() =~= rest.map_values(|a: IpAddress| units_for(a, range)));
        assert(all_units_spec(addrs, range) == units_for(addrs[0], range) + all_units_spec(
            rest,
            range,
        ));
        lemma_units_for_distinct(addrs[0], range);
        assert forall|x: ScanUnit| units_for(addrs[0], range).contains(x) implies !all_units_spec(
            rest,
            range,
        ).contains(x) by {
            lemma_units_for_membership(addrs[0], range, x);
            lemma_all_units_membership(rest, range, x);
            if rest.contains(x.addr) {
                let i = choose|i: int| 0 <= i < rest.len() && rest[i] == x.addr;
                assert(addrs[i + 1] == x.addr);
                assert(addrs[0] != addrs[i + 1]);
            }
        }
        lemma_concat_no_duplicates(units_for(addrs[0], range), all_units_spec(rest, range));
    }
}

} // verus!
