use vstd::prelude::*;
use crate::addr::IpAddress;
use crate::plan::{all_units_spec, lemma_all_units_distinct, lemma_all_units_membership, ScanUnit};
use crate::range::PortRange;
use crate::source::AddressSource;

verus! {

broadcast use vstd::seq_lib::group_to_multiset_ensures;

/// The result set of a run: it accumulates every probe reported open, in
/// arrival order, and is read out once after the last probe has finished.
pub struct Collector {
    pub items: Vec<ScanUnit>,
}

impl View for Collector {
    type V = Seq<ScanUnit>;

    open spec fn view(&self) -> Seq<ScanUnit> {
        self.items@
    }
}

impl Collector {
    /// An empty result set.
    pub fn new() -> (r: Collector)
        ensures
            r@ =~= Seq::<ScanUnit>::empty(),
    {
        Collector { items: Vec::new() }
    }

    /// Record one probe reported open.
    pub fn record(&mut self, u: ScanUnit)
        ensures
            final(self)@ == old(self)@.push(u),
    {
        self.items.push(u);
    }

    /// How many results have arrived so far.
    pub fn len(&self) -> (n: usize)
        ensures
            n == self@.len(),
    {
        self.items.len()
    }

    /// Hand the accumulated result set to the reporting layer.
    pub fn units(self) -> (r: Vec<ScanUnit>)
        ensures
            r@ == self@,
    {
        self.items
    }
}

/// The units a scan reports open, in dispatch order, for given probe
/// outcomes: those units of the plan whose probe found the port open.
pub open spec fn open_units(units: Seq<ScanUnit>, open: spec_fn(ScanUnit) -> bool) -> Seq<
    ScanUnit,
> {
    units.filter(open)
}

/// What a completed run may leave in the collector: probes finish in no
/// fixed order, so any arrival order of exactly the open units is a run
/// result.
pub open spec fn is_run_result(
    units: Seq<ScanUnit>,
    open: spec_fn(ScanUnit) -> bool,
    r: Seq<ScanUnit>,
) -> bool {
    r.to_multiset() == open_units(units, open).to_multiset()
}

/// A duplicate-free sequence filters to a duplicate-free sequence.
proof fn lemma_filter_no_duplicates<A>(s: Seq<A>, pred: spec_fn(A) -> bool)
    requires
        s.no_duplicates(),
    ensures
        s.filter(pred).no_duplicates(),
    decreases s.len(),
{
    reveal(Seq::filter);
    if s.len() > 0 {
        let rest = s.drop_last();
        assert(rest.no_duplicates());
        lemma_filter_no_duplicates(rest, pred);
        if pred(s.last()) {
            assert(s.filter(pred) == rest.filter(pred).push(s.last()));
            assert(!rest.filter(pred).contains(s.last())) by {
                if rest.filter(pred).contains(s.last()) {
                    rest.lemma_filter_contains_rev(pred, s.last());
                    let i = choose|i: int| 0 <= i < rest.len() && rest[i] == s.last();
                    assert(s[i] == s[s.len() - 1]);
                }
            }
            let f = rest.filter(pred);
            assert forall|i: int, j: int|
                0 <= i < f.push(s.last()).len() && 0 <= j < f.push(s.last()).len() && i
                    != j implies f.push(s.last())[i] != f.push(s.last())[j] by {
                if i < f.len() && j < f.len() {
                } else if i < f.len() {
                    assert(f.contains(f[i]));
                } else if j < f.len() {
                    assert(f.contains(f[j]));
                }
            }
        }
    }
}

/// For every choice of probe outcomes over a scan of this source and this
/// range, the reported result set holds exactly the open units: each is a
/// distinct (address, port) pair with a source address and an in-range
/// port, and every open unit of the plan is reported.
pub proof fn lemma_result_set_exact_for_source(
    source: AddressSource,
    range: PortRange,
    open: spec_fn(ScanUnit) -> bool,
)
    requires
        source.wf(),
        range.wf(),
    ensures
        open_units(all_units_spec(source.address_seq(), range), open).no_duplicates(),
        forall|u: ScanUnit|
            open_units(all_units_spec(source.address_seq(), range), open).contains(u) <==> (
            all_units_spec(source.address_seq(), range).contains(u) && open(u)),
        forall|u: ScanUnit|
            open_units(all_units_spec(source.address_seq(), range), open).contains(u) ==> (
            source.address_seq().contains(u.addr) && range.contains_port(u.port)),
{
    source.lemma_addresses_distinct();
    lemma_result_set_exact(source.address_seq(), range, open);
}

/// The same statement over a plain address sequence without repeats.
pub proof fn lemma_result_set_exact(
    addrs: Seq<IpAddress>,
    range: PortRange,
    open: spec_fn(ScanUnit) -> bool,
)
    requires
        range.wf(),
        addrs.no_duplicates(),
    ensures
        open_units(all_units_spec(addrs, range), open).no_duplicates(),
        forall|u: ScanUnit|
            open_units(all_units_spec(addrs, range), open).contains(u) <==> (all_units_spec(
                addrs,
                range,
            ).contains(u) && open(u)),
        forall|u: ScanUnit|
            open_units(all_units_spec(addrs, range), open).contains(u) ==> (addrs.contains(u.addr)
                && range.contains_port(u.port)),
{
    let units = all_units_spec(addrs, range);
    let results = open_units(units, open);
    lemma_all_units_distinct(addrs, range);
    lemma_filter_no_duplicates(units, open);
    broadcast use vstd::seq_lib::group_filter_ensures;
    assert forall|u: ScanUnit| results.contains(u) implies (units.contains(u) && open(u)) by {
        units.lemma_filter_contains_rev(open, u);
        let i = choose|i: int| 0 <= i < results.len() && results[i] == u;
        assert(open(results[i]));
    }
    assert forall|u: ScanUnit| units.contains(u) && open(u) implies results.contains(u) by {
        let i = choose|i: int| 0 <= i < units.len() && units[i] == u;
        assert(results.contains(units[i]));
    }
    assert forall|u: ScanUnit| results.contains(u) implies (addrs.contains(u.addr)
        && range.contains_port(u.port)) by {
        lemma_all_units_membership(addrs, range, u);
    }
}

/// When no probe finds an open port, the result set is empty.
pub proof fn lemma_no_open_no_results(units: Seq<ScanUnit>, open: spec_fn(ScanUnit) -> bool)
    requires
        forall|u: ScanUnit| !(#[trigger] open(u)),
    ensures
        open_units(units, open).len() == 0,
{
    broadcast use vstd::seq_lib::group_filter_ensures;
    if open_units(units, open).len() > 0 {
        assert(open(open_units(units, open)[0]));
    }
}

/// A completed run, however its results arrived, reports exactly as many
/// entries as the plan has open units, holds exactly those units, and --
/// when the plan repeats no unit -- repeats none of them.
pub proof fn lemma_run_result_size(
    units: Seq<ScanUnit>,
    open: spec_fn(ScanUnit) -> bool,
    r: Seq<ScanUnit>,
)
    requires
        is_run_result(units, open, r),
    ensures
        r.len() == open_units(units, open).len(),
        forall|u: ScanUnit| r.contains(u) <==> open_units(units, open).contains(u),
        units.no_duplicates() ==> r.no_duplicates(),
{
    let expected = open_units(units, open);
    assert(r.len() == r.to_multiset().len());
    assert(expected.len() == expected.to_multiset().len());
    assert forall|u: ScanUnit| r.contains(u) <==> expected.contains(u) by {
        assert(r.contains(u) <==> r.to_multiset().count(u) > 0);
        assert(expected.contains(u) <==> expected.to_multiset().count(u) > 0);
    }
    if units.no_duplicates() {
        lemma_filter_no_duplicates(units, open);
        expected.lemma_multiset_has_no_duplicates();
        r.lemma_multiset_has_no_duplicates_conv();
    }
}

/// Idempotence: two completed runs of the same plan against the same
/// outcomes leave the same result set, however differently arrival
/// interleaved the two runs were.
pub proof fn lemma_scan_idempotent(
    units: Seq<ScanUnit>,
    open: spec_fn(ScanUnit) -> bool,
    r1: Seq<ScanUnit>,
    r2: Seq<ScanUnit>,
)
    requires
        is_run_result(units, open, r1),
        is_run_result(units, open, r2),
    ensures
        r1.to_multiset() == r2.to_multiset(),
        r1.to_set() == r2.to_set(),
{
    assert(r1.to_set() =~= r2.to_set()) by {
        assert forall|u: ScanUnit| r1.contains(u) <==> r2.contains(u) by {
            assert(r1.contains(u) <==> r1.to_multiset().count(u) > 0);
            assert(r2.contains(u) <==> r2.to_multiset().count(u) > 0);
        }
        assert forall|u: ScanUnit| #[trigger] r1.to_set().contains(u) <==> r2.to_set().contains(
            u,
        ) by {
            assert(r1.to_set().contains(u) <==> r1.contains(u));
            assert(r2.to_set().contains(u) <==> r2.contains(u));
        }
    }
}

} // verus!
