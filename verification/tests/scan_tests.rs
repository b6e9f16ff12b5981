use portscan::addr::{CidrBlock, IpAddress};
use portscan::collect::Collector;
use portscan::plan::{ScanPlan, ScanUnit};
use portscan::range::{ConfigError, PortRange};
use portscan::render::{progress_lines, report_line, report_lines};
use portscan::source::AddressSource;

const LOCALHOST_V4: IpAddress = IpAddress::V4(0x7f00_0001);

#[test]
fn rejects_zero_start() {
    assert_eq!(PortRange::new(0, 10), Err(ConfigError::ZeroStart));
}

#[test]
fn rejects_reversed_range() {
    assert_eq!(PortRange::new(5, 4), Err(ConfigError::EmptyRange));
}

#[test]
fn accepts_valid_range() {
    let r = PortRange::new(4000, 50000).unwrap();
    assert_eq!(r.start(), 4000);
    assert_eq!(r.end(), 50000);
    assert_eq!(r.count(), 46001);
}

#[test]
fn accepts_single_port_range() {
    let r = PortRange::new(1, 1).unwrap();
    assert_eq!(r.ports(), vec![1]);
}

#[test]
fn ports_are_ascending_and_inclusive() {
    let r = PortRange::new(20, 25).unwrap();
    assert_eq!(r.ports(), vec![20, 21, 22, 23, 24, 25]);
}

#[test]
fn cidr_slash_30_covers_four_addresses() {
    let block = CidrBlock::new(IpAddress::V4(0x7f00_0000), 30).unwrap();
    let addrs = block.addresses();
    assert_eq!(
        addrs,
        vec![
            IpAddress::V4(0x7f00_0000),
            IpAddress::V4(0x7f00_0001),
            IpAddress::V4(0x7f00_0002),
            IpAddress::V4(0x7f00_0003),
        ]
    );
}

#[test]
fn cidr_rejects_unaligned_base() {
    assert!(CidrBlock::new(IpAddress::V4(0x7f00_0001), 30).is_none());
}

#[test]
fn cidr_rejects_prefix_beyond_family() {
    assert!(CidrBlock::new(IpAddress::V4(0), 33).is_none());
    assert!(CidrBlock::new(IpAddress::V6(0), 129).is_none());
}

#[test]
fn cidr_host_route_is_single_address() {
    let block = CidrBlock::new(LOCALHOST_V4, 32).unwrap();
    assert_eq!(block.addresses(), vec![LOCALHOST_V4]);
}

#[test]
fn whole_ipv6_family_is_not_enumerable() {
    let block = CidrBlock::new(IpAddress::V6(0), 0).unwrap();
    assert!(!block.enumerable());
}

#[test]
fn ipv6_slash_126_covers_four_addresses() {
    let block = CidrBlock::new(IpAddress::V6(0), 126).unwrap();
    assert_eq!(
        block.addresses(),
        vec![
            IpAddress::V6(0),
            IpAddress::V6(1),
            IpAddress::V6(2),
            IpAddress::V6(3),
        ]
    );
}

#[test]
fn single_source_yields_one_address() {
    let source = AddressSource::single(LOCALHOST_V4);
    assert_eq!(source.addresses(), vec![LOCALHOST_V4]);
}

#[test]
fn plan_expands_cross_product() {
    let range = PortRange::new(20, 25).unwrap();
    let block = CidrBlock::new(IpAddress::V4(0x7f00_0000), 30).unwrap();
    let source = AddressSource::cidr(block);
    let plan = ScanPlan::new(&source, &range);
    assert_eq!(plan.entries.len(), 4);
    for (i, entry) in plan.entries.iter().enumerate() {
        assert_eq!(entry.addr, IpAddress::V4(0x7f00_0000 + i as u32));
        assert_eq!(entry.units.len(), 6);
        for (j, unit) in entry.units.iter().enumerate() {
            assert_eq!(unit.addr, entry.addr);
            assert_eq!(unit.port, 20 + j as u16);
        }
    }
    assert_eq!(plan.all_units().len(), 24);
}

#[test]
fn collector_keeps_arrival_order() {
    let mut c = Collector::new();
    assert_eq!(c.len(), 0);
    let u1 = ScanUnit { addr: LOCALHOST_V4, port: 22 };
    let u2 = ScanUnit { addr: LOCALHOST_V4, port: 80 };
    c.record(u2);
    c.record(u1);
    assert_eq!(c.units(), vec![u2, u1]);
}

fn simulate_run<F: Fn(&ScanUnit) -> bool>(plan: &ScanPlan, port_open: F) -> Collector {
    let mut collector = Collector::new();
    for unit in plan.all_units() {
        if port_open(&unit) {
            collector.record(unit);
        }
    }
    collector
}

#[test]
fn local_listener_on_5000_is_the_only_result() {
    let range = PortRange::new(4990, 5010).unwrap();
    let source = AddressSource::single(LOCALHOST_V4);
    let plan = ScanPlan::new(&source, &range);
    let collector = simulate_run(&plan, |u| u.addr == LOCALHOST_V4 && u.port == 5000);
    let results = collector.units();
    assert_eq!(results, vec![ScanUnit { addr: LOCALHOST_V4, port: 5000 }]);
    let lines = report_lines(&results);
    assert_eq!(lines, vec!["= 127.0.0.1:5000"]);
}

#[test]
fn cidr_scan_finds_listener_on_one_host() {
    let range = PortRange::new(20, 25).unwrap();
    let block = CidrBlock::new(IpAddress::V4(0x7f00_0000), 30).unwrap();
    let source = AddressSource::cidr(block);
    let plan = ScanPlan::new(&source, &range);
    let markers = progress_lines(&plan);
    assert_eq!(
        markers,
        vec![
            "? 127.0.0.0:20-25",
            "? 127.0.0.1:20-25",
            "? 127.0.0.2:20-25",
            "? 127.0.0.3:20-25",
        ]
    );
    let collector = simulate_run(&plan, |u| u.addr == LOCALHOST_V4 && u.port == 22);
    let results = collector.units();
    assert_eq!(results, vec![ScanUnit { addr: LOCALHOST_V4, port: 22 }]);
}

#[test]
fn no_open_ports_leaves_result_set_empty() {
    let range = PortRange::new(4990, 5010).unwrap();
    let source = AddressSource::single(LOCALHOST_V4);
    let plan = ScanPlan::new(&source, &range);
    let collector = simulate_run(&plan, |_| false);
    assert_eq!(collector.len(), 0);
    assert_eq!(collector.units(), vec![]);
}

#[test]
fn exact_open_count_is_reported() {
    let range = PortRange::new(1, 100).unwrap();
    let source = AddressSource::single(LOCALHOST_V4);
    let plan = ScanPlan::new(&source, &range);
    let collector = simulate_run(&plan, |u| u.port == 7 || u.port == 42 || u.port == 99);
    let results = collector.units();
    assert_eq!(results.len(), 3);
    for (a, b) in results.iter().zip(results.iter().skip(1)) {
        assert_ne!(a, b);
    }
    for u in &results {
        assert!(u.port >= 1 && u.port <= 100);
        assert_eq!(u.addr, LOCALHOST_V4);
    }
}

#[test]
fn repeated_scan_yields_same_result_set() {
    let range = PortRange::new(20, 40).unwrap();
    let block = CidrBlock::new(IpAddress::V4(0x7f00_0000), 30).unwrap();
    let source = AddressSource::cidr(block);
    let plan = ScanPlan::new(&source, &range);
    let port_open = |u: &ScanUnit| u.port % 7 == 0;
    let first = simulate_run(&plan, port_open).units();
    let second = simulate_run(&plan, port_open).units();
    let mut first_lines: Vec<String> = report_lines(&first);
    let mut second_lines: Vec<String> = report_lines(&second);
    first_lines.sort();
    second_lines.sort();
    assert_eq!(first_lines, second_lines);
    assert!(!first_lines.is_empty());
}

#[test]
fn report_line_shows_address_and_port() {
    let line = report_line(&ScanUnit { addr: LOCALHOST_V4, port: 5000 });
    assert_eq!(line, "= 127.0.0.1:5000");
}

#[test]
fn full_port_space_is_enumerable() {
    let r = PortRange::new(1, 65535).unwrap();
    let p = r.ports();
    assert_eq!(p.len(), 65535);
    assert_eq!(p[0], 1);
    assert_eq!(p[65534], 65535);
}

#[test]
fn cidr_slash_31_covers_two_addresses() {
    let block = CidrBlock::new(IpAddress::V4(0xc000_0200), 31).unwrap();
    assert_eq!(
        block.addresses(),
        vec![IpAddress::V4(0xc000_0200), IpAddress::V4(0xc000_0201)]
    );
}
