use portscan::addr::IpAddress;
use portscan::range::PortRange;
use portscan::render::{address_string, progress_line, report_line};
use portscan::plan::ScanUnit;

#[test]
fn ipv4_dotted_quad() {
    assert_eq!(address_string(&IpAddress::V4(0x7f00_0001)), "127.0.0.1");
    assert_eq!(address_string(&IpAddress::V4(0)), "0.0.0.0");
    assert_eq!(address_string(&IpAddress::V4(0xffff_ffff)), "255.255.255.255");
    assert_eq!(address_string(&IpAddress::V4(0xc000_0201)), "192.0.2.1");
}

#[test]
fn ipv6_loopback_and_unspecified() {
    assert_eq!(address_string(&IpAddress::V6(0)), "::");
    assert_eq!(address_string(&IpAddress::V6(1)), "::1");
}

#[test]
fn ipv6_compresses_longest_zero_run() {
    let v = 0x2001_0db8_0000_0000_0000_0000_0000_0001u128;
    assert_eq!(address_string(&IpAddress::V6(v)), "2001:db8::1");
    let trailing = 0x2001_0db8_0000_0001_0000_0000_0000_0000u128;
    assert_eq!(address_string(&IpAddress::V6(trailing)), "2001:db8:0:1::");
}

#[test]
fn ipv6_prefers_leftmost_of_equal_runs() {
    let v = 0x2001_0000_0000_0db8_0000_0000_0db8_0001u128;
    assert_eq!(address_string(&IpAddress::V6(v)), "2001::db8:0:0:db8:1");
}

#[test]
fn ipv6_single_zero_group_stays() {
    let v = 0x0001_0000_0002_0003_0004_0005_0006_0007u128;
    assert_eq!(address_string(&IpAddress::V6(v)), "1:0:2:3:4:5:6:7");
}

#[test]
fn ipv6_mapped_shows_dotted_tail() {
    let v = 0x0000_0000_0000_0000_0000_ffff_c000_0201u128;
    assert_eq!(address_string(&IpAddress::V6(v)), "::ffff:192.0.2.1");
}

#[test]
fn ipv6_groups_are_lowercase_hex() {
    let v = 0xfe80_0000_0000_0000_abcd_ef01_2345_6789u128;
    assert_eq!(address_string(&IpAddress::V6(v)), "fe80::abcd:ef01:2345:6789");
}

#[test]
fn progress_marker_format() {
    let range = PortRange::new(4990, 5010).unwrap();
    let line = progress_line(&IpAddress::V4(0x7f00_0001), &range);
    assert_eq!(line, "? 127.0.0.1:4990-5010");
}

#[test]
fn report_line_for_ipv6_target() {
    let line = report_line(&ScanUnit { addr: IpAddress::V6(1), port: 22 });
    assert_eq!(line, "= ::1:22");
}

#[test]
fn report_line_at_numeric_extremes() {
    let line = report_line(&ScanUnit { addr: IpAddress::V4(0xffff_ffff), port: 65535 });
    assert_eq!(line, "= 255.255.255.255:65535");
}
