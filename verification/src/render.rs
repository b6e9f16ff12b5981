use vstd::prelude::*;
use crate::addr::IpAddress;
use crate::plan::{ScanPlan, ScanUnit};
use crate::range::PortRange;

verus! {

/// The decimal digit character for `d`.
pub open spec fn dec_digit(d: int) -> char
    recommends
        0 <= d < 10,
{
    if d == 0 {
        '0'
    } else if d == 1 {
        '1'
    } else if d == 2 {
        '2'
    } else if d == 3 {
        '3'
    } else if d == 4 {
        '4'
    } else if d == 5 {
        '5'
    } else if d == 6 {
        '6'
    } else if d == 7 {
        '7'
    } else if d == 8 {
        '8'
    } else {
        '9'
    }
}

/// The decimal rendering of `n`, most significant digit first, no leading
/// zeros (a lone zero for 0).
pub open spec fn dec_chars(n: int) -> Seq<char>
    recommends
        n >= 0,
    decreases n,
{
    if n < 10 {
        seq![dec_digit(n)]
    } else {
        dec_chars(n / 10).push(dec_digit(n % 10))
    }
}

/// The lowercase hexadecimal digit character for `d`.
pub open spec fn hex_digit(d: int) -> char
    recommends
        0 <= d < 16,
{
    if d < 10 {
        dec_digit(d)
    } else if d == 10 {
        'a'
    } else if d == 11 {
        'b'
    } else if d == 12 {
        'c'
    } else if d == 13 {
        'd'
    } else if d == 14 {
        'e'
    } else {
        'f'
    }
}

/// The lowercase hexadecimal rendering of `n`, no leading zeros.
pub open spec fn hex_chars(n: int) -> Seq<char>
    recommends
        n >= 0,
    decreases n,
{
    if n < 16 {
        seq![hex_digit(n)]
    } else {
        hex_chars(n / 16).push(hex_digit(n % 16))
    }
}

/// Dotted-quad text of a 32-bit address value.
pub open spec fn ipv4_chars(v: int) -> Seq<char>
    recommends
        0 <= v < 0x1_0000_0000,
{
    dec_chars(v / 0x100_0000) + seq!['.'] + dec_chars((v / 0x1_0000) % 256) + seq!['.'] + dec_chars(
        (v / 0x100) % 256,
    ) + seq!['.'] + dec_chars(v % 256)
}

/// The divisor that brings 16-bit group `i` (0 = most significant) of a
/// 128-bit address value into the low bits.
pub open spec fn group_div(i: int) -> int {
    if i == 0 {
        0x1_0000_0000_0000_0000_0000_0000_0000
    } else if i == 1 {
        0x1_0000_0000_0000_0000_0000_0000
    } else if i == 2 {
        0x1_0000_0000_0000_0000_0000
    } else if i == 3 {
        0x1_0000_0000_0000_0000
    } else if i == 4 {
        0x1_0000_0000_0000
    } else if i == 5 {
        0x1_0000_0000
    } else if i == 6 {
        0x1_0000
    } else {
        1
    }
}

/// The eight 16-bit groups of a 128-bit address value, most significant
/// first.
pub open spec fn groups(v: int) -> Seq<u16>
    recommends
        0 <= v,
{
    Seq::new(8, |i: int| (((v / group_div(i)) % 0x1_0000) as u16))
}

/// The length of the run of zero groups starting at `i`.
pub open spec fn run_len_at(g: Seq<u16>, i: int) -> int
    decreases g.len() - i,
{
    if i < 0 || i >= g.len() || g[i] != 0 {
        0
    } else {
        1 + run_len_at(g, i + 1)
    }
}

/// The start of the leftmost longest run of zero groups at or after `i`
/// (`g.len()` when scanning past the end).
pub open spec fn best_zero_run(g: Seq<u16>, i: int) -> int
    decreases g.len() - i,
{
    if i < 0 || i >= g.len() {
        i
    } else {
        let rest = best_zero_run(g, i + 1);
        if run_len_at(g, i) >= run_len_at(g, rest) {
            i
        } else {
            rest
        }
    }
}

/// Hexadecimal groups `[from, to)` joined with `:`.
pub open spec fn join_hex(g: Seq<u16>, from: int, to: int) -> Seq<char>
    recommends
        0 <= from,
        to <= g.len(),
    decreases to - from,
{
    if from >= to {
        Seq::<char>::empty()
    } else if from == to - 1 {
        hex_chars(g[from] as int)
    } else {
        hex_chars(g[from] as int) + seq![':'] + join_hex(g, from + 1, to)
    }
}

/// An IPv4-mapped value: the six leading groups are `0,0,0,0,0,ffff`.
pub open spec fn is_v4_mapped(g: Seq<u16>) -> bool {
    g.len() == 8 && g[0] == 0 && g[1] == 0 && g[2] == 0 && g[3] == 0 && g[4] == 0 && g[5] == 0xffff
}

/// Canonical text of a 128-bit address value: an IPv4-mapped address shows
/// its dotted-quad tail; otherwise the leftmost longest run of two or more
/// zero groups collapses to `::`.
pub open spec fn ipv6_chars(v: int) -> Seq<char>
    recommends
        0 <= v < 0x1_0000_0000_0000_0000_0000_0000_0000_0000,
{
    let g = groups(v);
    if is_v4_mapped(g) {
        seq![':', ':', 'f', 'f', 'f', 'f', ':'] + ipv4_chars(v % 0x1_0000_0000)
    } else {
        let b = best_zero_run(g, 0);
        let l = run_len_at(g, b);
        if l >= 2 {
            join_hex(g, 0, b) + seq![':', ':'] + join_hex(g, b + l, 8)
        } else {
            join_hex(g, 0, 8)
        }
    }
}

/// The text of an address, as the report prints it.
pub open spec fn addr_chars(a: IpAddress) -> Seq<char> {
    match a {
        IpAddress::V4(v) => ipv4_chars(v as int),
        IpAddress::V6(v) => ipv6_chars(v as int),
    }
}

/// The progress marker printed when an address's probes are dispatched.
pub open spec fn progress_line_chars(a: IpAddress, range: PortRange) -> Seq<char> {
    seq!['?', ' '] + addr_chars(a) + seq![':'] + dec_chars(range.start as int) + seq!['-']
        + dec_chars(range.end as int)
}

/// The line printed for one open port after the run completes.
pub open spec fn report_line_chars(u: ScanUnit) -> Seq<char> {
    seq!['=', ' '] + addr_chars(u.addr) + seq![':'] + dec_chars(u.port as int)
}

/// Relies on `String`'s `FromIterator<char>`: collecting characters builds
/// the string of exactly those characters in order.
#[verifier::external_body]
fn chars_to_string(v: Vec<char>) -> (r: String)
    ensures
        r@ == v@,
{
    v.into_iter().collect()
}

/// The decimal digit character for `d`.
fn dec_digit_exec(d: u32) -> (c: char)
    requires
        d < 10,
    ensures
        c == dec_digit(d as int),
{
    if d == 0 {
        '0'
    } else if d == 1 {
        '1'
    } else if d == 2 {
        '2'
    } else if d == 3 {
        '3'
    } else if d == 4 {
        '4'
    } else if d == 5 {
        '5'
    } else if d == 6 {
        '6'
    } else if d == 7 {
        '7'
    } else if d == 8 {
        '8'
    } else {
        '9'
    }
}

/// The lowercase hexadecimal digit character for `d`.
fn hex_digit_exec(d: u16) -> (c: char)
    requires
        d < 16,
    ensures
        c == hex_digit(d as int),
{
    if d < 10 {
        dec_digit_exec(d as u32)
    } else if d == 10 {
        'a'
    } else if d == 11 {
        'b'
    } else if d == 12 {
        'c'
    } else if d == 13 {
        'd'
    } else if d == 14 {
        'e'
    } else {
        'f'
    }
}

/// Append the decimal rendering of `n`.
fn push_dec(v: &mut Vec<char>, n: u32)
    ensures
        final(v)@ == old(v)@ + dec_chars(n as int),
    decreases n,
{
    if n >= 10 {
        push_dec(v, n / 10);
    }
    let c = dec_digit_exec(n % 10);
    v.push(c);
    assert(final(v)@ =~= old(v)@ + dec_chars(n as int));
}

/// Append the lowercase hexadecimal rendering of `n`.
fn push_hex(v: &mut Vec<char>, n: u16)
    ensures
        final(v)@ == old(v)@ + hex_chars(n as int),
    decreases n,
{
    if n >= 16 {
        push_hex(v, n / 16);
    }
    let c = hex_digit_exec(n % 16);
    v.push(c);
    assert(final(v)@ =~= old(v)@ + hex_chars(n as int));
}

/// Append the dotted-quad text of `a`.
fn push_ipv4(v: &mut Vec<char>, a: u32)
    ensures
        final(v)@ == old(v)@ + ipv4_chars(a as int),
{
    push_dec(v, a / 0x100_0000);
    v.push('.');
    push_dec(v, (a / 0x1_0000) % 256);
    v.push('.');
    push_dec(v, (a / 0x100) % 256);
    v.push('.');
    push_dec(v, a % 256);
    assert(final(v)@ =~= old(v)@ + ipv4_chars(a as int));
}

/// The eight 16-bit groups of `a`, most significant first.
fn groups_of(a: u128) -> (g: Vec<u16>)
    ensures
        g@ == groups(a as int),
{
    let mut g: Vec<u16> = Vec::new();
    g.push(((a / 0x1_0000_0000_0000_0000_0000_0000_0000u128) % 0x1_0000) as u16);
    g.push(((a / 0x1_0000_0000_0000_0000_0000_0000u128) % 0x1_0000) as u16);
    g.push(((a / 0x1_0000_0000_0000_0000_0000u128) % 0x1_0000) as u16);
    g.push(((a / 0x1_0000_0000_0000_0000u128) % 0x1_0000) as u16);
    g.push(((a / 0x1_0000_0000_0000u128) % 0x1_0000) as u16);
    g.push(((a / 0x1_0000_0000u128) % 0x1_0000) as u16);
    g.push(((a / 0x1_0000u128) % 0x1_0000) as u16);
    g.push((a % 0x1_0000) as u16);
    assert(g@ =~= groups(a as int));
    g
}

/// The length of the run of zero groups starting at `i`.
fn run_len_at_exec(g: &Vec<u16>, i: usize) -> (r: usize)
    requires
        i <= g@.len(),
    ensures
        r == run_len_at(g@, i as int),
        i + r <= g@.len(),
    decreases g@.len() - i,
{
    if i >= g.len() || g[i] != 0 {
        0
    } else {
        1 + run_len_at_exec(g, i + 1)
    }
}

/// The start of the leftmost longest run of zero groups at or after `i`.
fn best_zero_run_exec(g: &Vec<u16>, i: usize) -> (r: usize)
    requires
        i <= g@.len(),
    ensures
        r == best_zero_run(g@, i as int),
        i <= r <= g@.len(),
    decreases g@.len() - i,
{
    if i >= g.len() {
        i
    } else {
        let rest = best_zero_run_exec(g, i + 1);
        if run_len_at_exec(g, i) >= run_len_at_exec(g, rest) {
            i
        } else {
            rest
        }
    }
}

/// Append hexadecimal groups `[from, to)` joined with `:`.
fn push_join_hex(v: &mut Vec<char>, g: &Vec<u16>, from: usize, to: usize)
    requires
        from <= to,
        to <= g@.len(),
    ensures
        final(v)@ == old(v)@ + join_hex(g@, from as int, to as int),
    decreases to - from,
{
    if from >= to {
        assert(final(v)@ =~= old(v)@ + join_hex(g@, from as int, to as int));
    } else if from == to - 1 {
        push_hex(v, g[from]);
        assert(final(v)@ =~= old(v)@ + join_hex(g@, from as int, to as int));
    } else {
        push_hex(v, g[from]);
        v.push(':');
        push_join_hex(v, g, from + 1, to);
        assert(final(v)@ =~= old(v)@ + join_hex(g@, from as int, to as int));
    }
}

/// Append the canonical text of `a`.
fn push_ipv6(v: &mut Vec<char>, a: u128)
    ensures
        final(v)@ == old(v)@ + ipv6_chars(a as int),
{
    let g = groups_of(a);
    let mapped = g[0] == 0 && g[1] == 0 && g[2] == 0 && g[3] == 0 && g[4] == 0 && g[5] == 0xffff;
    assert(mapped == is_v4_mapped(groups(a as int)));
    if mapped {
        v.push(':');
        v.push(':');
        v.push('f');
        v.push('f');
        v.push('f');
        v.push('f');
        v.push(':');
        push_ipv4(v, (a % 0x1_0000_0000) as u32);
        assert(final(v)@ =~= old(v)@ + ipv6_chars(a as int));
    } else {
        let b = best_zero_run_exec(&g, 0);
        let l = run_len_at_exec(&g, b);
        if l >= 2 {
            push_join_hex(v, &g, 0, b);
            v.push(':');
            v.push(':');
            push_join_hex(v, &g, b + l, 8);
            assert(final(v)@ =~= old(v)@ + ipv6_chars(a as int));
        } else {
            push_join_hex(v, &g, 0, 8);
            assert(final(v)@ =~= old(v)@ + ipv6_chars(a as int));
        }
    }
}

/// The text of an address, as the report prints it.
pub fn address_string(a: &IpAddress) -> (r: String)
    ensures
        r@ == addr_chars(*a),
{
    let mut v: Vec<char> = Vec::new();
    match a {
        IpAddress::V4(x) => push_ipv4(&mut v, *x),
        IpAddress::V6(x) => push_ipv6(&mut v, *x),
    }
    chars_to_string(v)
}

/// The progress marker for one address: printed before any of its probes
/// is dispatched.
pub fn progress_line(a: &IpAddress, range: &PortRange) -> (r: String)
    ensures
        r@ == progress_line_chars(*a, *range),
{
    let mut v: Vec<char> = Vec::new();
    v.push('?');
    v.push(' ');
    match a {
        IpAddress::V4(x) => push_ipv4(&mut v, *x),
        IpAddress::V6(x) => push_ipv6(&mut v, *x),
    }
    v.push(':');
    push_dec(&mut v, range.start() as u32);
    v.push('-');
    push_dec(&mut v, range.end() as u32);
    assert(v@ =~= progress_line_chars(*a, *range));
    chars_to_string(v)
}

/// The report line for one open port.
pub fn report_line(u: &ScanUnit) -> (r: String)
    ensures
        r@ == report_line_chars(*u),
{
    let mut v: Vec<char> = Vec::new();
    v.push('=');
    v.push(' ');
    match u.addr {
        IpAddress::V4(x) => push_ipv4(&mut v, x),
        IpAddress::V6(x) => push_ipv6(&mut v, x),
    }
    v.push(':');
    push_dec(&mut v, u.port as u32);
    assert(v@ =~= report_line_chars(*u));
    chars_to_string(v)
}

/// The progress markers of a whole plan: exactly one line per source
/// address, in source order, each belonging to the entry whose probes it
/// precedes.
pub fn progress_lines(plan: &ScanPlan) -> (r: Vec<String>)
    ensures
        r@.len() == plan.entries@.len(),
        forall|i: int|
            0 <= i < r@.len() ==> (#[trigger] r@[i])@ == progress_line_chars(
                plan.entries@[i].addr,
                plan.range,
            ),
{
    let mut r: Vec<String> = Vec::new();
    let mut i: usize = 0;
    while i < plan.entries.len()
        invariant
            i <= plan.entries@.len(),
            r@.len() == i,
            forall|k: int|
                0 <= k < i ==> (#[trigger] r@[k])@ == progress_line_chars(
                    plan.entries@[k].addr,
                    plan.range,
                ),
        decreases plan.entries@.len() - i,
    {
        let line = progress_line(&plan.entries[i].addr, &plan.range);
        r.push(line);
        i += 1;
    }
    r
}

/// The report lines for a whole result set, in its order.
pub fn report_lines(units: &Vec<ScanUnit>) -> (r: Vec<String>)
    ensures
        r@.len() == units@.len(),
        forall|i: int| 0 <= i < r@.len() ==> (#[trigger] r@[i])@ == report_line_chars(units@[i]),
{
    let mut r: Vec<String> = Vec::new();
    let mut i: usize = 0;
    while i < units.len()
        invariant
            i <= units@.len(),
            r@.len() == i,
            forall|k: int| 0 <= k < i ==> (#[trigger] r@[k])@ == report_line_chars(units@[k]),
        decreases units@.len() - i,
    {
        let line = report_line(&units[i]);
        r.push(line);
        i += 1;
    }
    r
}

} // verus!

