//! Addresses of the Internet: network masks and prefix lengths, the kinds
//! of addresses, and networks with their hosts.
//!
//! An IPv4 address is a number of 32 bits. An IPv6 address is sixteen
//! bytes, the first the highest; a list of them is one run of bytes.
//!
//! Networks are the work of the `ipnet` crate: this module walks the lists
//! and makes the calls.

use vstd::prelude::*;
use vstd::std_specs::bits::{
    axiom_u32_leading_ones, axiom_u64_leading_ones, u32_leading_ones, u64_leading_ones,
};

verus! {

/// The upper half of a 128-bit number.
pub open spec fn upper_half(mask: u128) -> u64 {
    (mask >> 64) as u64
}

/// The lower half of a 128-bit number.
pub open spec fn lower_half(mask: u128) -> u64 {
    (mask & 0xffff_ffff_ffff_ffff) as u64
}

/// The number of ones with which a 128-bit number begins: those of its
/// upper half, and where that half is all ones, those of its lower half
/// too.
pub open spec fn leading_ones_128(mask: u128) -> nat {
    if upper_half(mask) == 0xffff_ffff_ffff_ffffu64 {
        (64 + u64_leading_ones(lower_half(mask))) as nat
    } else {
        u64_leading_ones(upper_half(mask)) as nat
    }
}

/// The prefix length of an IPv4 netmask: the number of ones it begins with.
pub fn netmask_to_prefix4(mask: u32) -> (r: u8)
    ensures
        r == u32_leading_ones(mask),
        r <= 32,
{
    proof {
        axiom_u32_leading_ones(mask);
    }
    mask.leading_ones() as u8
}

/// All ones shifted up by `prefix` places.
pub fn prefix_to_netmask4(prefix: u8) -> (r: u32)
    requires
        prefix < 32,
    ensures
        r == 0xffff_ffffu32 << prefix,
{
    0xffffffffu32 << prefix
}

/// The prefix length of an IPv6 netmask: the number of ones it begins with.
pub fn netmask_to_prefix6(mask: u128) -> (r: u8)
    ensures
        r == leading_ones_128(mask),
        r <= 128,
{
    let upper: u64 = (mask >> 64) as u64;
    let lower: u64 = (mask & 0xffff_ffff_ffff_ffff) as u64;
    proof {
        axiom_u64_leading_ones(upper);
        axiom_u64_leading_ones(lower);
    }
    if upper == 0xffff_ffff_ffff_ffffu64 {
        (64 + lower.leading_ones()) as u8
    } else {
        upper.leading_ones() as u8
    }
}

/// All ones shifted up by `prefix` places.
pub fn prefix_to_netmask6(prefix: u8) -> (r: u128)
    requires
        prefix < 128,
    ensures
        r == 0xffff_ffff_ffff_ffff_ffff_ffff_ffff_ffffu128 << prefix,
{
    0xffffffffffffffffffffffffffffffffu128 << prefix
}

/// A kind of IPv4 addresses.
#[derive(Clone, Copy, Debug, PartialEq, Eq)]
pub enum Kind4 {
    /// `0.0.0.0`.
    Unspecified,
    /// `255.255.255.255`.
    Broadcast,
    /// `127.0.0.0/8`.
    Loopback,
    /// `10.0.0.0/8`, `172.16.0.0/12` and `192.168.0.0/16`.
    Private,
    /// `169.254.0.0/16`.
    LinkLocal,
    /// `224.0.0.0/4`.
    Multicast,
    /// `192.0.2.0/24`, `198.51.100.0/24` and `203.0.113.0/24`.
    Documentation,
    /// `100.64.0.0/10`.
    Shared,
    /// `198.18.0.0/15`.
    Benchmarking,
    /// `240.0.0.0/4` without the broadcast address.
    Reserved,
}

/// Whether the address `x` lies between `low` and `high`.
pub open spec fn between(x: u32, low: u32, high: u32) -> bool {
    low <= x <= high
}

/// Whether the address `x` is of the kind `kind`.
pub open spec fn is_of_kind4(kind: Kind4, x: u32) -> bool {
    match kind {
        Kind4::Unspecified => x == 0,
        Kind4::Broadcast => x == 0xffff_ffff,
        Kind4::Loopback => between(x, 0x7f00_0000, 0x7fff_ffff),
        Kind4::Private => between(x, 0x0a00_0000, 0x0aff_ffff) || between(
            x,
            0xac10_0000,
            0xac1f_ffff,
        ) || between(x, 0xc0a8_0000, 0xc0a8_ffff),
        Kind4::LinkLocal => between(x, 0xa9fe_0000, 0xa9fe_ffff),
        Kind4::Multicast => between(x, 0xe000_0000, 0xefff_ffff),
        Kind4::Documentation => between(x, 0xc000_0200, 0xc000_02ff) || between(
            x,
            0xc633_6400,
            0xc633_64ff,
        ) || between(x, 0xcb00_7100, 0xcb00_71ff),
        Kind4::Shared => between(x, 0x6440_0000, 0x647f_ffff),
        Kind4::Benchmarking => between(x, 0xc612_0000, 0xc613_ffff),
        Kind4::Reserved => between(x, 0xf000_0000, 0xffff_fffe),
    }
}

fn within(x: u32, low: u32, high: u32) -> (r: bool)
    ensures
        r == between(x, low, high),
{
    low <= x && x <= high
}

/// Whether the address `x` is of the kind `kind`.
pub fn of_kind4(kind: Kind4, x: u32) -> (r: bool)
    ensures
        r == is_of_kind4(kind, x),
{
    match kind {
        Kind4::Unspecified => x == 0,
        Kind4::Broadcast => x == 0xffff_ffff,
        Kind4::Loopback => within(x, 0x7f00_0000, 0x7fff_ffff),
        Kind4::Private => within(x, 0x0a00_0000, 0x0aff_ffff) || within(
            x,
            0xac10_0000,
            0xac1f_ffff,
        ) || within(x, 0xc0a8_0000, 0xc0a8_ffff),
        Kind4::LinkLocal => within(x, 0xa9fe_0000, 0xa9fe_ffff),
        Kind4::Multicast => within(x, 0xe000_0000, 0xefff_ffff),
        Kind4::Documentation => within(x, 0xc000_0200, 0xc000_02ff) || within(
            x,
            0xc633_6400,
            0xc633_64ff,
        ) || within(x, 0xcb00_7100, 0xcb00_71ff),
        Kind4::Shared => within(x, 0x6440_0000, 0x647f_ffff),
        Kind4::Benchmarking => within(x, 0xc612_0000, 0xc613_ffff),
        Kind4::Reserved => within(x, 0xf000_0000, 0xffff_fffe),
    }
}

/// For each address of `x`, whether it is of the kind `kind`.
pub fn each_of_kind4(kind: Kind4, x: &[u32]) -> (r: Vec<bool>)
    ensures
        r.len() == x.len(),
        forall|i: int| 0 <= i < x.len() ==> #[trigger] r[i] == is_of_kind4(kind, x[i]),
{
    let mut out: Vec<bool> = Vec::new();
    let mut i: usize = 0;
    while i < x.len()
        invariant
            i <= x.len(),
            out.len() == i,
            forall|k: int| 0 <= k < i ==> #[trigger] out[k] == is_of_kind4(kind, x[k]),
        decreases x.len() - i,
    {
        out.push(of_kind4(kind, x[i]));
        i = i + 1;
    }
    out
}

/// A kind of IPv6 addresses.
#[derive(Clone, Copy, Debug, PartialEq, Eq)]
pub enum Kind6 {
    /// `::`.
    Unspecified,
    /// `::1`.
    Loopback,
    /// `ff00::/8`.
    Multicast,
    /// Any address that is no multicast address.
    Unicast,
    /// `fe80::/10`.
    UnicastLinkLocal,
    /// `fc00::/7`.
    UniqueLocal,
    /// `::ffff:0:0/96`.
    Ipv4Mapped,
    /// `2001:2::/48`.
    Benchmarking,
}

/// Whether the bytes of `a` from `from` up to `to` are all zero.
pub open spec fn zeros(a: Seq<u8>, from: int, to: int) -> bool {
    forall|k: int| from <= k < to ==> #[trigger] a[k] == 0
}

/// Whether the address `a`, sixteen bytes, is of the kind `kind`.
pub open spec fn is_of_kind6(kind: Kind6, a: Seq<u8>) -> bool {
    match kind {
        Kind6::Unspecified => zeros(a, 0, 16),
        Kind6::Loopback => zeros(a, 0, 15) && a[15] == 1,
        Kind6::Multicast => a[0] == 0xff,
        Kind6::Unicast => a[0] != 0xff,
        Kind6::UnicastLinkLocal => a[0] == 0xfe && 0x80 <= a[1] <= 0xbf,
        Kind6::UniqueLocal => a[0] == 0xfc || a[0] == 0xfd,
        Kind6::Ipv4Mapped => zeros(a, 0, 10) && a[10] == 0xff && a[11] == 0xff,
        Kind6::Benchmarking => a[0] == 0x20 && a[1] == 0x01 && a[2] == 0 && a[3] == 0x02 && a[4]
            == 0 && a[5] == 0,
    }
}

/// The address at the place `i` of a list of addresses.
pub open spec fn address6(x: Seq<u8>, i: int) -> Seq<u8> {
    x.subrange(16 * i, 16 * i + 16)
}

/// The first `n` bytes of the address at the byte `at` of `x` are the `n`
/// bytes of `x` from `at` on.
proof fn lemma_zeros_of_address(x: Seq<u8>, at: int, n: int)
    requires
        0 <= at,
        0 <= n <= 16,
        at + 16 <= x.len(),
    ensures
        zeros(x.subrange(at, at + 16), 0, n) == zeros(x, at, at + n),
{
    let a = x.subrange(at, at + 16);
    if zeros(x, at, at + n) {
        assert forall|k: int| 0 <= k < n implies #[trigger] a[k] == 0 by {
            assert(x[at + k] == 0);
        }
    }
    if zeros(a, 0, n) {
        assert forall|k: int| at <= k < at + n implies #[trigger] x[k] == 0 by {
            assert(a[k - at] == 0);
        }
    }
}

/// Whether the `n` bytes of `x` from `at` on are all zero.
fn all_zero(x: &[u8], at: usize, n: usize) -> (r: bool)
    requires
        at + n <= x.len(),
    ensures
        r == zeros(x@, at as int, at + n),
{
    let mut k: usize = 0;
    while k < n
        invariant
            k <= n,
            at + n <= x.len(),
            zeros(x@, at as int, at + k),
        decreases n - k,
    {
        if x[at + k] != 0 {
            return false;
        }
        k = k + 1;
    }
    true
}

/// Whether the address that begins at the byte `at` of `x` is of the kind
/// `kind`.
pub fn of_kind6(kind: Kind6, x: &[u8], at: usize) -> (r: bool)
    requires
        at + 16 <= x.len(),
    ensures
        r == is_of_kind6(kind, x@.subrange(at as int, at + 16)),
{
    proof {
        lemma_zeros_of_address(x@, at as int, 16);
        lemma_zeros_of_address(x@, at as int, 15);
        lemma_zeros_of_address(x@, at as int, 10);
    }
    match kind {
        Kind6::Unspecified => all_zero(x, at, 16),
        Kind6::Loopback => all_zero(x, at, 15) && x[at + 15] == 1,
        Kind6::Multicast => x[at] == 0xff,
        Kind6::Unicast => x[at] != 0xff,
        Kind6::UnicastLinkLocal => x[at] == 0xfe && 0x80 <= x[at + 1] && x[at + 1] <= 0xbf,
        Kind6::UniqueLocal => x[at] == 0xfc || x[at] == 0xfd,
        Kind6::Ipv4Mapped => all_zero(x, at, 10) && x[at + 10] == 0xff && x[at + 11] == 0xff,
        Kind6::Benchmarking => x[at] == 0x20 && x[at + 1] == 0x01 && x[at + 2] == 0 && x[at + 3]
            == 0x02 && x[at + 4] == 0 && x[at + 5] == 0,
    }
}

/// For each address of `x`, whether it is of the kind `kind`. Bytes after
/// the last whole address are passed over.
pub fn each_of_kind6(kind: Kind6, x: &[u8]) -> (r: Vec<bool>)
    ensures
        r.len() == x.len() / 16,
        forall|i: int| 0 <= i < r.len() ==> #[trigger] r[i] == is_of_kind6(kind, address6(x@, i)),
{
    let n: usize = x.len() / 16;
    let mut out: Vec<bool> = Vec::new();
    let mut i: usize = 0;
    while i < n
        invariant
            i <= n,
            n == x.len() / 16,
            out.len() == i,
            forall|k: int| 0 <= k < i ==> #[trigger] out[k] == is_of_kind6(kind, address6(x@, k)),
        decreases n - i,
    {
        out.push(of_kind6(kind, x, 16 * i));
        i = i + 1;
    }
    out
}

pub fn is_unspecified6(x: &[u8]) -> (r: Vec<bool>)
    ensures
        r.len() == x.len() / 16,
        forall|i: int|
            0 <= i < r.len() ==> #[trigger] r[i] == is_of_kind6(
                Kind6::Unspecified,
                address6(x@, i),
            ),
{
    each_of_kind6(Kind6::Unspecified, x)
}

pub fn is_loopback6(x: &[u8]) -> (r: Vec<bool>)
    ensures
        r.len() == x.len() / 16,
        forall|i: int|
            0 <= i < r.len() ==> #[trigger] r[i] == is_of_kind6(Kind6::Loopback, address6(x@, i)),
{
    each_of_kind6(Kind6::Loopback, x)
}

pub fn is_multicast6(x: &[u8]) -> (r: Vec<bool>)
    ensures
        r.len() == x.len() / 16,
        forall|i: int|
            0 <= i < r.len() ==> #[trigger] r[i] == is_of_kind6(Kind6::Multicast, address6(x@, i)),
{
    each_of_kind6(Kind6::Multicast, x)
}

pub fn is_unicast6(x: &[u8]) -> (r: Vec<bool>)
    ensures
        r.len() == x.len() / 16,
        forall|i: int|
            0 <= i < r.len() ==> #[trigger] r[i] == is_of_kind6(Kind6::Unicast, address6(x@, i)),
{
    each_of_kind6(Kind6::Unicast, x)
}

pub fn is_unicast_link_local(x: &[u8]) -> (r: Vec<bool>)
    ensures
        r.len() == x.len() / 16,
        forall|i: int|
            0 <= i < r.len() ==> #[trigger] r[i] == is_of_kind6(
                Kind6::UnicastLinkLocal,
                address6(x@, i),
            ),
{
    each_of_kind6(Kind6::UnicastLinkLocal, x)
}

pub fn is_unique_local(x: &[u8]) -> (r: Vec<bool>)
    ensures
        r.len() == x.len() / 16,
        forall|i: int|
            0 <= i < r.len() ==> #[trigger] r[i] == is_of_kind6(
                Kind6::UniqueLocal,
                address6(x@, i),
            ),
{
    each_of_kind6(Kind6::UniqueLocal, x)
}

pub fn is_ipv4_mapped(x: &[u8]) -> (r: Vec<bool>)
    ensures
        r.len() == x.len() / 16,
        forall|i: int|
            0 <= i < r.len() ==> #[trigger] r[i] == is_of_kind6(
                Kind6::Ipv4Mapped,
                address6(x@, i),
            ),
{
    each_of_kind6(Kind6::Ipv4Mapped, x)
}

pub fn is_benchmarking6(x: &[u8]) -> (r: Vec<bool>)
    ensures
        r.len() == x.len() / 16,
        forall|i: int|
            0 <= i < r.len() ==> #[trigger] r[i] == is_of_kind6(
                Kind6::Benchmarking,
                address6(x@, i),
            ),
{
    each_of_kind6(Kind6::Benchmarking, x)
}

/// The IPv6 address that stands for the IPv4 address `x`: ten bytes of
/// zero, two of ones, and the four bytes of `x`, the highest first.
pub open spec fn mapped(x: u32) -> Seq<u8> {
    seq![
        0u8,
        0u8,
        0u8,
        0u8,
        0u8,
        0u8,
        0u8,
        0u8,
        0u8,
        0u8,
        0xffu8,
        0xffu8,
        (x / 0x100_0000) as u8,
        (x / 0x1_0000 % 0x100) as u8,
        (x / 0x100 % 0x100) as u8,
        (x % 0x100) as u8,
    ]
}

/// The IPv6 addresses that stand for the first `n` of the IPv4 addresses
/// `x`, one after another.
pub open spec fn mapped_all(x: Seq<u32>, n: nat) -> Seq<u8>
    decreases n,
{
    if n == 0 || n > x.len() {
        Seq::empty()
    } else {
        mapped_all(x, (n - 1) as nat) + mapped(x[n - 1])
    }
}

/// The IPv6 addresses that stand for the IPv4 addresses `x`.
pub fn to_ipv6_mapped(x: &[u32]) -> (r: Vec<u8>)
    ensures
        r@ == mapped_all(x@, x.len() as nat),
{
    let mut out: Vec<u8> = Vec::new();
    let mut i: usize = 0;
    while i < x.len()
        invariant
            i <= x.len(),
            out@ == mapped_all(x@, i as nat),
        decreases x.len() - i,
    {
        let a: u32 = x[i];
        let ghost before = out@;
        let mut k: usize = 0;
        while k < 10
            invariant
                k <= 10,
                out@ == before + Seq::new(k as nat, |j: int| 0u8),
            decreases 10 - k,
        {
            out.push(0);
            assert(out@ =~= before + Seq::new((k + 1) as nat, |j: int| 0u8));
            k = k + 1;
        }
        out.push(0xff);
        out.push(0xff);
        out.push((a / 0x100_0000) as u8);
        out.push((a / 0x1_0000 % 0x100) as u8);
        out.push((a / 0x100 % 0x100) as u8);
        out.push((a % 0x100) as u8);
        assert(out@ =~= before + mapped(a));
        i = i + 1;
    }
    out
}

/// The mask of the network part of an address under a prefix of `prefix`
/// bits: `prefix` ones, then zeros.
pub open spec fn netmask(prefix: u8) -> u32 {
    if prefix == 0 {
        0
    } else {
        0xffff_ffffu32 << ((32 - prefix) as u32)
    }
}

/// The mask of the host part of an address under a prefix of `prefix`
/// bits: `prefix` zeros, then ones.
pub open spec fn hostmask(prefix: u8) -> u32 {
    if prefix >= 32 {
        0
    } else {
        0xffff_ffffu32 >> (prefix as u32)
    }
}

/// The first address of the network of `addr` under a prefix of `prefix`
/// bits.
pub open spec fn network(addr: u32, prefix: u8) -> u32 {
    addr & netmask(prefix)
}

/// The last address of the network of `addr` under a prefix of `prefix`
/// bits.
pub open spec fn broadcast(addr: u32, prefix: u8) -> u32 {
    addr | hostmask(prefix)
}

/// Whether `other` lies in the network of `addr` under a prefix of
/// `prefix` bits.
pub open spec fn in_network(addr: u32, prefix: u8, other: u32) -> bool {
    network(addr, prefix) <= other <= broadcast(addr, prefix)
}

/// The addresses from `first` to `last`, both among them.
pub open spec fn addresses(first: u32, last: u32) -> Seq<u32> {
    if first <= last {
        Seq::new((last - first + 1) as nat, |i: int| (first + i) as u32)
    } else {
        Seq::empty()
    }
}

/// The hosts of the network of `addr` under a prefix of `prefix` bits: all
/// its addresses where the prefix leaves one bit or none, and all but the
/// first and the last otherwise.
pub open spec fn hosts(addr: u32, prefix: u8) -> Seq<u32> {
    let first = network(addr, prefix);
    let last = broadcast(addr, prefix);
    if prefix < 31 {
        addresses(
            if first == u32::MAX {
                first
            } else {
                (first + 1) as u32
            },
            if last == 0 {
                last
            } else {
                (last - 1) as u32
            },
        )
    } else {
        addresses(first, last)
    }
}

/// `ipnet::Ipv4Net::new`, which refuses a prefix of more than 32 bits, and
/// `Ipv4Net::contains` for an address: the address lies between
/// `network()`, the address with the bits after the prefix cleared, and
/// `broadcast()`, the address with those bits set. The address `other`
/// becomes an address of the standard library on its way through a network
/// of its own.
#[verifier::external_body]
fn net_contains(addr: u32, prefix: u8, other: u32) -> (r: bool)
    requires
        prefix <= 32,
    ensures
        r == in_network(addr, prefix, other),
{
    let net = ipnet::Ipv4Net::new(addr.into(), prefix).unwrap();
    let address = ipnet::Ipv4Net::new(other.into(), 32).unwrap().addr();
    net.contains(&address)
}

/// `ipnet::Ipv4Net::new`, which refuses a prefix of more than 32 bits, and
/// `Ipv4Net::hosts`: the range from `network()` to `broadcast()`, without
/// its two ends (by saturating steps) where the prefix has less than 31
/// bits. The range hands out its addresses in order, both ends among them,
/// and none where its start lies after its end.
#[verifier::external_body]
fn net_hosts(addr: u32, prefix: u8) -> (r: Vec<u32>)
    requires
        prefix <= 32,
    ensures
        r@ == hosts(addr, prefix),
{
    ipnet::Ipv4Net::new(addr.into(), prefix).unwrap().hosts().map(u32::from).collect()
}

/// Whether the first `n` prefixes have 32 bits at most.
pub open spec fn are_prefixes(pref: Seq<u8>, n: int) -> bool {
    forall|i: int| 0 <= i < n && i < pref.len() ==> #[trigger] pref[i] <= 32
}

/// The lesser of two lengths.
pub open spec fn lesser(a: int, b: int) -> int {
    if a <= b {
        a
    } else {
        b
    }
}

/// For each network, given by an address and the prefix at its place,
/// whether `other` lies in it. Addresses without a prefix, and prefixes
/// without an address, are passed over.
pub fn contains_one4(addr: &[u32], pref: &[u8], other: u32) -> (r: Vec<bool>)
    requires
        are_prefixes(pref@, addr.len() as int),
    ensures
        r.len() == lesser(addr.len() as int, pref.len() as int),
        forall|i: int| 0 <= i < r.len() ==> #[trigger] r[i] == in_network(addr[i], pref[i], other),
{
    let n: usize = if addr.len() <= pref.len() {
        addr.len()
    } else {
        pref.len()
    };
    let mut out: Vec<bool> = Vec::new();
    let mut i: usize = 0;
    while i < n
        invariant
            i <= n,
            n == lesser(addr.len() as int, pref.len() as int),
            are_prefixes(pref@, addr.len() as int),
            out.len() == i,
            forall|k: int| 0 <= k < i ==> #[trigger] out[k] == in_network(addr[k], pref[k], other),
        decreases n - i,
    {
        out.push(net_contains(addr[i], pref[i], other));
        i = i + 1;
    }
    out
}

/// The hosts of the first `n` networks, one network after another.
pub open spec fn hosts_of_all(addr: Seq<u32>, pref: Seq<u8>, n: nat) -> Seq<u32>
    decreases n,
{
    if n == 0 || n > addr.len() || n > pref.len() {
        Seq::empty()
    } else {
        hosts_of_all(addr, pref, (n - 1) as nat) + hosts(addr[n - 1], pref[n - 1])
    }
}

/// The hosts of each network, given by an address and the prefix at its
/// place: the hosts of all networks in one list, and for each network the
/// place in that list at which its hosts end, after a zero for the start.
pub fn hosts4(addr: &[u32], pref: &[u8]) -> (r: (Vec<u32>, Vec<u64>))
    requires
        are_prefixes(pref@, addr.len() as int),
    ensures
        r.0@ == hosts_of_all(
            addr@,
            pref@,
            lesser(addr.len() as int, pref.len() as int) as nat,
        ),
        r.1.len() == lesser(addr.len() as int, pref.len() as int) + 1,
        forall|i: int|
            0 <= i < r.1.len() ==> #[trigger] r.1[i] == hosts_of_all(addr@, pref@, i as nat).len(),
{
    let n: usize = if addr.len() <= pref.len() {
        addr.len()
    } else {
        pref.len()
    };
    let mut out: Vec<u32> = Vec::new();
    let mut offsets: Vec<u64> = Vec::new();
    offsets.push(0);
    let mut i: usize = 0;
    while i < n
        invariant
            i <= n,
            n == lesser(addr.len() as int, pref.len() as int),
            are_prefixes(pref@, addr.len() as int),
            out@ == hosts_of_all(addr@, pref@, i as nat),
            offsets.len() == i + 1,
            forall|k: int|
                0 <= k <= i ==> #[trigger] offsets[k] == hosts_of_all(addr@, pref@, k as nat).len(),
        decreases n - i,
    {
        let mut more = net_hosts(addr[i], pref[i]);
        out.append(&mut more);
        offsets.push(out.len() as u64);
        i = i + 1;
    }
    (out, offsets)
}

/// The text that bytes write in UTF-8, if they write one.
pub uninterp spec fn utf8_text(bytes: Seq<u8>) -> Option<Seq<char>>;

/// The network that a text of the form `a.b.c.d/p` writes, as its address
/// and its prefix, if the text writes one.
pub uninterp spec fn written_net(text: Seq<char>) -> Option<(u32, u8)>;

/// `core::str::from_utf8`: the bytes as a text, where they are UTF-8.
#[verifier::external_body]
fn text_of(bytes: &[u8]) -> (r: Option<&str>)
    ensures
        match r {
            Some(text) => utf8_text(bytes@) == Some(text@),
            None => utf8_text(bytes@) is None,
        },
{
    core::str::from_utf8(bytes).ok()
}

/// `ipnet::Ipv4Net::from_str`, with `addr()` and `prefix_len()` of the
/// network it gives. It reads the prefix as a number below 33.
#[verifier::external_body]
fn net_of(text: &str) -> (r: Option<(u32, u8)>)
    ensures
        r == written_net(text@),
        r is Some ==> (r->0).1 <= 32,
{
    text.parse::<ipnet::Ipv4Net>().ok().map(|net| (net.addr().into(), net.prefix_len()))
}

/// Whether `offsets` cut a run of `length` bytes into pieces: they are in
/// order, and none lies after the end.
pub open spec fn cuts(offsets: Seq<u32>, length: int) -> bool {
    forall|i: int|
        0 <= i < offsets.len() - 1 ==> (#[trigger] offsets[i]) <= offsets[i + 1] <= length
}

/// The piece at the place `i`: the bytes between two offsets.
pub open spec fn piece(offsets: Seq<u32>, data: Seq<u8>, i: int) -> Seq<u8> {
    data.subrange(offsets[i] as int, offsets[i + 1] as int)
}

/// The network that the piece at the place `i` writes.
pub open spec fn net_at(offsets: Seq<u32>, data: Seq<u8>, i: int) -> Option<(u32, u8)> {
    match utf8_text(piece(offsets, data, i)) {
        Some(text) => written_net(text),
        None => None,
    }
}

/// Whether each of the first `n` pieces writes a network.
pub open spec fn all_nets(offsets: Seq<u32>, data: Seq<u8>, n: int) -> bool {
    forall|i: int| 0 <= i < n ==> (#[trigger] net_at(offsets, data, i)) is Some
}

/// The network that the piece at the place `i` writes, if it writes one.
fn read_net(offsets: &[u32], data: &[u8], i: usize) -> (r: Option<(u32, u8)>)
    requires
        i + 1 < offsets.len(),
        offsets[i as int] <= offsets[i + 1] <= data.len(),
    ensures
        r == net_at(offsets@, data@, i as int),
        r is Some ==> (r->0).1 <= 32,
{
    let bytes = vstd::slice::slice_subrange(data, offsets[i] as usize, offsets[i + 1] as usize);
    match text_of(bytes) {
        Some(text) => net_of(text),
        None => None,
    }
}

/// Reads networks from texts of the form `a.b.c.d/p`: the addresses, and
/// the prefixes. The texts are the pieces into which `offsets` cut `data`.
pub fn parsenet4(offsets: &[u32], data: &[u8]) -> (r: (Vec<u32>, Vec<u8>))
    requires
        offsets.len() >= 1,
        cuts(offsets@, data.len() as int),
        all_nets(offsets@, data@, offsets.len() - 1),
    ensures
        r.0.len() == offsets.len() - 1,
        r.1.len() == offsets.len() - 1,
        forall|i: int|
            0 <= i < offsets.len() - 1 ==> net_at(offsets@, data@, i) == Some(
                (#[trigger] r.0[i], r.1[i]),
            ),
        forall|i: int| 0 <= i < r.1.len() ==> #[trigger] r.1[i] <= 32,
{
    let n: usize = offsets.len() - 1;
    let mut addresses: Vec<u32> = Vec::new();
    let mut prefixes: Vec<u8> = Vec::new();
    let mut i: usize = 0;
    while i < n
        invariant
            i <= n,
            n == offsets.len() - 1,
            cuts(offsets@, data.len() as int),
            all_nets(offsets@, data@, n as int),
            addresses.len() == i,
            prefixes.len() == i,
            forall|k: int|
                0 <= k < i ==> net_at(offsets@, data@, k) == Some(
                    (#[trigger] addresses[k], prefixes[k]),
                ),
            forall|k: int| 0 <= k < i ==> #[trigger] prefixes[k] <= 32,
        decreases n - i,
    {
        assert(offsets[i as int] <= offsets[i + 1] <= data.len());
        assert(net_at(offsets@, data@, i as int) is Some);
        let net = read_net(offsets, data, i);
        let (address, prefix) = net.unwrap();
        addresses.push(address);
        prefixes.push(prefix);
        i = i + 1;
    }
    (addresses, prefixes)
}

/// Reads networks like [`parsenet4`], after checking the offsets and the
/// texts: `None` where there is no offset, where the offsets do not cut
/// `data`, or where a piece writes no network.
pub fn checked_parsenet4(offsets: &[u32], data: &[u8]) -> (r: Option<(Vec<u32>, Vec<u8>)>)
    ensures
        r is Some <==> offsets.len() >= 1 && cuts(offsets@, data.len() as int) && all_nets(
            offsets@,
            data@,
            offsets.len() - 1,
        ),
        r is Some ==> {
            &&& (r->0).0.len() == offsets.len() - 1
            &&& (r->0).1.len() == offsets.len() - 1
            &&& forall|i: int|
                0 <= i < offsets.len() - 1 ==> net_at(offsets@, data@, i) == Some(
                    (#[trigger] (r->0).0[i], (r->0).1[i]),
                )
        },
{
    if offsets.len() == 0 {
        return None;
    }
    let n: usize = offsets.len() - 1;
    let mut i: usize = 0;
    while i < n
        invariant
            i <= n,
            n == offsets.len() - 1,
            forall|k: int|
                0 <= k < i ==> (#[trigger] offsets[k]) <= offsets[k + 1] <= data.len(),
            all_nets(offsets@, data@, i as int),
        decreases n - i,
    {
        if offsets[i] > offsets[i + 1] || offsets[i + 1] as usize > data.len() {
            return None;
        }
        if read_net(offsets, data, i).is_none() {
            return None;
        }
        i = i + 1;
    }
    Some(parsenet4(offsets, data))
}

} // verus!
